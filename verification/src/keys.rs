use vstd::prelude::*;

verus! {

/// A 32-byte symmetric key shared between the building and the decoding side.
pub struct SharedKey {
    bytes: Vec<u8>,
}

impl View for SharedKey {
    type V = Seq<u8>;

    closed spec fn view(&self) -> Seq<u8> {
        self.bytes@
    }
}

impl SharedKey {
    /// Whether the key has the one length the codec accepts.
    pub open spec fn wf(self) -> bool {
        self@.len() == 32
    }

    /// Wrap key material; refused unless it is exactly 32 bytes.
    pub fn from_bytes(bytes: Vec<u8>) -> (r: Option<SharedKey>)
        ensures
            r matches Some(k) ==> k@ == bytes@ && k.wf(),
            r is Some <==> bytes@.len() == 32,
    {
        if bytes.len() == 32 {
            Some(SharedKey { bytes })
        } else {
            None
        }
    }

    pub(crate) fn raw(&self) -> (r: &Vec<u8>)
        ensures
            r@ == self@,
    {
        &self.bytes
    }
}

} // verus!
