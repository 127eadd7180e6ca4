use vstd::prelude::*;

verus! {

/// The mathematical value of a claim: what a [`ClaimValue`] denotes.
pub enum ClaimValueV {
    /// A JSON string.
    Str(Seq<char>),
    /// A signed integer, rendered in decimal.
    Int(int),
    /// A JSON numeral given as literal text (used for fractional and
    /// exponent-carrying numbers); rendered byte for byte.
    Num(Seq<char>),
    /// A JSON boolean.
    Bool(bool),
    /// The JSON null value.
    Null,
}

/// A claim's value: a JSON scalar or string.
pub enum ClaimValue {
    /// A JSON string.
    Str(String),
    /// A signed integer, rendered in decimal.
    Int(i64),
    /// A JSON numeral as literal text, for example produced by formatting a
    /// fractional number.  It is rendered into the payload unchanged, so it
    /// must satisfy the JSON number grammar or `build` refuses it.
    Num(String),
    /// A JSON boolean.
    Bool(bool),
    /// The JSON null value.
    Null,
}

impl View for ClaimValue {
    type V = ClaimValueV;

    open spec fn view(&self) -> ClaimValueV {
        match self {
            ClaimValue::Str(s) => ClaimValueV::Str(s@),
            ClaimValue::Int(i) => ClaimValueV::Int(*i as int),
            ClaimValue::Num(t) => ClaimValueV::Num(t@),
            ClaimValue::Bool(b) => ClaimValueV::Bool(*b),
            ClaimValue::Null => ClaimValueV::Null,
        }
    }
}

/// One named claim: a key together with a value.
pub struct Claim {
    key: String,
    value: ClaimValue,
}

impl View for Claim {
    type V = (Seq<char>, ClaimValueV);

    closed spec fn view(&self) -> (Seq<char>, ClaimValueV) {
        (self.key@, self.value@)
    }
}

impl Claim {
    /// A claim from a key and an already shaped value.
    pub fn new(key: String, value: ClaimValue) -> (r: Claim)
        ensures
            r@ == (key@, value@),
    {
        Claim { key, value }
    }

    /// A claim whose value is a JSON string.
    pub fn string(key: String, value: String) -> (r: Claim)
        ensures
            r@ == (key@, ClaimValueV::Str(value@)),
    {
        Claim { key, value: ClaimValue::Str(value) }
    }

    /// A claim whose value is a signed integer.
    pub fn integer(key: String, value: i64) -> (r: Claim)
        ensures
            r@ == (key@, ClaimValueV::Int(value as int)),
    {
        Claim { key, value: ClaimValue::Int(value) }
    }

    /// A claim whose value is a JSON numeral written out as text.
    pub fn number(key: String, text: String) -> (r: Claim)
        ensures
            r@ == (key@, ClaimValueV::Num(text@)),
    {
        Claim { key, value: ClaimValue::Num(text) }
    }

    /// A claim whose value is a JSON boolean.
    pub fn boolean(key: String, value: bool) -> (r: Claim)
        ensures
            r@ == (key@, ClaimValueV::Bool(value)),
    {
        Claim { key, value: ClaimValue::Bool(value) }
    }

    /// A claim whose value is the JSON null value.
    pub fn null(key: String) -> (r: Claim)
        ensures
            r@ == (key@, ClaimValueV::Null),
    {
        Claim { key, value: ClaimValue::Null }
    }

    /// The key under which this claim is registered.
    pub fn get_key(&self) -> (r: &String)
        ensures
            r@ == self@.0,
    {
        &self.key
    }

    /// The claim's value.
    pub fn get_value(&self) -> (r: &ClaimValue)
        ensures
            r@ == self@.1,
    {
        &self.value
    }
}

} // verus!
