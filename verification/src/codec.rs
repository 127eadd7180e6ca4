use vstd::prelude::*;

use crate::errors::TokenError;
use crate::keys::SharedKey;

verus! {

// ---------------------------------------------------------------------------
// The authenticated-encryption boundary.  The token codec frames the payload
// together with the footer, seals the frame with XChaCha20-Poly1305, and
// writes the ciphertext as lower-case hexadecimal.  Only the two calls into
// the cipher are trusted; framing and the hexadecimal coding are verified.
// ---------------------------------------------------------------------------

/// Names what `orion::aead::open` returns for a key and a ciphertext:
/// XChaCha20-Poly1305 decryption is a deterministic function of the two, with
/// `None` standing for a rejected ciphertext.
pub uninterp spec fn aead_opened(key: Seq<u8>, ct: Seq<u8>) -> Option<Seq<u8>>;

#[verifier::external_type_specification]
#[verifier::external_body]
pub struct ExUnknownCryptoError(orion::errors::UnknownCryptoError);

/// Relies on `orion::aead::seal` (XChaCha20-Poly1305 under a fresh random
/// nonce, which is carried in the ciphertext) and on
/// `orion::aead::SecretKey::try_from` of a 32-byte slice: opening seal's
/// output with the same key yields exactly the plaintext.  Sealing itself may
/// fail (for example if no randomness is available), so success is not
/// promised.
#[verifier::external_body]
fn aead_seal(key: &Vec<u8>, pt: &Vec<u8>) -> (r: Result<
    Vec<u8>,
    orion::errors::UnknownCryptoError,
>)
    requires
        key@.len() == 32,
        pt@.len() >= 1,
    ensures
        r matches Ok(ct) ==> aead_opened(key@, ct@) == Some(pt@),
{
    let sk = orion::aead::SecretKey::try_from(key.as_slice())?;
    orion::aead::seal(&sk, pt.as_slice())
}

/// Relies on `orion::aead::open` and on `orion::aead::SecretKey::try_from` of
/// a 32-byte slice: decryption is deterministic in the key and the
/// ciphertext, succeeding exactly when the Poly1305 tag verifies.
#[verifier::external_body]
fn aead_open(key: &Vec<u8>, ct: &Vec<u8>) -> (r: Result<
    Vec<u8>,
    orion::errors::UnknownCryptoError,
>)
    requires
        key@.len() == 32,
    ensures
        r matches Ok(pt) ==> aead_opened(key@, ct@) == Some(pt@),
        r matches Err(_) ==> aead_opened(key@, ct@) is None,
{
    let sk = orion::aead::SecretKey::try_from(key.as_slice())?;
    orion::aead::open(&sk, ct.as_slice())
}

/// Relies on `String::from_utf8`: bytes below 0x80 are UTF-8 for exactly the
/// characters with those code points.
#[verifier::external_body]
fn string_from_ascii(bytes: Vec<u8>) -> (r: String)
    requires
        forall|i: int| 0 <= i < bytes@.len() ==> bytes@[i] < 128,
    ensures
        r@ == Seq::new(bytes@.len(), |i: int| bytes@[i] as char),
{
    match String::from_utf8(bytes) {
        Ok(s) => s,
        Err(_) => String::new(),
    }
}

// ---------------------------------------------------------------------------
// Framing: an eight-byte big-endian payload length, the payload, the footer.
// ---------------------------------------------------------------------------

/// The eight big-endian bytes of a length.
pub open spec fn be64(n: u64) -> Seq<u8> {
    seq![
        (n >> 56) as u8,
        (n >> 48) as u8,
        (n >> 40) as u8,
        (n >> 32) as u8,
        (n >> 24) as u8,
        (n >> 16) as u8,
        (n >> 8) as u8,
        n as u8,
    ]
}

/// The length read back from eight big-endian bytes.
pub open spec fn be64_val(b: Seq<u8>) -> u64
    recommends
        b.len() == 8,
{
    (((b[0] as u64) << 56) | ((b[1] as u64) << 48) | ((b[2] as u64) << 40) | ((b[3] as u64) << 32)
        | ((b[4] as u64) << 24) | ((b[5] as u64) << 16) | ((b[6] as u64) << 8) | (b[7] as u64))
}

proof fn lemma_be64_roundtrip(n: u64)
    ensures
        be64(n).len() == 8,
        be64_val(be64(n)) == n,
{
    assert((((((n >> 56) as u8) as u64) << 56) | ((((n >> 48) as u8) as u64) << 48) | ((((n
        >> 40) as u8) as u64) << 40) | ((((n >> 32) as u8) as u64) << 32) | ((((n
        >> 24) as u8) as u64) << 24) | ((((n >> 16) as u8) as u64) << 16) | ((((n
        >> 8) as u8) as u64) << 8) | ((n as u8) as u64)) == n) by (bit_vector);
}

/// A sealed frame: the payload length, the payload, the footer.
pub open spec fn frame(p: Seq<u8>, f: Seq<u8>) -> Seq<u8> {
    be64(p.len() as u64) + p + f
}

/// Splitting a frame back into payload and footer.
pub open spec fn unframe(b: Seq<u8>) -> Option<(Seq<u8>, Seq<u8>)> {
    if b.len() < 8 {
        None
    } else {
        let n = be64_val(b.take(8)) as int;
        if b.len() - 8 < n {
            None
        } else {
            Some((b.subrange(8, 8 + n), b.subrange(8 + n, b.len() as int)))
        }
    }
}

/// Law: splitting a frame recovers exactly the payload and footer it was
/// built from.
pub proof fn lemma_unframe_frame(p: Seq<u8>, f: Seq<u8>)
    requires
        p.len() <= u64::MAX,
    ensures
        unframe(frame(p, f)) == Some((p, f)),
{
    lemma_be64_roundtrip(p.len() as u64);
    let b = frame(p, f);
    assert(b.take(8) =~= be64(p.len() as u64));
    assert(b.subrange(8, 8 + p.len() as int) =~= p);
    assert(b.subrange(8 + p.len() as int, b.len() as int) =~= f);
}

fn frame_bytes(payload: &Vec<u8>, footer: &Vec<u8>) -> (r: Vec<u8>)
    ensures
        r@ == frame(payload@, footer@),
        r@.len() >= 8,
{
    let n: u64 = payload.len() as u64;
    let mut out: Vec<u8> = Vec::new();
    out.push((n >> 56) as u8);
    out.push((n >> 48) as u8);
    out.push((n >> 40) as u8);
    out.push((n >> 32) as u8);
    out.push((n >> 24) as u8);
    out.push((n >> 16) as u8);
    out.push((n >> 8) as u8);
    out.push(n as u8);
    assert(out@ =~= be64(n));
    let ghost pre = out@;
    let mut i: usize = 0;
    while i < payload.len()
        invariant
            0 <= i <= payload@.len(),
            out@ == pre + payload@.take(i as int),
        decreases payload@.len() - i,
    {
        out.push(payload[i]);
        assert(out@ =~= pre + payload@.take(i + 1int));
        i = i + 1;
    }
    assert(payload@.take(payload@.len() as int) =~= payload@);
    let ghost pre2 = out@;
    let mut j: usize = 0;
    while j < footer.len()
        invariant
            0 <= j <= footer@.len(),
            out@ == pre2 + footer@.take(j as int),
        decreases footer@.len() - j,
    {
        out.push(footer[j]);
        assert(out@ =~= pre2 + footer@.take(j + 1int));
        j = j + 1;
    }
    assert(footer@.take(footer@.len() as int) =~= footer@);
    assert(out@ =~= frame(payload@, footer@));
    out
}

fn unframe_bytes(b: &Vec<u8>) -> (r: Option<(Vec<u8>, Vec<u8>)>)
    ensures
        r matches Some(pf) ==> unframe(b@) == Some((pf.0@, pf.1@)),
        r is None ==> unframe(b@) is None,
{
    if b.len() < 8 {
        return None;
    }
    let n: u64 = (((b[0] as u64) << 56) | ((b[1] as u64) << 48) | ((b[2] as u64) << 40) | ((
    b[3] as u64) << 32) | ((b[4] as u64) << 24) | ((b[5] as u64) << 16) | ((b[6] as u64) << 8) | (
    b[7] as u64));
    proof {
        assert(b@.take(8)[0] == b@[0]);
        assert(b@.take(8)[1] == b@[1]);
        assert(b@.take(8)[2] == b@[2]);
        assert(b@.take(8)[3] == b@[3]);
        assert(b@.take(8)[4] == b@[4]);
        assert(b@.take(8)[5] == b@[5]);
        assert(b@.take(8)[6] == b@[6]);
        assert(b@.take(8)[7] == b@[7]);
        assert(n == be64_val(b@.take(8)));
    }
    let len = b.len();
    if ((len - 8) as u64) < n {
        return None;
    }
    let nn: usize = n as usize;
    assert(nn + 8 <= len);
    let mut p: Vec<u8> = Vec::new();
    let mut i: usize = 0;
    while i < nn
        invariant
            len == b@.len(),
            nn + 8 <= len,
            0 <= i <= nn,
            p@ == b@.subrange(8, 8 + i as int),
        decreases nn - i,
    {
        p.push(b[8 + i]);
        assert(p@ =~= b@.subrange(8, 8 + (i + 1int)));
        i = i + 1;
    }
    let mut f: Vec<u8> = Vec::new();
    let mut j: usize = 8 + nn;
    while j < b.len()
        invariant
            len == b@.len(),
            8 + nn <= j <= len,
            f@ == b@.subrange(8 + nn as int, j as int),
        decreases b@.len() - j,
    {
        f.push(b[j]);
        assert(f@ =~= b@.subrange(8 + nn as int, j + 1int));
        j = j + 1;
    }
    Some((p, f))
}

// ---------------------------------------------------------------------------
// Hexadecimal coding of the ciphertext, verified in both directions.
// ---------------------------------------------------------------------------

/// The ASCII code of the lower-case hexadecimal digit for a nibble.
pub open spec fn hex_byte(n: u8) -> u8
    recommends
        n < 16,
{
    if n < 10 {
        (48 + n) as u8
    } else {
        (87 + n) as u8
    }
}

/// The lower-case hexadecimal digit for a nibble, as a character.
pub open spec fn hex_char(n: u8) -> char
    recommends
        n < 16,
{
    hex_byte(n) as char
}

/// The hexadecimal writing of a byte string, two digits per byte.
pub open spec fn hex_of(b: Seq<u8>) -> Seq<char>
    decreases b.len(),
{
    if b.len() == 0 {
        Seq::empty()
    } else {
        seq![hex_char(b[0] / 16), hex_char(b[0] % 16)] + hex_of(b.skip(1))
    }
}

/// The value of one hexadecimal digit; only lower case is accepted.
pub open spec fn nib_val(c: char) -> Option<u8> {
    let v = c as u32;
    if 48 <= v && v <= 57 {
        Some((v - 48) as u8)
    } else if 97 <= v && v <= 102 {
        Some((v - 87) as u8)
    } else {
        None
    }
}

/// The bytes a hexadecimal text stands for, or `None` when it is not one.
pub open spec fn hex_val(s: Seq<char>) -> Option<Seq<u8>>
    decreases s.len(),
{
    if s.len() == 0 {
        Some(Seq::empty())
    } else if s.len() == 1 {
        None
    } else {
        match (nib_val(s[0]), nib_val(s[1])) {
            (Some(h), Some(l)) => match hex_val(s.skip(2)) {
                Some(r) => Some(seq![(16 * h + l) as u8] + r),
                None => None,
            },
            _ => None,
        }
    }
}

proof fn lemma_nib_hex(n: u8)
    requires
        n < 16,
    ensures
        nib_val(hex_char(n)) == Some(n),
{
}

/// Law: reading back the hexadecimal writing of any byte string yields that
/// byte string.
pub proof fn lemma_hex_roundtrip(b: Seq<u8>)
    ensures
        hex_of(b).len() == 2 * b.len(),
        hex_val(hex_of(b)) == Some(b),
    decreases b.len(),
{
    if b.len() == 0 {
    } else {
        lemma_hex_roundtrip(b.skip(1));
        let s = hex_of(b);
        lemma_nib_hex(b[0] / 16);
        lemma_nib_hex(b[0] % 16);
        assert(s.skip(2) =~= hex_of(b.skip(1)));
        assert((16 * (b[0] / 16) + b[0] % 16) as u8 == b[0]);
        assert(seq![b[0]] + b.skip(1) =~= b);
    }
}

proof fn lemma_hex_of_index(b: Seq<u8>, i: int)
    requires
        0 <= i < b.len(),
    ensures
        hex_of(b).len() == 2 * b.len(),
        hex_of(b)[2 * i] == hex_char(b[i] / 16),
        hex_of(b)[2 * i + 1] == hex_char(b[i] % 16),
    decreases i,
{
    lemma_hex_roundtrip(b);
    if i == 0 {
    } else {
        lemma_hex_of_index(b.skip(1), i - 1);
        lemma_hex_roundtrip(b.skip(1));
    }
}

fn hex_encode(ct: &Vec<u8>) -> (r: String)
    ensures
        r@ == hex_of(ct@),
{
    let mut hv: Vec<u8> = Vec::new();
    let mut i: usize = 0;
    while i < ct.len()
        invariant
            0 <= i <= ct@.len(),
            hv@.len() == 2 * i,
            forall|j: int|
                0 <= j < hv@.len() ==> hv@[j] < 128 && #[trigger] hv@[j] as char == hex_of(ct@)[j],
        decreases ct@.len() - i,
    {
        let x = ct[i];
        let hi = x / 16;
        let lo = x % 16;
        let bh: u8 = if hi < 10 {
            48 + hi
        } else {
            87 + hi
        };
        let bl: u8 = if lo < 10 {
            48 + lo
        } else {
            87 + lo
        };
        proof {
            lemma_hex_of_index(ct@, i as int);
        }
        hv.push(bh);
        hv.push(bl);
        i = i + 1;
    }
    proof {
        lemma_hex_roundtrip(ct@);
    }
    let r = string_from_ascii(hv);
    assert(r@ =~= hex_of(ct@));
    r
}

fn nib_x(c: char) -> (r: Option<u8>)
    ensures
        r == nib_val(c),
{
    let v = c as u32;
    if 48 <= v && v <= 57 {
        Some((v - 48) as u8)
    } else if 97 <= v && v <= 102 {
        Some((v - 87) as u8)
    } else {
        None
    }
}

fn hex_decode(s: &str) -> (r: Option<Vec<u8>>)
    ensures
        r matches Some(v) ==> hex_val(s@) == Some(v@),
        r is None ==> hex_val(s@) is None,
{
    let n = s.unicode_len();
    let mut out: Vec<u8> = Vec::new();
    let mut i: usize = 0;
    proof {
        assert(s@.skip(0int) =~= s@);
        if hex_val(s@) is Some {
            assert(Seq::<u8>::empty() + hex_val(s@).unwrap() =~= hex_val(s@).unwrap());
        }
    }
    while i < n
        invariant
            n == s@.len(),
            0 <= i <= n,
            hex_val(s@) == match hex_val(s@.skip(i as int)) {
                Some(rest) => Some(out@ + rest),
                None => None::<Seq<u8>>,
            },
        decreases n - i,
    {
        if i + 1 == n {
            assert(hex_val(s@.skip(i as int)) is None);
            return None;
        }
        let c0 = s.get_char(i);
        let c1 = s.get_char(i + 1);
        proof {
            assert(s@.skip(i as int)[0] == s@[i as int]);
            assert(s@.skip(i as int)[1] == s@[i + 1int]);
            assert(s@.skip(i as int).skip(2) =~= s@.skip(i + 2int));
        }
        let h = match nib_x(c0) {
            Some(h) => h,
            None => {
                return None;
            },
        };
        let l = match nib_x(c1) {
            Some(l) => l,
            None => {
                return None;
            },
        };
        out.push(16 * h + l);
        proof {
            if hex_val(s@.skip(i + 2int)) is Some {
                assert(out@ + hex_val(s@.skip(i + 2int)).unwrap() =~= out@.drop_last() + (seq![
                    (16 * h + l) as u8,
                ] + hex_val(s@.skip(i + 2int)).unwrap()));
            }
        }
        i = i + 2;
    }
    assert(s@.skip(n as int) =~= Seq::<char>::empty());
    assert(out@ + Seq::<u8>::empty() =~= out@);
    Some(out)
}

// ---------------------------------------------------------------------------
// The codec itself.
// ---------------------------------------------------------------------------

/// The byte sequence an optional footer stands for: absent means empty.
pub open spec fn opt_bytes(f: Option<Vec<u8>>) -> Seq<u8> {
    match f {
        Some(v) => v@,
        None => Seq::empty(),
    }
}

/// What decoding a token under a footer and a key yields: the payload bytes,
/// or the first error the decoder meets.
pub open spec fn spec_decode(token: Seq<char>, footer: Seq<u8>, key: Seq<u8>) -> Result<
    Seq<u8>,
    TokenError,
> {
    match hex_val(token) {
        None => Err(TokenError::InvalidToken),
        Some(ct) => match aead_opened(key, ct) {
            None => Err(TokenError::Codec),
            Some(pt) => match unframe(pt) {
                None => Err(TokenError::InvalidToken),
                Some(pf) => if pf.1 == footer {
                    Ok(pf.0)
                } else {
                    Err(TokenError::FooterMismatch)
                },
            },
        },
    }
}

fn bytes_eq(a: &Vec<u8>, b: &Vec<u8>) -> (r: bool)
    ensures
        r == (a@ == b@),
{
    if a.len() != b.len() {
        assert(a@ != b@);
        return false;
    }
    let mut i: usize = 0;
    while i < a.len()
        invariant
            a@.len() == b@.len(),
            0 <= i <= a@.len(),
            forall|j: int| 0 <= j < i ==> a@[j] == b@[j],
        decreases a@.len() - i,
    {
        if a[i] != b[i] {
            return false;
        }
        i = i + 1;
    }
    assert(a@ =~= b@);
    true
}

/// Seal a payload and footer under a shared key into a token string.  The
/// token decodes, under the same footer and key, to exactly the payload; only
/// the cipher itself can refuse, and that failure is passed on.
pub fn encode_token(payload: &Vec<u8>, footer: &Vec<u8>, key: &SharedKey) -> (r: Result<
    String,
    TokenError,
>)
    requires
        key.wf(),
    ensures
        r matches Ok(t) ==> spec_decode(t@, footer@, key@) == Ok::<_, TokenError>(payload@),
        r matches Err(e) ==> e == TokenError::Codec,
{
    let pl = payload.len();
    assert(pl as nat == payload@.len());
    assert(payload@.len() <= u64::MAX);
    let framed = frame_bytes(payload, footer);
    let ct = match aead_seal(key.raw(), &framed) {
        Ok(c) => c,
        Err(_) => {
            return Err(TokenError::Codec);
        },
    };
    let t = hex_encode(&ct);
    proof {
        lemma_hex_roundtrip(ct@);
        lemma_unframe_frame(payload@, footer@);
    }
    Ok(t)
}

/// Decrypt a token string, check its footer, and hand back the payload bytes.
pub fn decode_token(token: &str, footer: &Option<Vec<u8>>, key: &SharedKey) -> (r: Result<
    Vec<u8>,
    TokenError,
>)
    requires
        key.wf(),
    ensures
        r matches Ok(p) ==> spec_decode(token@, opt_bytes(*footer), key@) == Ok::<_, TokenError>(
            p@,
        ),
        r matches Err(e) ==> spec_decode(token@, opt_bytes(*footer), key@) == Err::<Seq<u8>, _>(e),
{
    let ct = match hex_decode(token) {
        Some(c) => c,
        None => {
            return Err(TokenError::InvalidToken);
        },
    };
    let pt = match aead_open(key.raw(), &ct) {
        Ok(p) => p,
        Err(_) => {
            return Err(TokenError::Codec);
        },
    };
    let (p, f2) = match unframe_bytes(&pt) {
        Some(pf) => pf,
        None => {
            return Err(TokenError::InvalidToken);
        },
    };
    let same = match footer {
        Some(fb) => bytes_eq(&f2, fb),
        None => f2.len() == 0,
    };
    if same {
        assert(f2@ == opt_bytes(*footer));
        Ok(p)
    } else {
        assert(f2@ != opt_bytes(*footer));
        Err(TokenError::FooterMismatch)
    }
}

} // verus!
