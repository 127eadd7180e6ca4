use vstd::prelude::*;

use crate::claims::{Claim, ClaimValue, ClaimValueV};
use crate::errors::TokenError;

verus! {

// ---------------------------------------------------------------------------
// The canonical payload: one JSON object, rendered as ASCII bytes.  String
// content outside the printable ASCII range is written with `\u` escapes, so
// every payload byte is printable ASCII.
// ---------------------------------------------------------------------------

/// The lower-case hexadecimal digit for a nibble.
pub open spec fn hex_digit(n: int) -> u8 {
    if n < 10 {
        (48 + n) as u8
    } else {
        (87 + n) as u8
    }
}

/// A `\uXXXX` escape for a code unit below 0x10000.
pub open spec fn unicode_escape4(v: int) -> Seq<u8> {
    seq![
        92u8,
        117u8,
        hex_digit(v / 4096 % 16),
        hex_digit(v / 256 % 16),
        hex_digit(v / 16 % 16),
        hex_digit(v % 16),
    ]
}

/// How one character of a JSON string is written: printable ASCII stands for
/// itself, quotes and backslashes are escaped, and everything else becomes a
/// `\u` escape (a surrogate pair above 0xFFFF).
pub open spec fn esc_char(c: char) -> Seq<u8> {
    let v = c as u32;
    if c == '"' {
        seq![92u8, 34u8]
    } else if c == '\\' {
        seq![92u8, 92u8]
    } else if 0x20 <= v && v <= 0x7e {
        seq![c as u8]
    } else if v < 0x10000 {
        unicode_escape4(v as int)
    } else {
        unicode_escape4(0xd800 + (v - 0x10000) as int / 1024) + unicode_escape4(
            0xdc00 + (v - 0x10000) as int % 1024,
        )
    }
}

/// The escaped form of a whole string, without the surrounding quotes.
pub open spec fn esc_str(s: Seq<char>) -> Seq<u8>
    decreases s.len(),
{
    if s.len() == 0 {
        Seq::empty()
    } else {
        esc_str(s.drop_last()) + esc_char(s.last())
    }
}

/// A JSON string: the escaped content between two quote bytes.
pub open spec fn quoted(s: Seq<char>) -> Seq<u8> {
    seq![34u8] + esc_str(s) + seq![34u8]
}

/// The ASCII codes of a character sequence, one byte per character.
pub open spec fn ascii_codes(s: Seq<char>) -> Seq<u8> {
    Seq::new(s.len(), |i: int| s[i] as u8)
}

/// The decimal digits of a natural number, most significant first.
pub open spec fn dec_of(n: nat) -> Seq<u8>
    decreases n,
{
    if n < 10 {
        seq![(48 + n) as u8]
    } else {
        dec_of(n / 10) + seq![(48 + n % 10) as u8]
    }
}

/// The decimal rendering of a signed integer.
pub open spec fn int_bytes(i: int) -> Seq<u8> {
    if i >= 0 {
        dec_of(i as nat)
    } else {
        seq![45u8] + dec_of((-i) as nat)
    }
}

// ---------------------------------------------------------------------------
// The JSON number grammar, as a deterministic automaton over the text of a
// numeral: `-?(0|[1-9][0-9]*)(.[0-9]+)?([eE][+-]?[0-9]+)?`.
// States: 0 start, 1 after the minus sign, 2 a leading zero, 3 inside the
// integer part, 4 after the decimal point, 5 inside the fraction, 6 after the
// exponent marker, 7 after the exponent sign, 8 inside the exponent,
// 9 rejected.
// ---------------------------------------------------------------------------

/// One transition of the numeral automaton.
pub open spec fn num_step(st: int, c: char) -> int {
    let v = c as u32;
    if st == 0 {
        if v == 45 {
            1
        } else if v == 48 {
            2
        } else if 49 <= v && v <= 57 {
            3
        } else {
            9
        }
    } else if st == 1 {
        if v == 48 {
            2
        } else if 49 <= v && v <= 57 {
            3
        } else {
            9
        }
    } else if st == 2 {
        if v == 46 {
            4
        } else if v == 101 || v == 69 {
            6
        } else {
            9
        }
    } else if st == 3 {
        if 48 <= v && v <= 57 {
            3
        } else if v == 46 {
            4
        } else if v == 101 || v == 69 {
            6
        } else {
            9
        }
    } else if st == 4 {
        if 48 <= v && v <= 57 {
            5
        } else {
            9
        }
    } else if st == 5 {
        if 48 <= v && v <= 57 {
            5
        } else if v == 101 || v == 69 {
            6
        } else {
            9
        }
    } else if st == 6 {
        if v == 43 || v == 45 {
            7
        } else if 48 <= v && v <= 57 {
            8
        } else {
            9
        }
    } else if st == 7 {
        if 48 <= v && v <= 57 {
            8
        } else {
            9
        }
    } else if st == 8 {
        if 48 <= v && v <= 57 {
            8
        } else {
            9
        }
    } else {
        9
    }
}

/// The automaton's state after reading the first `i` characters.
pub open spec fn num_run(s: Seq<char>, i: int) -> int
    decreases i,
{
    if i <= 0 {
        0
    } else {
        num_step(num_run(s, i - 1), s[i - 1])
    }
}

/// The accepting states of the numeral automaton.
pub open spec fn num_accept(st: int) -> bool {
    st == 2 || st == 3 || st == 5 || st == 8
}

/// Whether a text is a well-formed JSON numeral.
pub open spec fn is_json_number(s: Seq<char>) -> bool {
    num_accept(num_run(s, s.len() as int))
}

/// Every character an accepting run consumes is ASCII: the automaton rejects
/// anything outside the numeral alphabet.
pub proof fn lemma_number_ascii(s: Seq<char>, i: int)
    requires
        0 <= i <= s.len(),
        num_run(s, i) != 9,
    ensures
        forall|j: int| 0 <= j < i ==> (s[j] as u32) < 128,
    decreases i,
{
    if i > 0 {
        assert(num_step(9, s[i - 1]) == 9);
        lemma_number_ascii(s, i - 1);
    }
}

// ---------------------------------------------------------------------------
// Values, entries and the whole object.
// ---------------------------------------------------------------------------

/// The bytes a claim value contributes to the payload.
pub open spec fn val_bytes(v: ClaimValueV) -> Seq<u8> {
    match v {
        ClaimValueV::Str(s) => quoted(s),
        ClaimValueV::Int(i) => int_bytes(i),
        ClaimValueV::Num(t) => ascii_codes(t),
        ClaimValueV::Bool(b) => if b {
            seq![116u8, 114u8, 117u8, 101u8]
        } else {
            seq![102u8, 97u8, 108u8, 115u8, 101u8]
        },
        ClaimValueV::Null => seq![110u8, 117u8, 108u8, 108u8],
    }
}

/// Whether a value can be rendered to JSON: numeral texts must satisfy the
/// JSON number grammar, everything else always renders.
pub open spec fn renderable(v: ClaimValueV) -> bool {
    match v {
        ClaimValueV::Num(t) => is_json_number(t),
        _ => true,
    }
}

/// Whether every entry of a claim sequence can be rendered.
pub open spec fn all_renderable(es: Seq<(Seq<char>, ClaimValueV)>) -> bool {
    forall|i: int| 0 <= i < es.len() ==> renderable(es[i].1)
}

/// One `"key":value` entry.
pub open spec fn entry_bytes(e: (Seq<char>, ClaimValueV)) -> Seq<u8> {
    quoted(e.0) + seq![58u8] + val_bytes(e.1)
}

/// The entries of an object, joined by commas.
pub open spec fn entries_bytes(es: Seq<(Seq<char>, ClaimValueV)>) -> Seq<u8>
    decreases es.len(),
{
    if es.len() == 0 {
        Seq::empty()
    } else if es.len() == 1 {
        entry_bytes(es[0])
    } else {
        entries_bytes(es.drop_last()) + seq![44u8] + entry_bytes(es.last())
    }
}

/// The canonical payload: the entries wrapped in one pair of braces.  Zero
/// entries render as the two bytes of `{}`.
pub open spec fn json_of(es: Seq<(Seq<char>, ClaimValueV)>) -> Seq<u8> {
    seq![123u8] + entries_bytes(es) + seq![125u8]
}

/// The key/value views of a sequence of claims.
pub open spec fn entries_of(s: Seq<Claim>) -> Seq<(Seq<char>, ClaimValueV)> {
    Seq::new(s.len(), |i: int| s[i]@)
}

/// Law: zero claims render as exactly the two bytes of `{}`.
pub proof fn lemma_empty_payload()
    ensures
        json_of(Seq::<(Seq<char>, ClaimValueV)>::empty()) == seq![123u8, 125u8],
{
    assert(json_of(Seq::<(Seq<char>, ClaimValueV)>::empty()) =~= seq![123u8, 125u8]);
}

/// Law: a single claim renders as exactly that claim's key and value, wrapped
/// in one pair of braces.
pub proof fn lemma_single_claim_payload(k: Seq<char>, v: ClaimValueV)
    ensures
        json_of(seq![(k, v)]) == seq![123u8] + (quoted(k) + seq![58u8] + val_bytes(v)) + seq![
            125u8,
        ],
{
    assert(seq![(k, v)][0] == (k, v));
}

// ---------------------------------------------------------------------------
// Executable rendering, proved to produce exactly the bytes above.
// ---------------------------------------------------------------------------

fn push_hex_digit(out: &mut Vec<u8>, n: u32)
    requires
        n < 16,
    ensures
        final(out)@ == old(out)@.push(hex_digit(n as int)),
{
    if n < 10 {
        out.push(48 + n as u8);
    } else {
        out.push(87 + n as u8);
    }
}

fn push_unicode_escape4(out: &mut Vec<u8>, v: u32)
    requires
        v < 0x10000,
    ensures
        final(out)@ == old(out)@ + unicode_escape4(v as int),
{
    out.push(92);
    out.push(117);
    push_hex_digit(out, v / 4096 % 16);
    push_hex_digit(out, v / 256 % 16);
    push_hex_digit(out, v / 16 % 16);
    push_hex_digit(out, v % 16);
    assert(final(out)@ =~= old(out)@ + unicode_escape4(v as int));
}

fn push_esc_char(out: &mut Vec<u8>, c: char)
    ensures
        final(out)@ == old(out)@ + esc_char(c),
{
    let v = c as u32;
    if c == '"' {
        out.push(92);
        out.push(34);
        assert(final(out)@ =~= old(out)@ + esc_char(c));
    } else if c == '\\' {
        out.push(92);
        out.push(92);
        assert(final(out)@ =~= old(out)@ + esc_char(c));
    } else if 0x20 <= v && v <= 0x7e {
        out.push((v as u8));
        assert(final(out)@ =~= old(out)@ + esc_char(c));
    } else if v < 0x10000 {
        push_unicode_escape4(out, v);
    } else {
        let w = v - 0x10000;
        push_unicode_escape4(out, 0xd800 + w / 1024);
        push_unicode_escape4(out, 0xdc00 + w % 1024);
        assert(final(out)@ =~= old(out)@ + esc_char(c));
    }
}

fn push_esc_str(out: &mut Vec<u8>, s: &str)
    ensures
        final(out)@ == old(out)@ + esc_str(s@),
{
    let ghost out0 = out@;
    let n = s.unicode_len();
    let mut i: usize = 0;
    while i < n
        invariant
            n == s@.len(),
            0 <= i <= n,
            out@ == out0 + esc_str(s@.take(i as int)),
        decreases n - i,
    {
        let c = s.get_char(i);
        push_esc_char(out, c);
        proof {
            let t = s@.take(i + 1int);
            assert(t.drop_last() =~= s@.take(i as int));
            assert(t.last() == s@[i as int]);
            assert(out@ =~= out0 + esc_str(t));
        }
        i = i + 1;
    }
    proof {
        assert(s@.take(n as int) =~= s@);
    }
}

fn push_quoted(out: &mut Vec<u8>, s: &str)
    ensures
        final(out)@ == old(out)@ + quoted(s@),
{
    out.push(34);
    push_esc_str(out, s);
    out.push(34);
    assert(final(out)@ =~= old(out)@ + quoted(s@));
}

fn num_step_x(st: u8, c: char) -> (r: u8)
    ensures
        r as int == num_step(st as int, c),
        r <= 9,
{
    let v = c as u32;
    if st == 0 {
        if v == 45 {
            1
        } else if v == 48 {
            2
        } else if 49 <= v && v <= 57 {
            3
        } else {
            9
        }
    } else if st == 1 {
        if v == 48 {
            2
        } else if 49 <= v && v <= 57 {
            3
        } else {
            9
        }
    } else if st == 2 {
        if v == 46 {
            4
        } else if v == 101 || v == 69 {
            6
        } else {
            9
        }
    } else if st == 3 {
        if 48 <= v && v <= 57 {
            3
        } else if v == 46 {
            4
        } else if v == 101 || v == 69 {
            6
        } else {
            9
        }
    } else if st == 4 {
        if 48 <= v && v <= 57 {
            5
        } else {
            9
        }
    } else if st == 5 {
        if 48 <= v && v <= 57 {
            5
        } else if v == 101 || v == 69 {
            6
        } else {
            9
        }
    } else if st == 6 {
        if v == 43 || v == 45 {
            7
        } else if 48 <= v && v <= 57 {
            8
        } else {
            9
        }
    } else if st == 7 {
        if 48 <= v && v <= 57 {
            8
        } else {
            9
        }
    } else if st == 8 {
        if 48 <= v && v <= 57 {
            8
        } else {
            9
        }
    } else {
        9
    }
}

/// Check a numeral text against the JSON number grammar.
pub fn check_json_number(s: &str) -> (r: bool)
    ensures
        r == is_json_number(s@),
{
    let n = s.unicode_len();
    let mut st: u8 = 0;
    let mut i: usize = 0;
    while i < n
        invariant
            n == s@.len(),
            0 <= i <= n,
            st <= 9,
            st as int == num_run(s@, i as int),
        decreases n - i,
    {
        let c = s.get_char(i);
        st = num_step_x(st, c);
        i = i + 1;
    }
    st == 2 || st == 3 || st == 5 || st == 8
}

fn push_number_text(out: &mut Vec<u8>, t: &str)
    requires
        is_json_number(t@),
    ensures
        final(out)@ == old(out)@ + ascii_codes(t@),
{
    proof {
        lemma_number_ascii(t@, t@.len() as int);
    }
    let ghost out0 = out@;
    let n = t.unicode_len();
    let mut i: usize = 0;
    while i < n
        invariant
            n == t@.len(),
            0 <= i <= n,
            forall|j: int| 0 <= j < n ==> (t@[j] as u32) < 128,
            out@ == out0 + ascii_codes(t@).take(i as int),
        decreases n - i,
    {
        let c = t.get_char(i);
        let v = c as u32;
        out.push(v as u8);
        proof {
            assert(ascii_codes(t@)[i as int] == t@[i as int] as u8);
            assert(out@ =~= out0 + ascii_codes(t@).take(i + 1int));
        }
        i = i + 1;
    }
    proof {
        assert(ascii_codes(t@).take(n as int) =~= ascii_codes(t@));
    }
}

fn push_dec_u64(out: &mut Vec<u8>, n: u64)
    ensures
        final(out)@ == old(out)@ + dec_of(n as nat),
{
    let mut tmp: Vec<u8> = Vec::new();
    let mut m: u64 = n;
    while m >= 10
        invariant
            dec_of(n as nat) =~= dec_of(m as nat) + tmp@.reverse(),
        decreases m,
    {
        let d: u8 = (m % 10) as u8;
        tmp.push(48 + d);
        proof {
            assert(tmp@.reverse() =~= seq![(48 + (m as nat) % 10) as u8] + tmp@.drop_last().reverse());
            assert(dec_of(m as nat) == dec_of((m as nat) / 10) + seq![(48 + (m as nat) % 10) as u8]);
            assert(dec_of(n as nat) =~= dec_of(((m / 10) as u64) as nat) + tmp@.reverse());
        }
        m = m / 10;
    }
    let d: u8 = m as u8;
    tmp.push(48 + d);
    proof {
        assert(dec_of(m as nat) == seq![(48 + m as nat) as u8]);
        assert(tmp@.reverse() =~= seq![(48 + m as nat) as u8] + tmp@.drop_last().reverse());
        assert(dec_of(n as nat) =~= tmp@.reverse());
    }
    let ghost out0 = out@;
    let k = tmp.len();
    let mut i: usize = 0;
    while i < k
        invariant
            k == tmp@.len(),
            0 <= i <= k,
            out@ == out0 + tmp@.reverse().take(i as int),
        decreases k - i,
    {
        let b = tmp[k - 1 - i];
        out.push(b);
        proof {
            assert(tmp@.reverse()[i as int] == tmp@[k - 1 - i as int]);
            assert(out@ =~= out0 + tmp@.reverse().take(i + 1int));
        }
        i = i + 1;
    }
    proof {
        assert(tmp@.reverse().take(k as int) =~= tmp@.reverse());
        assert(out@ =~= out0 + dec_of(n as nat));
    }
}

fn push_int(out: &mut Vec<u8>, i: i64)
    ensures
        final(out)@ == old(out)@ + int_bytes(i as int),
{
    if i >= 0 {
        push_dec_u64(out, i as u64);
    } else {
        out.push(45);
        let mag: u64 = ((-(i + 1)) as u64) + 1;
        assert(mag as nat == (-(i as int)) as nat);
        push_dec_u64(out, mag);
        assert(final(out)@ =~= old(out)@ + int_bytes(i as int));
    }
}

/// Append a claim value's rendering; reports whether the value is renderable
/// at all.  On a refused value the buffer is left unchanged.
fn push_value(out: &mut Vec<u8>, v: &ClaimValue) -> (ok: bool)
    ensures
        ok == renderable(v@),
        ok ==> final(out)@ == old(out)@ + val_bytes(v@),
        !ok ==> final(out)@ == old(out)@,
{
    match v {
        ClaimValue::Str(s) => {
            push_quoted(out, s.as_str());
            true
        },
        ClaimValue::Int(i) => {
            push_int(out, *i);
            true
        },
        ClaimValue::Num(t) => {
            if check_json_number(t.as_str()) {
                push_number_text(out, t.as_str());
                true
            } else {
                false
            }
        },
        ClaimValue::Bool(b) => {
            if *b {
                out.push(116);
                out.push(114);
                out.push(117);
                out.push(101);
            } else {
                out.push(102);
                out.push(97);
                out.push(108);
                out.push(115);
                out.push(101);
            }
            assert(final(out)@ =~= old(out)@ + val_bytes(v@));
            true
        },
        ClaimValue::Null => {
            out.push(110);
            out.push(117);
            out.push(108);
            out.push(108);
            assert(final(out)@ =~= old(out)@ + val_bytes(v@));
            true
        },
    }
}

/// Merge a collection of claims into the canonical JSON object.  Fails, and
/// touches no codec, exactly when some claim cannot be rendered.
pub fn render_payload(claims: &Vec<Claim>) -> (r: Result<Vec<u8>, TokenError>)
    ensures
        r matches Ok(b) ==> all_renderable(entries_of(claims@)) && b@ == json_of(
            entries_of(claims@),
        ),
        r matches Err(e) ==> e == TokenError::ClaimSerialization && !all_renderable(
            entries_of(claims@),
        ),
{
    let ghost es = entries_of(claims@);
    let mut out: Vec<u8> = Vec::new();
    out.push(123);
    let mut i: usize = 0;
    while i < claims.len()
        invariant
            es == entries_of(claims@),
            0 <= i <= claims@.len(),
            es.len() == claims@.len(),
            all_renderable(es.take(i as int)),
            out@ == seq![123u8] + entries_bytes(es.take(i as int)),
        decreases claims@.len() - i,
    {
        if i > 0 {
            out.push(44);
        }
        push_quoted(&mut out, claims[i].get_key().as_str());
        out.push(58);
        let ok = push_value(&mut out, claims[i].get_value());
        if !ok {
            proof {
                assert(!renderable(es[i as int].1));
                assert(!all_renderable(es));
            }
            return Err(TokenError::ClaimSerialization);
        }
        proof {
            let t = es.take(i + 1int);
            assert(t.drop_last() =~= es.take(i as int));
            assert(t.last() == es[i as int]);
            if i == 0 {
                assert(entries_bytes(t) == entry_bytes(es[0]));
            } else {
                assert(entries_bytes(t) == entries_bytes(es.take(i as int)) + seq![44u8]
                    + entry_bytes(es[i as int]));
            }
            assert(out@ =~= seq![123u8] + entries_bytes(t));
            assert(all_renderable(t));
        }
        i = i + 1;
    }
    out.push(125);
    proof {
        assert(es.take(claims@.len() as int) =~= es);
        assert(out@ =~= json_of(es));
    }
    Ok(out)
}

} // verus!
