//! Small string-building helpers used for messages and token values.

use vstd::prelude::*;

verus! {

/// Relies on String::push: appends exactly one character.
#[verifier::external_body]
pub fn push_char(s: &mut String, c: char)
    ensures
        final(s)@ == old(s)@.push(c),
{
    s.push(c)
}

/// Relies on String::from_utf8: succeeds exactly on valid UTF-8 input and
/// yields its decoding, so a string's own byte encoding always comes back.
#[verifier::external_body]
pub fn string_from_utf8(v: Vec<u8>) -> (r: Option<String>)
    ensures
        r matches Some(s) ==> v@ == vstd::utf8::encode_utf8(s@),
        r is None ==> !vstd::utf8::valid_utf8(v@),
{
    String::from_utf8(v).ok()
}

/// Build a string out of a sequence of characters.
pub fn string_of_chars(v: &Vec<char>) -> (r: String)
    ensures
        r@ == v@,
{
    let mut out = String::new();
    let mut i: usize = 0;
    while i < v.len()
        invariant
            i <= v@.len(),
            out@ == v@.subrange(0, i as int),
        decreases v@.len() - i,
    {
        push_char(&mut out, v[i]);
        i = i + 1;
        proof {
            assert(out@ =~= v@.subrange(0, i as int));
        }
    }
    proof {
        assert(out@ =~= v@);
    }
    out
}

/// Character-level equality of two string slices.
pub fn str_eq(a: &str, b: &str) -> (r: bool)
    ensures
        r == (a@ == b@),
{
    let alen = a.unicode_len();
    let blen = b.unicode_len();
    if alen != blen {
        return false;
    }
    let mut i: usize = 0;
    while i < alen
        invariant
            alen == a@.len(),
            blen == b@.len(),
            alen == blen,
            i <= alen,
            forall|j: int| 0 <= j < i ==> a@[j] == b@[j],
        decreases alen - i,
    {
        if a.get_char(i) != b.get_char(i) {
            return false;
        }
        i = i + 1;
    }
    proof {
        assert(a@ =~= b@);
    }
    true
}

/// The character of one decimal digit.
pub open spec fn digit_char(d: int) -> char
    recommends
        0 <= d < 10,
{
    ((d + 0x30) as u8) as char
}

/// The decimal digits of an unsigned number, most significant first.
pub open spec fn spec_u64_digits(n: u64) -> Seq<char>
    decreases n,
{
    if n < 10 {
        seq![digit_char(n as int)]
    } else {
        spec_u64_digits((n / 10) as u64).push(digit_char((n % 10) as int))
    }
}

/// The decimal text of a signed number: a minus sign before the digits of
/// the magnitude when negative.
pub open spec fn spec_i64_text(i: i64) -> Seq<char> {
    if i >= 0 {
        spec_u64_digits(i as u64)
    } else {
        seq!['-'] + spec_u64_digits((-(i as int)) as u64)
    }
}

/// Decimal text of an unsigned 64-bit number.
pub fn u64_text(n: u64) -> (r: String)
    ensures
        r@ == spec_u64_digits(n),
    decreases n,
{
    let d: u8 = (n % 10) as u8 + 0x30;
    if n < 10 {
        let mut s = String::new();
        push_char(&mut s, d as char);
        proof {
            assert(s@ =~= spec_u64_digits(n));
        }
        s
    } else {
        let mut s = u64_text(n / 10);
        push_char(&mut s, d as char);
        proof {
            assert(s@ =~= spec_u64_digits(n));
        }
        s
    }
}

/// Decimal text of a signed 64-bit number.
pub fn i64_text(i: i64) -> (r: String)
    ensures
        r@ == spec_i64_text(i),
{
    if i >= 0 {
        u64_text(i as u64)
    } else {
        let wide: i128 = 0i128 - (i as i128);
        let mag: u64 = wide as u64;
        let mut out = String::new();
        push_char(&mut out, '-');
        out.append(u64_text(mag).as_str());
        proof {
            assert(out@ =~= spec_i64_text(i));
        }
        out
    }
}

/// Decimal text of a usize.
pub fn usize_text(n: usize) -> (r: String)
    ensures
        r@ == spec_u64_digits(n as u64),
{
    u64_text(n as u64)
}

} // verus!
