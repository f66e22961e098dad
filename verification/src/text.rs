//! Byte- and character-level text utilities shared by the decoders: ASCII
//! bridging between `&str` literals and the raw bytes of the XML stream,
//! and strict decimal parsing and formatting.

use vstd::prelude::*;

use crate::codec::{all_digits, digits_value};

verus! {

/// Every byte is ASCII.
pub open spec fn all_ascii(s: Seq<u8>) -> bool {
    forall|i: int| 0 <= i < s.len() ==> #[trigger] s[i] < 128
}

/// The bytes of an ASCII character sequence.
pub open spec fn ascii_of(s: Seq<char>) -> Seq<u8> {
    Seq::new(s.len(), |i: int| s[i] as u8)
}

/// The characters of an ASCII byte sequence.
pub open spec fn chars_of(s: Seq<u8>) -> Seq<char> {
    Seq::new(s.len(), |i: int| s[i] as char)
}

/// A byte sequence spells a given ASCII tag.
pub open spec fn is_tag(v: Seq<u8>, tag: Seq<char>) -> bool {
    vstd::utf8::is_ascii_chars(tag) && v == ascii_of(tag)
}

/// Element-wise byte slice equality.
pub fn bytes_eq(a: &[u8], b: &[u8]) -> (result: bool)
    ensures
        result == (a@ == b@),
{
    let n = a.len();
    if n != b.len() {
        proof {
            assert(a@.len() != b@.len());
        }
        return false;
    }
    let mut i: usize = 0;
    while i < n
        invariant
            n == a@.len() == b@.len(),
            0 <= i <= n,
            forall|j: int| 0 <= j < i ==> a@[j] == b@[j],
        decreases n - i,
    {
        if a[i] != b[i] {
            return false;
        }
        i = i + 1;
    }
    proof {
        assert(a@ =~= b@);
    }
    true
}

/// Whether raw bytes spell the given ASCII tag.
pub fn tag_matches(v: &[u8], tag: &str) -> (result: bool)
    ensures
        result == is_tag(v@, tag@),
{
    broadcast use vstd::string::is_ascii_spec_bytes;

    if !tag.is_ascii() {
        return false;
    }
    let tb = tag.as_bytes();
    proof {
        assert(tb@ =~= ascii_of(tag@));
    }
    bytes_eq(v, tb)
}

/// The characters that lossy UTF-8 decoding gives a byte sequence.  It
/// depends on the bytes alone; what it is on given bytes is stated only
/// for ASCII, where each byte decodes to the character with its code.
pub uninterp spec fn decoded_of(s: Seq<u8>) -> Seq<char>;

/// Relies on `String::from_utf8_lossy`: the decoding is a function of the
/// bytes alone, and ASCII bytes decode to exactly the characters with
/// their codes.
#[verifier::external_body]
pub fn bytes_to_string(bytes: &[u8]) -> (result: String)
    ensures
        result@ == decoded_of(bytes@),
        all_ascii(bytes@) ==> result@ == chars_of(bytes@),
{
    String::from_utf8_lossy(bytes).into_owned()
}

/// The `u32` a strict decimal byte run denotes, if it is one.
pub open spec fn parsed_u32(s: Seq<u8>) -> Option<u32> {
    if s.len() > 0 && all_digits(s) && digits_value(s) <= u32::MAX {
        Some(digits_value(s) as u32)
    } else {
        None
    }
}

/// Strict decimal parsing of raw bytes: every byte must be a digit, the
/// run must be non-empty and the value must fit a `u32`.
pub fn parse_u32_bytes(s: &[u8]) -> (result: Option<u32>)
    ensures
        result == parsed_u32(s@),
{
    let n = s.len();
    if n == 0 {
        return None;
    }
    let mut value: u64 = 0;
    let mut i: usize = 0;
    while i < n
        invariant
            n == s@.len(),
            0 <= i <= n,
            forall|j: int| 0 <= j < i ==> crate::codec::is_digit(#[trigger] s@[j]),
            value == digits_value(s@.subrange(0, i as int)),
            value <= u32::MAX,
        decreases n - i,
    {
        let b = s[i];
        if b < 48 || 57 < b {
            return None;
        }
        proof {
            assert(s@.subrange(0, i + 1).drop_last() =~= s@.subrange(0, i as int));
        }
        let next: u64 = value * 10 + (b - 48) as u64;
        if next > u32::MAX as u64 {
            proof {
                assert(s@.take(i + 1) =~= s@.subrange(0, i + 1));
                if all_digits(s@) {
                    crate::codec::lemma_digits_prefix_bound(s@, i + 1);
                }
            }
            return None;
        }
        value = next;
        i = i + 1;
    }
    proof {
        assert(s@.subrange(0, n as int) =~= s@);
    }
    Some(value as u32)
}

/// A character is a decimal digit.
pub open spec fn is_digit_char(c: char) -> bool {
    '0' <= c && c <= '9'
}

pub open spec fn all_digit_chars(s: Seq<char>) -> bool {
    forall|i: int| 0 <= i < s.len() ==> is_digit_char(#[trigger] s[i])
}

/// The decimal value of a character digit run, folded left to right.
pub open spec fn digits_value_chars(s: Seq<char>) -> int
    decreases s.len(),
{
    if s.len() == 0 {
        0
    } else {
        digits_value_chars(s.drop_last()) * 10 + (s.last() as int - 48)
    }
}

/// Once a prefix of a digit run exceeds a bound, so does the whole run.
proof fn lemma_char_digits_over_u32(s: Seq<char>, i: int)
    requires
        0 <= i <= s.len(),
        all_digit_chars(s),
        digits_value_chars(s.take(i)) > u32::MAX,
    ensures
        digits_value_chars(s) > u32::MAX,
    decreases s.len() - i,
{
    if i == s.len() {
        assert(s.take(i) =~= s);
    } else {
        assert(s.take(i + 1).drop_last() =~= s.take(i));
        assert(digits_value_chars(s.take(i + 1)) == digits_value_chars(s.take(i)) * 10 + (s[i] as int
            - 48));
        assert(digits_value_chars(s.take(i)) * 10 >= digits_value_chars(s.take(i)))
            by (nonlinear_arith)
            requires
                digits_value_chars(s.take(i)) > 0,
        ;
        lemma_char_digits_over_u32(s, i + 1);
    }
}

/// The `u32` a strict decimal character run denotes, if it is one.
pub open spec fn parsed_u32_chars(s: Seq<char>) -> Option<u32> {
    if s.len() > 0 && all_digit_chars(s) && digits_value_chars(s) <= u32::MAX {
        Some(digits_value_chars(s) as u32)
    } else {
        None
    }
}

/// Strict decimal parsing of character data, as [`parse_u32_bytes`].
pub fn parse_u32_chars(s: &str) -> (result: Option<u32>)
    ensures
        result == parsed_u32_chars(s@),
{
    let n = s.unicode_len();
    if n == 0 {
        return None;
    }
    let mut value: u64 = 0;
    let mut i: usize = 0;
    while i < n
        invariant
            n == s@.len(),
            0 <= i <= n,
            forall|j: int| 0 <= j < i ==> is_digit_char(#[trigger] s@[j]),
            value == digits_value_chars(s@.subrange(0, i as int)),
            value <= u32::MAX,
        decreases n - i,
    {
        let c = s.get_char(i);
        if c < '0' || '9' < c {
            return None;
        }
        proof {
            assert(s@.subrange(0, i + 1).drop_last() =~= s@.subrange(0, i as int));
        }
        let next: u64 = value * 10 + (c as u64 - 48);
        if next > u32::MAX as u64 {
            proof {
                assert(s@.take(i + 1) =~= s@.subrange(0, i + 1));
                if all_digit_chars(s@) {
                    lemma_char_digits_over_u32(s@, i + 1);
                }
            }
            return None;
        }
        value = next;
        i = i + 1;
    }
    proof {
        assert(s@.subrange(0, n as int) =~= s@);
    }
    Some(value as u32)
}

/// The decimal digit bytes of `n`, with `0` spelled as one digit.
pub open spec fn dec_text(n: int) -> Seq<u8> {
    if n == 0 {
        seq![48u8]
    } else {
        crate::codec::decimal_digits(n)
    }
}

/// The digit bytes of an integer, a `-` sign ahead of a negative one.
pub open spec fn dec_text_signed(n: int) -> Seq<u8> {
    if n < 0 {
        seq![45u8] + dec_text(-n)
    } else {
        dec_text(n)
    }
}

/// Formats `n` as its decimal digit bytes.
pub fn decimal_bytes(n: u64) -> (result: Vec<u8>)
    ensures
        result@ == dec_text(n as int),
{
    let mut out: Vec<u8> = Vec::new();
    if n == 0 {
        out.push(48u8);
        proof {
            assert(out@ =~= dec_text(0));
        }
        return out;
    }
    let mut rev: Vec<u8> = Vec::new();
    let mut m: u64 = n;
    while m > 0
        invariant
            crate::codec::decimal_digits(n as int) =~= crate::codec::decimal_digits(m as int)
                + rev@.reverse(),
        decreases m,
    {
        let digit: u8 = 48 + (m % 10) as u8;
        proof {
            assert(crate::codec::decimal_digits(m as int) == crate::codec::decimal_digits(
                m as int / 10,
            ) + seq![(48 + m as int % 10) as u8]);
            assert(seq![digit] + rev@.reverse() =~= rev@.push(digit).reverse());
        }
        rev.push(digit);
        m = m / 10;
    }
    let mut i: usize = rev.len();
    while i > 0
        invariant
            i <= rev@.len(),
            out@ =~= rev@.reverse().take(rev@.len() - i),
        decreases i,
    {
        i = i - 1;
        out.push(rev[i]);
        proof {
            assert(out@ =~= rev@.reverse().take(rev@.len() - i));
        }
    }
    proof {
        assert(out@ =~= rev@.reverse());
        assert(crate::codec::decimal_digits(m as int) =~= Seq::<u8>::empty());
        assert(out@ =~= dec_text(n as int));
    }
    out
}


/// Character-wise string equality.
pub fn str_eq(a: &str, b: &str) -> (result: bool)
    ensures
        result == (a@ == b@),
{
    let n = a.unicode_len();
    if n != b.unicode_len() {
        proof {
            assert(a@.len() != b@.len());
        }
        return false;
    }
    let mut i: usize = 0;
    while i < n
        invariant
            n == a@.len() == b@.len(),
            0 <= i <= n,
            forall|j: int| 0 <= j < i ==> a@[j] == b@[j],
        decreases n - i,
    {
        if a.get_char(i) != b.get_char(i) {
            return false;
        }
        i = i + 1;
    }
    proof {
        assert(a@ =~= b@);
    }
    true
}

/// The decimal digit bytes of a number are ASCII.
pub proof fn lemma_dec_text_ascii(n: int)
    requires
        n >= 0,
    ensures
        all_ascii(dec_text(n)),
{
    if n == 0 {
    } else {
        crate::codec::lemma_decimal_digits_value(n);
        assert forall|i: int| 0 <= i < dec_text(n).len() implies #[trigger] dec_text(n)[i]
            < 128 by {
            assert(crate::codec::is_digit(crate::codec::decimal_digits(n)[i]));
        }
    }
}


/// Formats a signed number as its decimal digit bytes.
pub fn decimal_bytes_signed(n: i64) -> (result: Vec<u8>)
    ensures
        result@ == dec_text_signed(n as int),
{
    if n >= 0 {
        let r = decimal_bytes(n as u64);
        r
    } else {
        let magnitude: u64 = ((-(n + 1)) as u64) + 1;
        proof {
            assert(magnitude as int == -(n as int));
        }
        let mut out: Vec<u8> = Vec::new();
        out.push(45u8);
        let mut digits = decimal_bytes(magnitude);
        out.append(&mut digits);
        proof {
            assert(out@ =~= dec_text_signed(n as int));
        }
        out
    }
}

/// The digit bytes of a signed number are ASCII.
pub proof fn lemma_dec_text_signed_ascii(n: int)
    ensures
        all_ascii(dec_text_signed(n)),
{
    if n < 0 {
        lemma_dec_text_ascii(-n);
        assert forall|i: int| 0 <= i < dec_text_signed(n).len() implies #[trigger] dec_text_signed(
            n,
        )[i] < 128 by {
            if i > 0 {
                assert(dec_text_signed(n)[i] == dec_text(-n)[i - 1]);
            }
        }
    } else {
        lemma_dec_text_ascii(n);
    }
}

} // verus!
