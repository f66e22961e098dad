//! Cell reference codec: conversion between the letter+digit reference
//! scheme ("A1", "AA10") and zero-based `(column, row)` coordinates.
//!
//! Column letters form a base-26 numeral system with no zero digit
//! (A=1 ... Z=26, AA=27, ...); the digits are the 1-based row number.

use vstd::prelude::*;

verus! {

/// An ASCII upper-case letter `A`..`Z`.
pub open spec fn is_upper(b: u8) -> bool {
    65 <= b <= 90
}

/// An ASCII decimal digit `0`..`9`.
pub open spec fn is_digit(b: u8) -> bool {
    48 <= b <= 57
}

pub open spec fn all_upper(s: Seq<u8>) -> bool {
    forall|i: int| 0 <= i < s.len() ==> is_upper(#[trigger] s[i])
}

pub open spec fn all_digits(s: Seq<u8>) -> bool {
    forall|i: int| 0 <= i < s.len() ==> is_digit(#[trigger] s[i])
}

/// The 1-based column number denoted by a run of letters, folded left to
/// right: `value = value * 26 + (letter - 'A' + 1)`.
pub open spec fn letters_value(s: Seq<u8>) -> int
    decreases s.len(),
{
    if s.len() == 0 {
        0
    } else {
        letters_value(s.drop_last()) * 26 + (s.last() - 64)
    }
}

/// The decimal number denoted by a run of digits, folded left to right.
pub open spec fn digits_value(s: Seq<u8>) -> int
    decreases s.len(),
{
    if s.len() == 0 {
        0
    } else {
        digits_value(s.drop_last()) * 10 + (s.last() - 48)
    }
}

/// Length of the maximal leading run of upper-case letters.
pub open spec fn upper_run_len(s: Seq<u8>) -> int
    decreases s.len(),
{
    if s.len() == 0 || !is_upper(s[0]) {
        0
    } else {
        1 + upper_run_len(s.drop_first())
    }
}

/// A well-formed cell reference: a non-empty run of letters followed by a
/// non-empty run of digits, both small enough for their value (1-based) to
/// fit a `u32`, with a row of at least 1.
pub open spec fn valid_reference(s: Seq<u8>) -> bool {
    let k = upper_run_len(s);
    &&& 1 <= k < s.len()
    &&& all_digits(s.skip(k))
    &&& letters_value(s.take(k)) <= u32::MAX
    &&& 1 <= digits_value(s.skip(k)) <= u32::MAX
}

/// The column letters for the 1-based column number `c1`, most significant
/// letter first; empty when `c1 <= 0`.
pub open spec fn column_letters(c1: int) -> Seq<u8>
    decreases c1,
{
    if c1 <= 0 {
        Seq::empty()
    } else {
        column_letters((c1 - 1) / 26) + seq![(65 + (c1 - 1) % 26) as u8]
    }
}

/// The decimal digits of `n`, most significant first; empty when `n <= 0`.
pub open spec fn decimal_digits(n: int) -> Seq<u8>
    decreases n,
{
    if n <= 0 {
        Seq::empty()
    } else {
        decimal_digits(n / 10) + seq![(48 + n % 10) as u8]
    }
}

/// The textual reference of the zero-based coordinate pair.
pub open spec fn spec_reference(column: u32, row: u32) -> Seq<u8> {
    column_letters(column + 1) + decimal_digits(row + 1)
}

/// The zero-based coordinates a well-formed reference denotes, if it is
/// one.
pub open spec fn parsed_reference(s: Seq<u8>) -> Option<(u32, u32)> {
    if valid_reference(s) {
        let k = upper_run_len(s);
        Some(((letters_value(s.take(k)) - 1) as u32, (digits_value(s.skip(k)) - 1) as u32))
    } else {
        None
    }
}

/// Decodes a reference such as `b"B2"` to zero-based `(column, row)`.
///
/// Returns `None` exactly when the input is not a non-empty run of `A`..`Z`
/// followed by a non-empty run of digits, or when either the 1-based column
/// or row value is 0 or does not fit a `u32`.
pub fn reference_to_coordinates(text: &[u8]) -> (result: Option<(u32, u32)>)
    ensures
        result == parsed_reference(text@),
{
    let n = text.len();
    let mut k: usize = 0;
    while k < n && 65 <= text[k] && text[k] <= 90
        invariant
            n == text@.len(),
            0 <= k <= n,
            all_upper(text@.take(k as int)),
            forall|j: int| 0 <= j < k ==> is_upper(#[trigger] text@[j]),
        decreases n - k,
    {
        k = k + 1;
    }
    proof {
        lemma_upper_run(text@, k as int);
    }
    if k == 0 || k == n {
        return None;
    }
    // 1-based column value, with an early exit once it can no longer fit.
    let mut col: u64 = 0;
    let mut i: usize = 0;
    while i < k
        invariant
            n == text@.len(),
            0 < k < n,
            0 <= i <= k,
            upper_run_len(text@) == k as int,
            forall|j: int| 0 <= j < k ==> is_upper(#[trigger] text@[j]),
            col == letters_value(text@.subrange(0, i as int)),
            col <= u32::MAX,
            i >= 1 ==> col >= 1,
        decreases k - i,
    {
        proof {
            assert(text@.subrange(0, i + 1).drop_last() =~= text@.subrange(0, i as int));
        }
        let next: u64 = col * 26 + (text[i] - 64) as u64;
        if next > u32::MAX as u64 {
            proof {
                assert(text@.take(k as int).take(i + 1) =~= text@.subrange(0, i + 1));
                lemma_letters_prefix_bound(text@.take(k as int), i + 1);
            }
            return None;
        }
        col = next;
        i = i + 1;
    }
    proof {
        assert(text@.subrange(0, k as int) =~= text@.take(k as int));
    }
    // 1-based row value, same early exit.
    let mut row: u64 = 0;
    let mut i: usize = k;
    while i < n
        invariant
            n == text@.len(),
            0 < k < n,
            k <= i <= n,
            upper_run_len(text@) == k as int,
            forall|j: int| k <= j < i ==> is_digit(#[trigger] text@[j]),
            row == digits_value(text@.subrange(k as int, i as int)),
            row <= u32::MAX,
        decreases n - i,
    {
        let b = text[i];
        if b < 48 || 57 < b {
            proof {
                assert(text@.skip(k as int)[i - k] == text@[i as int]);
                assert(!all_digits(text@.skip(k as int)));
            }
            return None;
        }
        proof {
            assert(text@.subrange(k as int, i + 1).drop_last() =~= text@.subrange(
                k as int,
                i as int,
            ));
        }
        let next: u64 = row * 10 + (b - 48) as u64;
        if next > u32::MAX as u64 {
            proof {
                assert(text@.skip(k as int).take(i + 1 - k) =~= text@.subrange(k as int, i + 1));
                if all_digits(text@.skip(k as int)) {
                    lemma_digits_prefix_bound(text@.skip(k as int), i + 1 - k);
                }
            }
            return None;
        }
        row = next;
        i = i + 1;
    }
    proof {
        assert(text@.subrange(k as int, n as int) =~= text@.skip(k as int));
    }
    if row == 0 {
        return None;
    }
    Some(((col - 1) as u32, (row - 1) as u32))
}

/// Encodes zero-based `(column, row)` as a textual reference, the inverse
/// of [`reference_to_coordinates`].
pub fn coordinates_to_reference(column: u32, row: u32) -> (result: Vec<u8>)
    ensures
        result@ == spec_reference(column, row),
{
    let mut out: Vec<u8> = Vec::new();
    let mut rev: Vec<u8> = Vec::new();
    let mut c1: u64 = column as u64 + 1;
    while c1 > 0
        invariant
            c1 <= u32::MAX as u64 + 1,
            column_letters(column as int + 1) =~= column_letters(c1 as int) + rev@.reverse(),
        decreases c1,
    {
        let letter: u8 = 65 + ((c1 - 1) % 26) as u8;
        proof {
            assert(column_letters(c1 as int) == column_letters((c1 as int - 1) / 26) + seq![
                (65 + (c1 as int - 1) % 26) as u8,
            ]);
            assert(seq![letter] + rev@.reverse() =~= rev@.push(letter).reverse());
        }
        rev.push(letter);
        c1 = (c1 - 1) / 26;
    }
    let mut i: usize = rev.len();
    while i > 0
        invariant
            i <= rev@.len(),
            out@ =~= rev@.reverse().take(rev@.len() - i),
        decreases i,
    {
        i = i - 1;
        out.push(rev[i]);
        proof {
            assert(out@ =~= rev@.reverse().take(rev@.len() - i));
        }
    }
    proof {
        assert(out@ =~= rev@.reverse());
        assert(column_letters(c1 as int) =~= Seq::<u8>::empty());
        assert(out@ =~= column_letters(column as int + 1));
    }
    let mut rev2: Vec<u8> = Vec::new();
    let mut r1: u64 = row as u64 + 1;
    while r1 > 0
        invariant
            r1 <= u32::MAX as u64 + 1,
            decimal_digits(row as int + 1) =~= decimal_digits(r1 as int) + rev2@.reverse(),
        decreases r1,
    {
        let digit: u8 = 48 + (r1 % 10) as u8;
        proof {
            assert(decimal_digits(r1 as int) == decimal_digits(r1 as int / 10) + seq![
                (48 + r1 as int % 10) as u8,
            ]);
            assert(seq![digit] + rev2@.reverse() =~= rev2@.push(digit).reverse());
        }
        rev2.push(digit);
        r1 = r1 / 10;
    }
    let ghost letters = out@;
    let mut i: usize = rev2.len();
    while i > 0
        invariant
            i <= rev2@.len(),
            out@ =~= letters + rev2@.reverse().take(rev2@.len() - i),
        decreases i,
    {
        i = i - 1;
        out.push(rev2[i]);
        proof {
            assert(out@ =~= letters + rev2@.reverse().take(rev2@.len() - i));
        }
    }
    proof {
        assert(out@ =~= letters + rev2@.reverse());
        assert(decimal_digits(r1 as int) =~= Seq::<u8>::empty());
        assert(out@ =~= spec_reference(column, row));
    }
    out
}

/// `upper_run_len` is exactly the first index that fails `is_upper` (or the
/// length when none does).
proof fn lemma_upper_run(s: Seq<u8>, k: int)
    requires
        0 <= k <= s.len(),
        forall|j: int| 0 <= j < k ==> is_upper(#[trigger] s[j]),
        k < s.len() ==> !is_upper(s[k]),
    ensures
        upper_run_len(s) == k,
    decreases s.len(),
{
    if k == 0 {
    } else {
        assert(is_upper(s[0]));
        lemma_upper_run(s.drop_first(), k - 1);
    }
}

/// Once a prefix of the letter run exceeds a bound, so does the whole run.
proof fn lemma_letters_prefix_bound(s: Seq<u8>, i: int)
    requires
        0 <= i <= s.len(),
        all_upper(s),
        letters_value(s.take(i)) > u32::MAX,
    ensures
        letters_value(s) > u32::MAX,
    decreases s.len() - i,
{
    if i == s.len() {
        assert(s.take(i) =~= s);
    } else {
        assert(s.take(i + 1).drop_last() =~= s.take(i));
        assert(letters_value(s.take(i + 1)) == letters_value(s.take(i)) * 26 + (s[i] - 64));
        assert(letters_value(s.take(i)) * 26 >= letters_value(s.take(i))) by (nonlinear_arith)
            requires
                letters_value(s.take(i)) > 0,
        ;
        lemma_letters_prefix_bound(s, i + 1);
    }
}

/// Once a prefix of the digit run exceeds a bound, so does the whole run.
pub proof fn lemma_digits_prefix_bound(s: Seq<u8>, i: int)
    requires
        0 <= i <= s.len(),
        all_digits(s),
        digits_value(s.take(i)) > u32::MAX,
    ensures
        digits_value(s) > u32::MAX,
    decreases s.len() - i,
{
    if i == s.len() {
        assert(s.take(i) =~= s);
    } else {
        assert(s.take(i + 1).drop_last() =~= s.take(i));
        assert(digits_value(s.take(i + 1)) == digits_value(s.take(i)) * 10 + (s[i] - 48));
        assert(digits_value(s.take(i)) * 10 >= digits_value(s.take(i))) by (nonlinear_arith)
            requires
                digits_value(s.take(i)) > 0,
        ;
        lemma_digits_prefix_bound(s, i + 1);
    }
}

/// The letters of a positive 1-based column number are a non-empty
/// upper-case run whose value is that number.
pub proof fn lemma_column_letters_value(c1: int)
    requires
        c1 >= 1,
    ensures
        column_letters(c1).len() >= 1,
        all_upper(column_letters(c1)),
        letters_value(column_letters(c1)) == c1,
    decreases c1,
{
    vstd::arithmetic::div_mod::lemma_fundamental_div_mod(c1 - 1, 26);
    let q = (c1 - 1) / 26;
    let rest = column_letters(q);
    let last = (65 + (c1 - 1) % 26) as u8;
    assert((column_letters(c1)).drop_last() =~= rest);
    assert(column_letters(c1).last() == last);
    if q >= 1 {
        lemma_column_letters_value(q);
    } else {
        assert(column_letters(q) =~= Seq::<u8>::empty());
    }
    assert(letters_value(column_letters(c1)) == letters_value(rest) * 26 + (last - 64));
}

/// The digits of a positive number are a non-empty digit run whose value is
/// that number.
pub proof fn lemma_decimal_digits_value(n: int)
    requires
        n >= 1,
    ensures
        decimal_digits(n).len() >= 1,
        all_digits(decimal_digits(n)),
        digits_value(decimal_digits(n)) == n,
    decreases n,
{
    vstd::arithmetic::div_mod::lemma_fundamental_div_mod(n, 10);
    let q = n / 10;
    let rest = decimal_digits(q);
    let last = (48 + n % 10) as u8;
    assert((decimal_digits(n)).drop_last() =~= rest);
    assert(decimal_digits(n).last() == last);
    if q >= 1 {
        lemma_decimal_digits_value(q);
    } else {
        assert(decimal_digits(q) =~= Seq::<u8>::empty());
    }
    assert(digits_value(decimal_digits(n)) == digits_value(rest) * 10 + (last - 48));
}

/// The upper run of a letter run followed by a non-letter byte stops at the
/// boundary.
proof fn lemma_upper_run_of_concat(l: Seq<u8>, d: Seq<u8>)
    requires
        all_upper(l),
        d.len() >= 1,
        !is_upper(d[0]),
    ensures
        upper_run_len(l + d) == l.len(),
{
    assert forall|j: int| 0 <= j < l.len() implies is_upper(#[trigger] (l + d)[j]) by {
        assert((l + d)[j] == l[j]);
    }
    assert(!is_upper((l + d)[l.len() as int]));
    lemma_upper_run(l + d, l.len() as int);
}

/// Encoding a coordinate pair and decoding the result yields the pair back:
/// the codec round-trips on every zero-based coordinate whose 1-based row
/// still fits a `u32`.
pub proof fn lemma_reference_roundtrip(column: u32, row: u32)
    requires
        column < u32::MAX,
        row < u32::MAX,
    ensures
        parsed_reference(spec_reference(column, row)) == Some((column, row)),
{
    let l = column_letters(column as int + 1);
    let d = decimal_digits(row as int + 1);
    let s = spec_reference(column, row);
    lemma_column_letters_value(column as int + 1);
    lemma_decimal_digits_value(row as int + 1);
    assert(!is_upper(d[0]));
    lemma_upper_run_of_concat(l, d);
    assert(s.take(l.len() as int) =~= l);
    assert(s.skip(l.len() as int) =~= d);
}

} // verus!
