//! Decimal text for the integers that appear in cards and reports.
//!
//! The renderer and the JSON encoder print integers in plain decimal, and the
//! card decoder reads `i32` values back out of JSON number tokens. Both
//! directions are specified here, together with the fact that they invert
//! each other.

use vstd::prelude::*;

verus! {

/// The character for one decimal digit value.
pub open spec fn digit_char(d: nat) -> char
    recommends
        d < 10,
{
    ((d + 48) as u8) as char
}

/// The numeric value of one decimal digit character.
pub open spec fn digit_val(c: char) -> nat
    recommends
        is_digit(c),
{
    (c as u32 - 48) as nat
}

/// Whether `c` is an ASCII decimal digit.
pub open spec fn is_digit(c: char) -> bool {
    48 <= c as u32 <= 57
}

/// The decimal digit string of a natural number, most significant digit
/// first, with no sign and no leading zero (except for `0` itself).
pub open spec fn dec_digits(n: nat) -> Seq<char>
    decreases n,
{
    if n < 10 {
        seq![digit_char(n)]
    } else {
        dec_digits(n / 10).push(digit_char(n % 10))
    }
}

/// The decimal text of an integer: a `-` sign for negatives, then the digits.
pub open spec fn dec_int(i: int) -> Seq<char> {
    if i < 0 {
        seq!['-'] + dec_digits((-i) as nat)
    } else {
        dec_digits(i as nat)
    }
}

/// The value of a string of decimal digits, most significant first.
pub open spec fn dec_val(s: Seq<char>) -> nat
    decreases s.len(),
{
    if s.len() == 0 {
        0
    } else {
        dec_val(s.drop_last()) * 10 + digit_val(s.last())
    }
}

/// Whether every character of `s` is a decimal digit.
pub open spec fn all_digits(s: Seq<char>) -> bool {
    forall|i: int| 0 <= i < s.len() ==> is_digit(#[trigger] s[i])
}

/// The digit string of `n` consists of digits and decodes back to `n`.
pub proof fn lemma_dec_digits_val(n: nat)
    ensures
        dec_digits(n).len() >= 1,
        all_digits(dec_digits(n)),
        dec_val(dec_digits(n)) == n,
        dec_digits(n)[0] != '0' || n < 10,
    decreases n,
{
    if n < 10 {
        assert(dec_digits(n) =~= seq![digit_char(n)]);
        assert(dec_val(dec_digits(n)) == dec_val(seq![digit_char(n)].drop_last()) * 10
            + digit_val(digit_char(n)));
        assert(seq![digit_char(n)].drop_last() =~= Seq::<char>::empty());
    } else {
        lemma_dec_digits_val(n / 10);
        let s = dec_digits(n);
        assert(s =~= dec_digits(n / 10).push(digit_char(n % 10)));
        assert(s.drop_last() =~= dec_digits(n / 10));
        assert(dec_val(s) == (n / 10) * 10 + n % 10);
        assert((n / 10) * 10 + n % 10 == n) by (nonlinear_arith);
    }
}

/// Appending digits to a digit string never lowers its value.
pub proof fn lemma_dec_val_prefix_le(s: Seq<char>, i: int)
    requires
        0 <= i <= s.len(),
    ensures
        dec_val(s.subrange(0, i)) <= dec_val(s),
    decreases s.len() - i,
{
    if i < s.len() {
        lemma_dec_val_prefix_le(s, i + 1);
        let a = s.subrange(0, i);
        let b = s.subrange(0, i + 1);
        assert(b.drop_last() =~= a);
        assert(dec_val(b) == dec_val(a) * 10 + digit_val(b.last()));
        assert(dec_val(a) * 10 >= dec_val(a)) by (nonlinear_arith);
    } else {
        assert(s.subrange(0, i) =~= s);
    }
}

/// Pushes the decimal digits of `n` onto `out`.
pub fn push_dec_u64(n: u64, out: &mut Vec<char>)
    ensures
        final(out)@ == old(out)@ + dec_digits(n as nat),
    decreases n,
{
    if n >= 10 {
        push_dec_u64(n / 10, out);
        out.push(((n % 10) as u8 + 48) as char);
        assert(out@ =~= old(out)@ + dec_digits(n as nat));
    } else {
        out.push((n as u8 + 48) as char);
        assert(out@ =~= old(out)@ + dec_digits(n as nat));
    }
}

/// Pushes the decimal text of `i` (sign included) onto `out`.
pub fn push_dec_i64(i: i64, out: &mut Vec<char>)
    ensures
        final(out)@ == old(out)@ + dec_int(i as int),
{
    if i < 0 {
        out.push('-');
        let neg: i128 = -(i as i128);
        assert(0 <= neg <= u64::MAX as i128);
        let m: u64 = neg as u64;
        assert(m as nat == (-(i as int)) as nat);
        push_dec_u64(m, out);
        assert(out@ =~= old(out)@ + dec_int(i as int));
    } else {
        push_dec_u64(i as u64, out);
    }
}

/// Reads the value of a digit string, refusing values above `u32::MAX`.
///
/// `s[from..to]` must be all digits.
pub fn parse_digits_u32(s: &Vec<char>, from: usize, to: usize) -> (r: Option<u32>)
    requires
        from <= to <= s@.len(),
        to > from,
        all_digits(s@.subrange(from as int, to as int)),
    ensures
        match r {
            Some(v) => v as nat == dec_val(s@.subrange(from as int, to as int)),
            None => dec_val(s@.subrange(from as int, to as int)) > u32::MAX,
        },
{
    let ghost digits = s@.subrange(from as int, to as int);
    let mut acc: u64 = 0;
    let mut i: usize = from;
    while i < to
        invariant
            from <= i <= to <= s@.len(),
            digits == s@.subrange(from as int, to as int),
            all_digits(digits),
            acc as nat == dec_val(s@.subrange(from as int, i as int)),
            acc <= u32::MAX,
        decreases to - i,
    {
        let c = s[i];
        proof {
            assert(digits[i - from] == s@[i as int]);
            assert(is_digit(c));
        }
        let d: u64 = (c as u32 - 48) as u64;
        let next: u64 = acc * 10 + d;
        proof {
            assert(s@.subrange(from as int, i + 1).drop_last() =~= s@.subrange(
                from as int,
                i as int,
            ));
            assert(s@.subrange(from as int, i + 1).last() == s@[i as int]);
        }
        if next > u32::MAX as u64 {
            proof {
                lemma_dec_val_prefix_le(digits, i + 1 - from);
                assert(s@.subrange(from as int, i + 1) =~= digits.subrange(0, i + 1 - from));
            }
            return None;
        }
        acc = next;
        i = i + 1;
    }
    proof {
        assert(s@.subrange(from as int, to as int) =~= digits);
    }
    Some(acc as u32)
}

/// The decimal text of an integer, as a character vector.
pub fn dec_int_chars(i: i64) -> (r: Vec<char>)
    ensures
        r@ == dec_int(i as int),
{
    let mut out: Vec<char> = Vec::new();
    push_dec_i64(i, &mut out);
    assert(out@ =~= dec_int(i as int));
    out
}

} // verus!
