//! Decimal ASCII representations of integers, shared by argument
//! serialization and the wire codec.

use vstd::prelude::*;

verus! {

/// Decimal ASCII digits of `n`, most significant first, no leading zeros.
pub open spec fn dec_digits(n: nat) -> Seq<u8>
    decreases n,
{
    if n < 10 {
        seq![(48 + n) as u8]
    } else {
        dec_digits(n / 10).push((48 + n % 10) as u8)
    }
}

/// Decimal ASCII of an integer: a minus sign for negatives, digits otherwise.
pub open spec fn dec_int(i: int) -> Seq<u8> {
    if i < 0 {
        seq![45u8] + dec_digits((-i) as nat)
    } else {
        dec_digits(i as nat)
    }
}

/// A decimal ASCII digit.
pub open spec fn is_digit(b: u8) -> bool {
    48 <= b && b <= 57
}

/// Every byte is a decimal ASCII digit.
pub open spec fn all_digits(d: Seq<u8>) -> bool {
    forall|i: int| 0 <= i < d.len() ==> is_digit(#[trigger] d[i])
}

/// Canonical decimal text: nonempty, digits only, no superfluous leading
/// zero.
pub open spec fn is_canonical_digits(d: Seq<u8>) -> bool {
    d.len() >= 1 && all_digits(d) && (d.len() > 1 ==> d[0] != 48)
}

/// The number a digit sequence denotes.
pub open spec fn digits_val(d: Seq<u8>) -> nat
    decreases d.len(),
{
    if d.len() == 0 {
        0
    } else {
        (digits_val(d.take(d.len() - 1)) * 10 + (d.last() - 48)) as nat
    }
}

pub open spec fn pow10(k: nat) -> nat
    decreases k,
{
    if k == 0 {
        1
    } else {
        10 * pow10((k - 1) as nat)
    }
}

/// The digits of `n` are canonical, and nonzero numbers do not start with
/// a zero digit.
pub proof fn lemma_dec_digits_canonical(n: nat)
    ensures
        is_canonical_digits(dec_digits(n)),
        n >= 1 ==> dec_digits(n)[0] != 48,
    decreases n,
{
    if n < 10 {
    } else {
        lemma_dec_digits_canonical(n / 10);
        let front = dec_digits(n / 10);
        let d = dec_digits(n);
        assert(d == front.push((48 + n % 10) as u8));
        assert(d[0] == front[0]);
        assert(forall|i: int| 0 <= i < d.len() ==> is_digit(#[trigger] d[i]));
    }
}

/// Reading the digits of `n` back gives `n`.
pub proof fn lemma_digits_val_dec_digits(n: nat)
    ensures
        digits_val(dec_digits(n)) == n,
    decreases n,
{
    if n < 10 {
        let d = dec_digits(n);
        assert(d.take(d.len() - 1) =~= Seq::<u8>::empty());
        assert(digits_val(Seq::<u8>::empty()) == 0);
        assert(digits_val(d) == (digits_val(Seq::<u8>::empty()) * 10 + (d.last() - 48)) as nat);
        assert(d.last() == (48 + n) as u8);
    } else {
        lemma_digits_val_dec_digits(n / 10);
        let front = dec_digits(n / 10);
        let d = dec_digits(n);
        assert(d == front.push((48 + n % 10) as u8));
        assert(d.take(d.len() - 1) =~= front);
        assert(d.last() == (48 + n % 10) as u8);
        assert(digits_val(d) == (digits_val(front) * 10 + (d.last() - 48)) as nat);
        vstd::arithmetic::div_mod::lemma_fundamental_div_mod(n as int, 10);
        assert(n == 10 * (n / 10) + n % 10);
    }
}

/// Digits denote less than ten to their count.
pub proof fn lemma_digits_val_upper(d: Seq<u8>)
    requires
        all_digits(d),
    ensures
        digits_val(d) < pow10(d.len()),
    decreases d.len(),
{
    if d.len() == 0 {
    } else {
        let front = d.take(d.len() - 1);
        assert(all_digits(front));
        lemma_digits_val_upper(front);
        assert(d.last() - 48 <= 9);
        assert(digits_val(front) * 10 + 9 < pow10(front.len()) * 10) by (nonlinear_arith)
            requires
                digits_val(front) < pow10(front.len()),
        ;
        assert(pow10(d.len()) == 10 * pow10(front.len()));
    }
}

/// Digits that do not start with zero denote at least ten to one less
/// than their count.
pub proof fn lemma_digits_val_lower(d: Seq<u8>)
    requires
        all_digits(d),
        d.len() >= 1,
        d[0] != 48,
    ensures
        digits_val(d) >= pow10((d.len() - 1) as nat),
    decreases d.len(),
{
    if d.len() == 1 {
        assert(is_digit(d[0]));
        assert(d.take(0) =~= Seq::<u8>::empty());
    } else {
        let front = d.take(d.len() - 1);
        assert(all_digits(front));
        assert(front[0] == d[0]);
        lemma_digits_val_lower(front);
        assert(digits_val(front) * 10 >= pow10((front.len() - 1) as nat) * 10) by (nonlinear_arith)
            requires
                digits_val(front) >= pow10((front.len() - 1) as nat),
        ;
        assert(pow10((d.len() - 1) as nat) == 10 * pow10((d.len() - 2) as nat));
        assert(digits_val(d) == digits_val(front) * 10 + (d.last() - 48));
    }
}

/// A concrete ceiling for length fields: twenty digits denote less than
/// `10^20`, which a 128-bit accumulator holds comfortably, and nineteen
/// digits already exceed the 64-bit signed range.
pub proof fn lemma_pow10_20_fits()
    ensures
        pow10(20) == 100000000000000000000,
        pow10(19) == 10000000000000000000,
{
    reveal_with_fuel(pow10, 21);
}

/// A value that fits a machine word needs at most twenty digits, and its
/// digits are canonical and read back to it.
pub proof fn lemma_dec_digits_len_20(n: nat)
    requires
        n <= usize::MAX as nat,
    ensures
        dec_digits(n).len() <= 20,
        is_canonical_digits(dec_digits(n)),
        digits_val(dec_digits(n)) == n,
{
    lemma_dec_digits_canonical(n);
    lemma_digits_val_dec_digits(n);
    let d = dec_digits(n);
    if d.len() > 20 {
        if n == 0 {
            assert(dec_digits(0) == seq![48u8]);
        } else {
            lemma_digits_val_lower(d);
            lemma_pow10_le(20, (d.len() - 1) as nat);
            lemma_pow10_20_fits();
            assert(usize::MAX as nat <= 18446744073709551615);
        }
    }
}

/// Ten to a power never shrinks as the power grows.
pub proof fn lemma_pow10_le(a: nat, b: nat)
    requires
        a <= b,
    ensures
        pow10(a) <= pow10(b),
    decreases b,
{
    if a < b {
        lemma_pow10_le(a, (b - 1) as nat);
    }
}

/// Relies on itoa::Buffer::format: decimal ASCII of the integer, most
/// significant digit first, no leading zeros, a leading minus sign for
/// negative values (same text as libcore's integer Display).
#[verifier::external_body]
pub(crate) fn format_i64(i: i64) -> (r: Vec<u8>)
    ensures
        r@ == dec_int(i as int),
{
    let mut buf = itoa::Buffer::new();
    buf.format(i).as_bytes().to_vec()
}

/// Relies on itoa::Buffer::format: decimal ASCII of the integer, most
/// significant digit first, no leading zeros (same text as libcore's
/// integer Display).
#[verifier::external_body]
pub(crate) fn format_u64(u: u64) -> (r: Vec<u8>)
    ensures
        r@ == dec_digits(u as nat),
{
    let mut buf = itoa::Buffer::new();
    buf.format(u).as_bytes().to_vec()
}

} // verus!
