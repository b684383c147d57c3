//! Octal text, the form in which a header stores its numbers.

use vstd::prelude::*;
use crate::text::{
    lemma_trim_start_len, trim_field, trim_field_start, trim_start, trimmed, Padding,
};

verus! {

/// True when `byte` is one of the ASCII digits `0` to `7`.
pub open spec fn is_octal_digit(byte: u8) -> bool {
    0x30 <= byte && byte <= 0x37
}

/// The number that an octal digit stands for; zero for any other byte.
pub open spec fn digit_value(byte: u8) -> nat {
    if is_octal_digit(byte) {
        (byte - 0x30) as nat
    } else {
        0
    }
}

/// True when every byte of `text` is an octal digit.
pub open spec fn all_octal(text: Seq<u8>) -> bool {
    forall|i: int| 0 <= i < text.len() ==> is_octal_digit(#[trigger] text[i])
}

/// The number written by a string of octal digits, most significant first.
pub open spec fn octal_value(digits: Seq<u8>) -> nat
    decreases digits.len(),
{
    if digits.len() == 0 {
        0
    } else {
        octal_value(digits.drop_last()) * 8 + digit_value(digits.last())
    }
}

/// The octal digits of `n` without leading zeros; the single digit `0` for zero.
pub open spec fn octal_digits(n: nat) -> Seq<u8>
    decreases n,
{
    if n < 8 {
        seq![(0x30 + n) as u8]
    } else {
        octal_digits(n / 8).push((0x30 + n % 8) as u8)
    }
}

/// Eight to the power `k`.
pub open spec fn pow8(k: nat) -> nat
    decreases k,
{
    if k == 0 {
        1
    } else {
        8 * pow8((k - 1) as nat)
    }
}

/// The longest run of octal digits at the start of `text`.
pub open spec fn leading_octal(text: Seq<u8>) -> Seq<u8>
    decreases text.len(),
{
    if text.len() > 0 && is_octal_digit(text[0]) {
        seq![text[0]] + leading_octal(text.drop_first())
    } else {
        Seq::empty()
    }
}

/// The digits of a number field: what is left of it once the white space at
/// both ends and one leading plus sign are taken away.
pub open spec fn field_digits(field: Seq<u8>) -> Seq<u8> {
    let text = trimmed(field, Padding::Whitespace);
    if text.len() > 0 && text[0] == 0x2b {
        text.drop_first()
    } else {
        text
    }
}

/// True when `field` is octal text: at least one octal digit and nothing
/// else, but for white space around it and one plus sign before it.
pub open spec fn is_octal_text(field: Seq<u8>) -> bool {
    field_digits(field).len() > 0 && all_octal(field_digits(field))
}

/// The number that a strictly read field holds, if it is octal text whose
/// value fits in 64 bits.
pub open spec fn octal_field(field: Seq<u8>) -> Option<u64> {
    if is_octal_text(field) && octal_value(field_digits(field)) <= u64::MAX {
        Some(octal_value(field_digits(field)) as u64)
    } else {
        None
    }
}

/// The number that a leniently read field holds: the value of the octal
/// digits that follow its leading white space, zero where there are none.
pub open spec fn octal_prefix(field: Seq<u8>) -> nat {
    octal_value(leading_octal(trim_start(field, Padding::Whitespace)))
}

/// The digits of a number are octal digits, at least one of them, and they
/// write that number.
pub proof fn lemma_octal_digits(n: nat)
    ensures
        octal_digits(n).len() >= 1,
        all_octal(octal_digits(n)),
        octal_value(octal_digits(n)) == n,
    decreases n,
{
    if n < 8 {
        assert(octal_value(octal_digits(n).drop_last()) == 0);
    } else {
        lemma_octal_digits(n / 8);
        assert(octal_digits(n).drop_last() =~= octal_digits(n / 8));
    }
}

/// A number below the `k`-th power of eight has at most `k` digits.
pub proof fn lemma_octal_digits_len(n: nat, k: nat)
    requires
        k >= 1,
        n < pow8(k),
    ensures
        octal_digits(n).len() <= k,
    decreases n,
{
    if n >= 8 {
        if k == 1 {
            reveal_with_fuel(pow8, 2);
        } else {
            lemma_octal_digits_len(n / 8, (k - 1) as nat);
        }
    }
}

/// A string of `k` digits writes a number below the `k`-th power of eight.
pub proof fn lemma_octal_value_bound(digits: Seq<u8>)
    ensures
        octal_value(digits) < pow8(digits.len()),
    decreases digits.len(),
{
    if digits.len() > 0 {
        lemma_octal_value_bound(digits.drop_last());
    }
}

/// Powers of eight grow with the exponent.
pub proof fn lemma_pow8_monotonic(a: nat, b: nat)
    requires
        a <= b,
    ensures
        pow8(a) <= pow8(b),
        pow8(a) >= 1,
    decreases b,
{
    if a < b {
        lemma_pow8_monotonic(a, (b - 1) as nat);
    } else if a > 0 {
        lemma_pow8_monotonic((a - 1) as nat, (a - 1) as nat);
    }
}

/// The powers of eight that bound the fields of a header.
pub proof fn lemma_pow8_values()
    ensures
        pow8(6) == 0o1000000,
        pow8(8) == 0o100000000,
        pow8(11) == 0o100000000000,
        pow8(21) == 0x8000_0000_0000_0000,
{
    reveal_with_fuel(pow8, 22);
}

/// Writing further digits after a string never makes its value smaller.
pub proof fn lemma_octal_value_prefix(digits: Seq<u8>, k: int)
    requires
        0 <= k <= digits.len(),
    ensures
        octal_value(digits.take(k)) <= octal_value(digits),
    decreases digits.len() - k,
{
    if k < digits.len() {
        lemma_octal_value_prefix(digits, k + 1);
        assert(digits.take(k + 1).drop_last() =~= digits.take(k));
    } else {
        assert(digits.take(k) =~= digits);
    }
}

/// Zeros before a string of digits do not change its value.
pub proof fn lemma_leading_zeros(count: nat, digits: Seq<u8>)
    ensures
        octal_value(Seq::new(count, |i: int| 0x30u8) + digits) == octal_value(digits),
    decreases digits.len(), count,
{
    let zeros = Seq::new(count, |i: int| 0x30u8);
    if digits.len() > 0 {
        lemma_leading_zeros(count, digits.drop_last());
        assert((zeros + digits).drop_last() =~= zeros + digits.drop_last());
    } else if count > 0 {
        let fewer = Seq::new((count - 1) as nat, |i: int| 0x30u8);
        lemma_leading_zeros((count - 1) as nat, digits);
        assert((zeros + digits).drop_last() =~= fewer + digits);
    }
}

/// The digits at the start of a text are the whole of a string of digits
/// that is followed by no further digit.
pub proof fn lemma_leading_octal_of_digits(digits: Seq<u8>, rest: Seq<u8>)
    requires
        all_octal(digits),
        rest.len() > 0 ==> !is_octal_digit(rest[0]),
    ensures
        leading_octal(digits + rest) == digits,
    decreases digits.len(),
{
    if digits.len() > 0 {
        lemma_leading_octal_of_digits(digits.drop_first(), rest);
        assert((digits + rest).drop_first() =~= digits.drop_first() + rest);
    }
}

/// Octal text that stands alone in its field is read strictly as the number
/// that it writes.
pub proof fn lemma_octal_field_of_digits(digits: Seq<u8>)
    requires
        digits.len() > 0,
        all_octal(digits),
        octal_value(digits) <= u64::MAX,
    ensures
        octal_field(digits) == Some(octal_value(digits) as u64),
{
}

/// Writes a number in octal digits, without leading zeros.
pub fn octal_text(n: u64) -> (digits: Vec<u8>)
    ensures
        digits@ == octal_digits(n as nat),
    decreases n,
{
    if n < 8 {
        let mut digits: Vec<u8> = Vec::new();
        digits.push(0x30 + n as u8);
        digits
    } else {
        let mut digits = octal_text(n / 8);
        digits.push(0x30 + (n % 8) as u8);
        digits
    }
}

/// Reads a number field strictly: the field must be octal text, and its
/// value must fit in 64 bits.
pub fn parse_octal(field: &[u8]) -> (value: Option<u64>)
    ensures
        value == octal_field(field@),
{
    let text = trim_field(field, Padding::Whitespace);
    let len: usize = text.len();
    let mut i: usize = if len > 0 && text[0] == 0x2b { 1 } else { 0 };
    let ghost digits = field_digits(field@);
    if i == len {
        return None;
    }
    let ghost first = i;
    let mut acc: u64 = 0;
    while i < len
        invariant
            first <= i <= len == text@.len(),
            digits == field_digits(field@),
            digits == text@.subrange(first as int, len as int),
            all_octal(digits.take(i - first)),
            acc == octal_value(digits.take(i - first)),
        decreases len - i,
    {
        let byte: u8 = text[i];
        proof {
            assert(digits.take(i - first + 1).drop_last() =~= digits.take(i - first));
            lemma_octal_value_prefix(digits, i - first + 1);
        }
        if byte < 0x30 || byte > 0x37 {
            return None;
        }
        let digit: u64 = (byte - 0x30) as u64;
        if acc > (u64::MAX - digit) / 8 {
            return None;
        }
        acc = acc * 8 + digit;
        i += 1;
    }
    assert(digits.take(len - first) =~= digits);
    Some(acc)
}

/// Reads a number field leniently: the value of the octal digits that follow
/// its leading white space. Whatever comes after them is not read.
pub fn parse_octal_prefix(field: &[u8]) -> (value: u64)
    requires
        field@.len() <= 21,
    ensures
        value == octal_prefix(field@),
{
    let text = trim_field_start(field, Padding::Whitespace);
    let len: usize = text.len();
    let mut i: usize = 0;
    let mut acc: u64 = 0;
    proof {
        assert(text@.subrange(0, len as int) =~= text@);
        lemma_trim_start_len(field@, Padding::Whitespace);
    }
    while i < len && 0x30 <= text[i] && text[i] <= 0x37
        invariant
            i <= len == text@.len(),
            len <= 21,
            all_octal(text@.take(i as int)),
            acc == octal_value(text@.take(i as int)),
            leading_octal(text@) == text@.take(i as int) + leading_octal(
                text@.subrange(i as int, len as int),
            ),
        decreases len - i,
    {
        proof {
            let rest = text@.subrange(i as int, len as int);
            assert(rest.drop_first() =~= text@.subrange(i + 1, len as int));
            assert(text@.take(i + 1).drop_last() =~= text@.take(i as int));
            lemma_octal_value_bound(text@.take(i as int));
            lemma_pow8_monotonic(i as nat, 20);
            lemma_pow8_values();
            reveal_with_fuel(pow8, 2);
        }
        acc = acc * 8 + (text[i] - 0x30) as u64;
        i += 1;
    }
    acc
}

} // verus!
