use vstd::prelude::*;
use crate::model::{advanced, placed, lemma_placed_at_start, lemma_placed_concat, lemma_placed_nothing};
use crate::cursor::put_byte;
use crate::traits::ToText;

verus! {

/// The ASCII digit for a value below ten.
pub open spec fn digit(d: nat) -> u8 {
    (0x30 + d) as u8
}

/// The decimal digits of `n` from the most significant on; none for zero.
pub open spec fn significant_digits(n: nat) -> Seq<u8>
    decreases n,
{
    if n == 0 {
        Seq::empty()
    } else {
        significant_digits(n / 10).push(digit(n % 10))
    }
}

/// The decimal text of `n`: the one digit `0` for zero, else its digits
/// without a leading zero.
pub open spec fn decimal(n: nat) -> Seq<u8> {
    if n == 0 {
        seq![0x30u8]
    } else {
        significant_digits(n)
    }
}

/// The decimal text of `v`: a minus sign before the magnitude of a
/// negative value.
pub open spec fn signed_decimal(v: int) -> Seq<u8> {
    if v < 0 {
        seq![0x2du8] + decimal((-v) as nat)
    } else {
        decimal(v as nat)
    }
}

/// The number that a sequence of decimal digits denotes.
pub open spec fn decimal_value(digits: Seq<u8>) -> nat
    decreases digits.len(),
{
    if digits.len() == 0 {
        0
    } else {
        decimal_value(digits.drop_last()) * 10 + (digits.last() - 0x30) as nat
    }
}

/// Whether `b` is one of `0` to `9`.
pub open spec fn is_digit(b: u8) -> bool {
    0x30 <= b <= 0x39
}

proof fn lemma_significant_digits_denote(n: nat)
    ensures
        decimal_value(significant_digits(n)) == n,
        forall|i: int|
            0 <= i < significant_digits(n).len() ==> is_digit(#[trigger] significant_digits(n)[i]),
        n > 0 ==> significant_digits(n).len() > 0 && significant_digits(n)[0] != 0x30,
    decreases n,
{
    if n > 0 {
        lemma_significant_digits_denote(n / 10);
        assert(significant_digits(n).drop_last() =~= significant_digits(n / 10));
    }
}

/// The decimal text of `n` denotes `n`, is made of digits alone, is never
/// empty, and starts with `0` only for zero.
pub proof fn lemma_decimal_denotes(n: nat)
    ensures
        decimal_value(decimal(n)) == n,
        decimal(n).len() >= 1,
        forall|i: int| 0 <= i < decimal(n).len() ==> is_digit(#[trigger] decimal(n)[i]),
        n > 0 ==> decimal(n)[0] != 0x30,
{
    lemma_significant_digits_denote(n);
    if n == 0 {
        assert(decimal(0).drop_last() =~= Seq::<u8>::empty());
        assert(decimal_value(decimal(0).drop_last()) == 0);
    }
}

/// The text of a signed value starts with a minus sign exactly when the
/// value is negative, and what follows the sign denotes the magnitude.
pub proof fn lemma_signed_decimal_denotes(v: int)
    ensures
        v < 0 ==> signed_decimal(v)[0] == 0x2d && signed_decimal(v).skip(1) == decimal((-v) as nat),
        v >= 0 ==> signed_decimal(v) == decimal(v as nat),
        signed_decimal(v)[0] == 0x2d <==> v < 0,
{
    if v < 0 {
        assert(signed_decimal(v).skip(1) =~= decimal((-v) as nat));
    } else {
        lemma_decimal_denotes(v as nat);
    }
}

/// Ten to the power `k`.
pub open spec fn pow10(k: nat) -> nat
    decreases k,
{
    if k == 0 {
        1
    } else {
        10 * pow10((k - 1) as nat)
    }
}

/// A value below ten to the `k` has at most `k` digits.
pub proof fn lemma_digit_count(n: nat, k: nat)
    requires
        n < pow10(k),
    ensures
        significant_digits(n).len() <= k,
        decimal(n).len() <= if k == 0 { 1 } else { k },
    decreases k,
{
    if n != 0 {
        lemma_digit_count(n / 10, (k - 1) as nat);
    }
}

/// Writes the decimal text of `value` at the cursor `pos` and returns the
/// cursor behind what was written.
///
/// The digits are taken from the lowest up into a scratch area of `W`
/// bytes and copied from the highest down, as far as the destination has
/// room.
pub(crate) fn put_decimal<const W: usize>(dst: &mut [u8], pos: usize, value: u64) -> (next: usize)
    requires
        pos <= old(dst)@.len(),
        decimal(value as nat).len() <= W,
    ensures
        next == advanced(old(dst)@, pos as int, decimal(value as nat)),
        final(dst)@ == placed(old(dst)@, pos as int, decimal(value as nat)),
{
    let ghost text = decimal(value as nat);
    let ghost total = text.len() as int;
    let mut scratch = [0u8; W];
    let mut count: usize = 0;
    let mut rest: u64 = value;
    if rest == 0 {
        scratch[0] = 0x30;
        count = 1;
    } else {
        while rest > 0
            invariant
                total == text.len(),
                total <= W,
                count <= total,
                significant_digits(rest as nat) == text.take(total - count),
                forall|j: int| 0 <= j < count ==> scratch@[j] == text[total - 1 - j],
            decreases rest,
        {
            let low: u8 = (rest % 10) as u8;
            assert(significant_digits(rest as nat).last() == digit((rest % 10) as nat));
            assert(significant_digits((rest / 10) as nat) =~= text.take(total - count - 1));
            scratch[count] = 0x30 + low;
            count += 1;
            rest /= 10;
        }
    }
    let mut at: usize = pos;
    proof {
        lemma_placed_nothing(old(dst)@, pos as int);
    }
    while count > 0
        invariant
            total == text.len(),
            count <= total <= W,
            forall|j: int| 0 <= j < count ==> scratch@[j] == text[total - 1 - j],
            pos <= old(dst)@.len(),
            dst@.len() == old(dst)@.len(),
            at == advanced(old(dst)@, pos as int, text.take(total - count)),
            dst@ == placed(old(dst)@, pos as int, text.take(total - count)),
        decreases count,
    {
        count -= 1;
        proof {
            let done = text.take(total - count - 1);
            lemma_placed_concat(old(dst)@, pos as int, done, seq![scratch@[count as int]]);
            assert(done + seq![scratch@[count as int]] =~= text.take(total - count));
        }
        at = put_byte(dst, at, scratch[count]);
    }
    assert(text.take(total) =~= text);
    at
}

impl ToText for u64 {
    open spec fn text(&self) -> Seq<u8> {
        decimal(*self as nat)
    }

    /// Writes the value in decimal, at most 20 digits.
    fn to_text(&self, buf: &mut [u8]) -> (n: usize) {
        proof {
            reveal_with_fuel(pow10, 21);
            lemma_digit_count(*self as nat, 20);
            lemma_placed_at_start(buf@, self.text());
        }
        put_decimal::<21>(buf, 0, *self)
    }
}

impl ToText for usize {
    open spec fn text(&self) -> Seq<u8> {
        decimal(*self as nat)
    }

    /// Writes the value in decimal, as a 64-bit value is written.
    fn to_text(&self, buf: &mut [u8]) -> (n: usize) {
        proof {
            reveal_with_fuel(pow10, 21);
            lemma_digit_count(*self as nat, 20);
            lemma_placed_at_start(buf@, self.text());
        }
        put_decimal::<21>(buf, 0, *self as u64)
    }
}

impl ToText for u32 {
    open spec fn text(&self) -> Seq<u8> {
        decimal(*self as nat)
    }

    /// Writes the value in decimal, at most 10 digits, by the 64-bit
    /// algorithm on the widened value.
    fn to_text(&self, buf: &mut [u8]) -> (n: usize) {
        proof {
            reveal_with_fuel(pow10, 11);
            lemma_digit_count(*self as nat, 10);
            lemma_placed_at_start(buf@, self.text());
        }
        put_decimal::<11>(buf, 0, *self as u64)
    }
}

impl ToText for u8 {
    open spec fn text(&self) -> Seq<u8> {
        decimal(*self as nat)
    }

    /// Writes the value in decimal, at most 3 digits.
    fn to_text(&self, buf: &mut [u8]) -> (n: usize) {
        proof {
            reveal_with_fuel(pow10, 4);
            lemma_digit_count(*self as nat, 3);
            lemma_placed_at_start(buf@, self.text());
        }
        put_decimal::<4>(buf, 0, *self as u64)
    }
}

impl ToText for i32 {
    open spec fn text(&self) -> Seq<u8> {
        signed_decimal(*self as int)
    }

    /// Writes a minus sign for a negative value, where the destination has
    /// room for it, and then the magnitude in decimal.
    ///
    /// The magnitude is taken in a wider type, so negating never
    /// overflows: the least value has its full text, `-2147483648`.
    fn to_text(&self, buf: &mut [u8]) -> (n: usize) {
        let wide: i64 = *self as i64;
        let mut pos: usize = 0;
        let magnitude: u64 = if wide < 0 {
            pos = put_byte(buf, pos, 0x2d);
            (-wide) as u64
        } else {
            wide as u64
        };
        proof {
            reveal_with_fuel(pow10, 11);
            lemma_digit_count(magnitude as nat, 10);
            lemma_placed_nothing(old(buf)@, 0);
            lemma_placed_concat(old(buf)@, 0, seq![0x2du8], decimal(magnitude as nat));
            lemma_placed_at_start(old(buf)@, self.text());
        }
        put_decimal::<12>(buf, pos, magnitude)
    }
}

} // verus!
