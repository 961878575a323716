use vstd::prelude::*;
use crate::cursor::put_byte;
use crate::model::{advanced, placed, lemma_placed_at_start, lemma_placed_concat, lemma_placed_nothing};
use crate::traits::ToText;

verus! {

/// A machine address. Its text is `0x` and the address in lowercase
/// hexadecimal without leading zeros: `0x0` for the address zero.
#[derive(Clone, Copy, Debug)]
pub struct Address(pub usize);

/// The lowercase hexadecimal digit for a value below sixteen.
pub open spec fn hex_digit(d: nat) -> u8 {
    if d < 10 {
        (0x30 + d) as u8
    } else {
        (0x61 + (d - 10)) as u8
    }
}

/// The hexadecimal digits of `n` from the most significant on; none for
/// zero.
pub open spec fn significant_nibbles(n: nat) -> Seq<u8>
    decreases n,
{
    if n == 0 {
        Seq::empty()
    } else {
        significant_nibbles(n / 16).push(hex_digit(n % 16))
    }
}

/// The hexadecimal text of `n`: the one digit `0` for zero, else its
/// digits without a leading zero.
pub open spec fn hexadecimal(n: nat) -> Seq<u8> {
    if n == 0 {
        seq![0x30u8]
    } else {
        significant_nibbles(n)
    }
}

/// The text of the address `a`: `0x` and its hexadecimal text.
pub open spec fn address_text(a: nat) -> Seq<u8> {
    seq![0x30u8, 0x78u8] + hexadecimal(a)
}

/// The value below sixteen that a lowercase hexadecimal digit stands for.
pub open spec fn hex_digit_value(b: u8) -> nat {
    if b <= 0x39 {
        (b - 0x30) as nat
    } else {
        (b - 0x61 + 10) as nat
    }
}

/// The number that a sequence of hexadecimal digits denotes.
pub open spec fn hexadecimal_value(digits: Seq<u8>) -> nat
    decreases digits.len(),
{
    if digits.len() == 0 {
        0
    } else {
        hexadecimal_value(digits.drop_last()) * 16 + hex_digit_value(digits.last())
    }
}

/// Whether `b` is one of `0` to `9` or `a` to `f`.
pub open spec fn is_hex_digit(b: u8) -> bool {
    0x30 <= b <= 0x39 || 0x61 <= b <= 0x66
}

proof fn lemma_significant_nibbles_denote(n: nat)
    ensures
        hexadecimal_value(significant_nibbles(n)) == n,
        forall|i: int|
            0 <= i < significant_nibbles(n).len() ==> is_hex_digit(
                #[trigger] significant_nibbles(n)[i],
            ),
        n > 0 ==> significant_nibbles(n).len() > 0 && significant_nibbles(n)[0] != 0x30,
    decreases n,
{
    if n > 0 {
        lemma_significant_nibbles_denote(n / 16);
        assert(significant_nibbles(n).drop_last() =~= significant_nibbles(n / 16));
    }
}

/// The hexadecimal text of `n` denotes `n`, is made of hexadecimal digits
/// alone, is never empty, and starts with `0` only for zero.
pub proof fn lemma_hexadecimal_denotes(n: nat)
    ensures
        hexadecimal_value(hexadecimal(n)) == n,
        hexadecimal(n).len() >= 1,
        forall|i: int| 0 <= i < hexadecimal(n).len() ==> is_hex_digit(#[trigger] hexadecimal(n)[i]),
        n > 0 ==> hexadecimal(n)[0] != 0x30,
{
    lemma_significant_nibbles_denote(n);
    if n == 0 {
        assert(hexadecimal(0).drop_last() =~= Seq::<u8>::empty());
        assert(hexadecimal_value(hexadecimal(0).drop_last()) == 0);
    }
}

/// The part of `addr` above its lowest `count` nibbles.
pub open spec fn upper_nibbles(addr: u64, count: nat) -> nat {
    if count >= 16 {
        0
    } else {
        (addr >> ((4 * count) as u64)) as nat
    }
}

proof fn lemma_shift_by_nibble(a: u64, shift: u64)
    by (bit_vector)
    requires
        shift <= 56,
    ensures
        (a >> shift) / 16 == a >> ((shift + 4) as u64),
        (a >> shift) % 16 == (a >> shift) & 0xF,
{
}

proof fn lemma_shift_top_nibble(a: u64)
    by (bit_vector)
    ensures
        (a >> 60) / 16 == 0,
        (a >> 60) % 16 == (a >> 60) & 0xF,
        a >> 0 == a,
        a <= 0xffff_ffff ==> a >> 32 == 0,
{
}

/// The nibble at index `index` is the lowest digit of what stands at and
/// above it, and what stands above it is the rest.
proof fn lemma_nibble_at(addr: u64, index: nat)
    requires
        index < 16,
    ensures
        upper_nibbles(addr, index) / 16 == upper_nibbles(addr, index + 1),
        upper_nibbles(addr, index) % 16 == (addr >> ((4 * index) as u64)) & 0xF,
        upper_nibbles(addr, 0) == addr,
        addr <= 0xffff_ffff ==> upper_nibbles(addr, 8) == 0,
{
    lemma_shift_top_nibble(addr);
    if index < 15 {
        lemma_shift_by_nibble(addr, (4 * index) as u64);
    }
}

impl ToText for Address {
    open spec fn text(&self) -> Seq<u8> {
        address_text(self.0 as nat)
    }

    /// Writes `0x`, then the nibbles of the address from the highest down,
    /// passing over zeros until the first nibble that is not zero or the
    /// last nibble is reached.
    fn to_text(&self, buf: &mut [u8]) -> (n: usize) {
        let addr: u64 = self.0 as u64;
        let ghost prefix = seq![0x30u8, 0x78u8];
        let mut pos: usize = 0;
        pos = put_byte(buf, pos, 0x30);
        pos = put_byte(buf, pos, 0x78);
        let mut i: u32 = usize::BITS / 4;
        let mut started = false;
        let ghost mut digits: Seq<u8> = Seq::empty();
        proof {
            lemma_placed_nothing(old(buf)@, 0);
            lemma_placed_concat(old(buf)@, 0, seq![0x30u8], seq![0x78u8]);
            assert(seq![0x30u8] + seq![0x78u8] =~= prefix);
            assert(prefix + digits =~= prefix);
            lemma_nibble_at(addr, 0);
        }
        while i > 0
            invariant
                i <= 16,
                buf@.len() == old(buf)@.len(),
                pos == advanced(old(buf)@, 0, prefix + digits),
                buf@ == placed(old(buf)@, 0, prefix + digits),
                i > 0 ==> started == (digits.len() > 0),
                i > 0 ==> digits == significant_nibbles(upper_nibbles(addr, i as nat)),
                i == 0 ==> digits == hexadecimal(addr as nat),
            decreases i,
        {
            i -= 1;
            let shift: u32 = i * 4;
            let nibble: u8 = ((addr >> shift) & 0xF) as u8;
            proof {
                lemma_nibble_at(addr, i as nat);
                let here = upper_nibbles(addr, i as nat);
                assert(nibble == here % 16);
                assert(here != 0 ==> significant_nibbles(here) == digits.push(
                    hex_digit(nibble as nat),
                ));
            }
            if nibble != 0 || started || i == 0 {
                started = true;
                let c: u8 = if nibble < 10 {
                    0x30 + nibble
                } else {
                    0x61 + (nibble - 10)
                };
                proof {
                    lemma_placed_concat(old(buf)@, 0, prefix + digits, seq![c]);
                    assert((prefix + digits) + seq![c] =~= prefix + digits.push(c));
                    digits = digits.push(c);
                }
                pos = put_byte(buf, pos, c);
            }
        }
        proof {
            lemma_placed_at_start(old(buf)@, self.text());
        }
        pos
    }
}

} // verus!
