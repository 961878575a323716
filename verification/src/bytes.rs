use vstd::prelude::*;
use vstd::utf8::encode_utf8;
use crate::model::{advanced, placed, lemma_placed_at_start, lemma_placed_concat, lemma_placed_nothing};
use crate::cursor::{put_byte, put_bytes};
use crate::traits::ToText;

verus! {

/// The index behind the first zero byte of `s` at or after `from`, or the
/// length of `s` where there is none.
pub open spec fn terminator_end(s: Seq<u8>, from: int) -> int
    decreases s.len() - from,
{
    if from >= s.len() {
        s.len() as int
    } else if s[from] == 0 {
        from + 1
    } else {
        terminator_end(s, from + 1)
    }
}

/// The text of a byte sequence: its bytes up to and with the first zero
/// byte, or all of them where none is zero.
pub open spec fn terminated(s: Seq<u8>) -> Seq<u8> {
    s.take(terminator_end(s, 0))
}

/// The first zero byte at or after `from` ends the text no earlier than
/// `from` and no later than the end of `s`.
pub proof fn lemma_terminator_end_bounds(s: Seq<u8>, from: int)
    requires
        0 <= from <= s.len(),
    ensures
        from <= terminator_end(s, from) <= s.len(),
    decreases s.len() - from,
{
    if from < s.len() && s[from] != 0 {
        lemma_terminator_end_bounds(s, from + 1);
    }
}

proof fn lemma_no_zero_before_end(s: Seq<u8>, from: int)
    requires
        0 <= from <= s.len(),
    ensures
        forall|i: int| from <= i < terminator_end(s, from) - 1 ==> s[i] != 0,
        terminator_end(s, from) < s.len() ==> s[terminator_end(s, from) - 1] == 0,
        from < s.len() ==> from < terminator_end(s, from),
    decreases s.len() - from,
{
    if from < s.len() && s[from] != 0 {
        lemma_no_zero_before_end(s, from + 1);
    }
}

/// The text of a byte sequence is its start; it holds no zero byte before
/// its last byte; where it is shorter than the sequence it ends in a zero
/// byte; and it is empty only for the empty sequence.
pub proof fn lemma_terminated_shape(s: Seq<u8>)
    ensures
        terminated(s).len() <= s.len(),
        terminated(s) == s.take(terminated(s).len() as int),
        forall|i: int| 0 <= i < terminated(s).len() - 1 ==> terminated(s)[i] != 0,
        terminated(s).len() < s.len() ==> terminated(s).last() == 0,
        s.len() > 0 ==> terminated(s).len() > 0,
{
    lemma_terminator_end_bounds(s, 0);
    lemma_no_zero_before_end(s, 0);
}

/// Copies `src` to the cursor `pos` up to and with its first zero byte, as
/// far as the destination has room, and returns the cursor behind what was
/// written.
pub(crate) fn put_terminated(dst: &mut [u8], pos: usize, src: &[u8]) -> (next: usize)
    requires
        pos <= old(dst)@.len(),
    ensures
        next == advanced(old(dst)@, pos as int, terminated(src@)),
        final(dst)@ == placed(old(dst)@, pos as int, terminated(src@)),
{
    let mut at: usize = pos;
    let mut i: usize = 0;
    let ghost mut stopped = false;
    proof {
        lemma_placed_nothing(old(dst)@, pos as int);
    }
    while i < src.len() && at < dst.len()
        invariant_except_break
            !stopped,
        invariant
            dst@.len() == old(dst)@.len(),
            pos <= at <= dst@.len(),
            i <= src@.len(),
            stopped ==> terminator_end(src@, 0) == i,
            !stopped ==> terminator_end(src@, 0) == terminator_end(src@, i as int),
            at == advanced(old(dst)@, pos as int, src@.take(i as int)),
            dst@ == placed(old(dst)@, pos as int, src@.take(i as int)),
        ensures
            stopped || i == src@.len() || at == dst@.len(),
        decreases src@.len() - i,
    {
        let b = src[i];
        proof {
            lemma_placed_concat(old(dst)@, pos as int, src@.take(i as int), seq![b]);
            assert(src@.take(i as int) + seq![b] =~= src@.take(i + 1));
            assert(terminator_end(src@, i as int) == if b == 0 {
                i + 1
            } else {
                terminator_end(src@, i + 1)
            });
        }
        at = put_byte(dst, at, b);
        i += 1;
        if b == 0 {
            proof {
                stopped = true;
            }
            break;
        }
    }
    proof {
        let end = terminator_end(src@, 0);
        if end != i {
            // The destination is full: what lies behind the cut is not seen.
            lemma_terminator_end_bounds(src@, i as int);
            assert(placed(old(dst)@, pos as int, src@.take(end)) =~= placed(
                old(dst)@,
                pos as int,
                src@.take(i as int),
            ));
        }
    }
    at
}

impl<const N: usize> ToText for [u8; N] {
    open spec fn text(&self) -> Seq<u8> {
        terminated(self@)
    }

    /// Copies the bytes in their order and stops behind the first zero
    /// byte, which is itself copied: a reader of the destination finds the
    /// terminator where the sequence had it.
    fn to_text(&self, buf: &mut [u8]) -> (n: usize) {
        proof {
            lemma_placed_at_start(buf@, self.text());
        }
        put_terminated(buf, 0, self.as_slice())
    }
}

impl ToText for &str {
    open spec fn text(&self) -> Seq<u8> {
        encode_utf8((*self)@)
    }

    /// Copies the bytes of the string as they are, zero bytes too.
    fn to_text(&self, buf: &mut [u8]) -> (n: usize) {
        proof {
            lemma_placed_at_start(buf@, self.text());
        }
        put_bytes(buf, 0, (*self).as_bytes())
    }
}

} // verus!
