use vstd::prelude::*;
use crate::model::{advanced, placed, rendered, written};

verus! {

/// A value that can write its text into a bounded byte destination.
///
/// An implementation says in `text` what the whole text of a value is, and
/// `to_text` then owes the caller exactly the part of it that fits.
pub trait ToText {
    /// The value's whole text, as it would stand in a destination with
    /// room for all of it.
    spec fn text(&self) -> Seq<u8>;

    /// Writes the text into `buf` from its first byte on, cut off at the
    /// end of `buf`, and returns the number of bytes written.
    ///
    /// The count is the smaller of the text's length and the capacity of
    /// `buf`, so a count below the text's length tells the caller that the
    /// text was cut off. The bytes counted are the first bytes of the text;
    /// every byte of `buf` behind them is as it was.
    fn to_text(&self, buf: &mut [u8]) -> (n: usize)
        ensures
            n <= old(buf)@.len(),
            n == written(self.text(), old(buf)@.len()),
            final(buf)@.len() == old(buf)@.len(),
            final(buf)@ == rendered(old(buf)@, self.text()),
    ;
}

/// Writes the text of `value` at the cursor `pos`, handing the value only
/// the bytes of `dst` from the cursor on, and returns the cursor behind
/// what was written.
pub fn append<T: ToText>(dst: &mut [u8], pos: usize, value: &T) -> (next: usize)
    requires
        pos <= old(dst)@.len(),
    ensures
        pos <= next <= old(dst)@.len(),
        next == advanced(old(dst)@, pos as int, value.text()),
        final(dst)@.len() == old(dst)@.len(),
        final(dst)@ == placed(old(dst)@, pos as int, value.text()),
{
    assert(dst.len() == dst@.len());
    let (_, tail) = dst.split_at_mut(pos);
    assert(tail@.len() == old(dst)@.len() - pos);
    let n = value.to_text(tail);
    proof {
        assert(old(dst)@.subrange(0, pos as int) =~= old(dst)@.take(pos as int));
        assert(old(dst)@.subrange(pos as int, old(dst)@.len() as int) =~= old(dst)@.skip(
            pos as int,
        ));
    }
    pos + n
}

impl<T: ToText> ToText for &T {
    open spec fn text(&self) -> Seq<u8> {
        (**self).text()
    }

    /// Writes what the value referred to writes.
    fn to_text(&self, buf: &mut [u8]) -> (n: usize) {
        (*self).to_text(buf)
    }
}

} // verus!
