use vstd::prelude::*;
use crate::model::{advanced, placed};

verus! {

/// Writes `byte` at the cursor `pos` if the destination has room there, and
/// returns the cursor behind what was written.
pub fn put_byte(dst: &mut [u8], pos: usize, byte: u8) -> (next: usize)
    requires
        pos <= old(dst)@.len(),
    ensures
        pos <= next <= old(dst)@.len(),
        next == advanced(old(dst)@, pos as int, seq![byte]),
        final(dst)@.len() == old(dst)@.len(),
        final(dst)@ == placed(old(dst)@, pos as int, seq![byte]),
{
    if pos < dst.len() {
        dst[pos] = byte;
        assert(dst@ =~= placed(old(dst)@, pos as int, seq![byte]));
        pos + 1
    } else {
        assert(dst@ =~= placed(old(dst)@, pos as int, seq![byte]));
        pos
    }
}

/// Copies `src` to the cursor `pos`, as far as the destination has room, and
/// returns the cursor behind what was written.
pub fn put_bytes(dst: &mut [u8], pos: usize, src: &[u8]) -> (next: usize)
    requires
        pos <= old(dst)@.len(),
    ensures
        pos <= next <= old(dst)@.len(),
        next == advanced(old(dst)@, pos as int, src@),
        final(dst)@.len() == old(dst)@.len(),
        final(dst)@ == placed(old(dst)@, pos as int, src@),
{
    let mut at: usize = pos;
    let mut i: usize = 0;
    while i < src.len() && at < dst.len()
        invariant
            dst@.len() == old(dst)@.len(),
            pos <= at <= dst@.len(),
            i <= src@.len(),
            at == pos + i,
            dst@ == placed(old(dst)@, pos as int, src@.take(i as int)),
        decreases src@.len() - i,
    {
        dst[at] = src[i];
        assert(dst@ =~= placed(old(dst)@, pos as int, src@.take(i + 1)));
        at += 1;
        i += 1;
    }
    assert(dst@ =~= placed(old(dst)@, pos as int, src@));
    at
}

} // verus!
