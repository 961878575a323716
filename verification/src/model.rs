use vstd::prelude::*;

verus! {

/// How many bytes of `text` fit into `capacity` free bytes.
pub open spec fn written(text: Seq<u8>, capacity: nat) -> nat {
    if text.len() <= capacity {
        text.len()
    } else {
        capacity
    }
}

/// The contents of a destination that held `dst`, after `text` was written
/// from its first byte on and cut off at its end.
pub open spec fn rendered(dst: Seq<u8>, text: Seq<u8>) -> Seq<u8> {
    let n = written(text, dst.len()) as int;
    text.take(n) + dst.skip(n)
}

/// The free bytes of `dst` from the cursor `pos` on.
pub open spec fn room(dst: Seq<u8>, pos: int) -> nat {
    (dst.len() - pos) as nat
}

/// The cursor after `text` was written at the cursor `pos`.
pub open spec fn advanced(dst: Seq<u8>, pos: int, text: Seq<u8>) -> int {
    pos + written(text, room(dst, pos))
}

/// The contents of a destination that held `dst`, after `text` was written
/// at the cursor `pos` and cut off at the destination's end.
pub open spec fn placed(dst: Seq<u8>, pos: int, text: Seq<u8>) -> Seq<u8> {
    dst.take(pos) + rendered(dst.skip(pos), text)
}

/// Writing at cursor 0 is writing into the whole destination.
pub proof fn lemma_placed_at_start(dst: Seq<u8>, text: Seq<u8>)
    ensures
        placed(dst, 0, text) == rendered(dst, text),
        advanced(dst, 0, text) == written(text, dst.len()),
{
    assert(dst.skip(0) =~= dst);
    assert(dst.take(0) + rendered(dst, text) =~= rendered(dst, text));
}

/// Writing nothing leaves the destination and the cursor as they were.
pub proof fn lemma_placed_nothing(dst: Seq<u8>, pos: int)
    requires
        0 <= pos <= dst.len(),
    ensures
        placed(dst, pos, Seq::<u8>::empty()) == dst,
        advanced(dst, pos, Seq::<u8>::empty()) == pos,
{
    assert(placed(dst, pos, Seq::<u8>::empty()) =~= dst);
}

/// Writing `a` and then `b` where `a` ended is writing `a + b`.
pub proof fn lemma_placed_concat(dst: Seq<u8>, pos: int, a: Seq<u8>, b: Seq<u8>)
    requires
        0 <= pos <= dst.len(),
    ensures
        placed(placed(dst, pos, a), advanced(dst, pos, a), b) == placed(dst, pos, a + b),
        advanced(placed(dst, pos, a), advanced(dst, pos, a), b) == advanced(dst, pos, a + b),
        placed(dst, pos, a).len() == dst.len(),
        pos <= advanced(dst, pos, a) <= dst.len(),
{
    let mid = placed(dst, pos, a);
    assert(mid.len() == dst.len());
    assert(placed(mid, advanced(dst, pos, a), b) =~= placed(dst, pos, a + b));
}

} // verus!
