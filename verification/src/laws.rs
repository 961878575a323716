//! What holds of every writing. `to_text` leaves `rendered(dst, text)` in a
//! destination that held `dst` and returns `written(text, dst.len())`, so
//! what is proved here of these two holds of the text of every value.

use vstd::prelude::*;
use crate::model::{rendered, written};

verus! {

/// A destination of `capacity` zero bytes.
pub open spec fn zeroed(capacity: nat) -> Seq<u8> {
    Seq::new(capacity, |i: int| 0u8)
}

/// Writing never goes past the destination: the count is at most the
/// capacity, the destination keeps its length, the bytes counted are the
/// first bytes of the text, and every byte behind them is as it was.
pub proof fn lemma_within_capacity(dst: Seq<u8>, text: Seq<u8>)
    ensures
        written(text, dst.len()) <= dst.len(),
        written(text, dst.len()) <= text.len(),
        rendered(dst, text).len() == dst.len(),
        forall|i: int| 0 <= i < written(text, dst.len()) ==> rendered(dst, text)[i] == text[i],
        forall|i: int| written(text, dst.len()) <= i < dst.len() ==> rendered(dst, text)[i] == dst[i],
{
}

/// The count falls short of the text exactly when the text was cut off.
pub proof fn lemma_truncation_shows(dst: Seq<u8>, text: Seq<u8>)
    ensures
        written(text, dst.len()) < text.len() <==> dst.len() < text.len(),
        written(text, dst.len()) == text.len() <==> text.len() <= dst.len(),
{
}

/// An empty destination takes no byte of any text.
pub proof fn lemma_empty_destination(text: Seq<u8>)
    ensures
        written(text, 0) == 0,
        rendered(Seq::<u8>::empty(), text) == Seq::<u8>::empty(),
{
    assert(rendered(Seq::<u8>::empty(), text) =~= Seq::<u8>::empty());
}

/// Writing the same text again into a zeroed destination of the same or a
/// larger capacity gives the same bytes as far as the first writing went,
/// and the same count where the capacity is the same or the first writing
/// was not cut off.
pub proof fn lemma_rewriting_reproduces(text: Seq<u8>, first: nat, second: nat)
    requires
        first <= second,
    ensures
        written(text, first) <= written(text, second),
        rendered(zeroed(second), text).take(written(text, first) as int) == rendered(
            zeroed(first),
            text,
        ).take(written(text, first) as int),
        first == second ==> rendered(zeroed(second), text) == rendered(zeroed(first), text),
        first == second || text.len() <= first <==> written(text, second) == written(text, first),
{
    let n = written(text, first) as int;
    assert(rendered(zeroed(second), text).take(n) =~= rendered(zeroed(first), text).take(n));
}

} // verus!
