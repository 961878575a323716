use vstd::prelude::*;
use crate::model::{advanced, placed, rendered, written, lemma_placed_at_start, lemma_placed_concat, lemma_placed_nothing};
use crate::traits::append;
use crate::value::{value_text, Value};

verus! {

/// The texts of `values`, one behind the other, with nothing between them.
pub open spec fn composed_text(values: Seq<Value>) -> Seq<u8>
    decreases values.len(),
{
    if values.len() == 0 {
        Seq::empty()
    } else {
        composed_text(values.drop_last()) + value_text(values.last())
    }
}

/// The text of two lists, one behind the other, is the text of the first
/// and then the text of the second: nothing is reordered and nothing
/// stands between two values.
pub proof fn lemma_composed_text_concat(a: Seq<Value>, b: Seq<Value>)
    ensures
        composed_text(a + b) == composed_text(a) + composed_text(b),
    decreases b.len(),
{
    if b.len() == 0 {
        assert(a + b =~= a);
        assert(composed_text(a) + composed_text(b) =~= composed_text(a));
    } else {
        lemma_composed_text_concat(a, b.drop_last());
        assert((a + b).drop_last() =~= a + b.drop_last());
        assert((a + b).last() == b.last());
        assert(composed_text(a) + (composed_text(b.drop_last()) + value_text(b.last()))
            =~= (composed_text(a) + composed_text(b.drop_last())) + value_text(b.last()));
    }
}

/// Composing a list is composing its first part and then writing its
/// second part where the first ended; the cursor only moves forward and
/// never leaves the destination.
pub proof fn lemma_compose_in_parts(dst: Seq<u8>, a: Seq<Value>, b: Seq<Value>)
    ensures
        written(composed_text(a), dst.len()) <= written(composed_text(a + b), dst.len())
            <= dst.len(),
        rendered(dst, composed_text(a + b)) == placed(
            rendered(dst, composed_text(a)),
            written(composed_text(a), dst.len()) as int,
            composed_text(b),
        ),
        written(composed_text(a + b), dst.len()) == advanced(
            rendered(dst, composed_text(a)),
            written(composed_text(a), dst.len()) as int,
            composed_text(b),
        ),
{
    lemma_composed_text_concat(a, b);
    lemma_placed_concat(dst, 0, composed_text(a), composed_text(b));
    lemma_placed_at_start(dst, composed_text(a));
    lemma_placed_at_start(dst, composed_text(a + b));
}

/// Writes the texts of `values` into `dst` in their order, each where the
/// one before it ended, cut off at the end of `dst`, and returns the number
/// of bytes written.
pub fn compose(dst: &mut [u8], values: &[Value]) -> (total: usize)
    ensures
        total == written(composed_text(values@), old(dst)@.len()),
        total <= old(dst)@.len(),
        final(dst)@ == rendered(old(dst)@, composed_text(values@)),
{
    let mut pos: usize = 0;
    let mut i: usize = 0;
    proof {
        lemma_placed_nothing(old(dst)@, 0);
        assert(values@.take(0) =~= Seq::<Value>::empty());
    }
    while i < values.len()
        invariant
            i <= values@.len(),
            dst@.len() == old(dst)@.len(),
            pos == advanced(old(dst)@, 0, composed_text(values@.take(i as int))),
            dst@ == placed(old(dst)@, 0, composed_text(values@.take(i as int))),
        decreases values@.len() - i,
    {
        proof {
            let before = values@.take(i as int);
            let with = values@.take(i + 1);
            assert(with.drop_last() =~= before);
            assert(with.last() == values@[i as int]);
            lemma_placed_concat(old(dst)@, 0, composed_text(before), value_text(values@[i as int]));
        }
        pos = append(dst, pos, &values[i]);
        i += 1;
    }
    proof {
        assert(values@.take(i as int) =~= values@);
        lemma_placed_at_start(old(dst)@, composed_text(values@));
    }
    pos
}

} // verus!
