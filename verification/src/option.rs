use vstd::prelude::*;
use crate::cursor::{put_byte, put_bytes};
use crate::model::{lemma_placed_at_start, lemma_placed_concat};
use crate::traits::{append, ToText};

verus! {

/// The text of a present value whose own text is `inner`: `Some(`, the
/// inner text, `)`.
pub open spec fn some_text(inner: Seq<u8>) -> Seq<u8> {
    seq![0x53u8, 0x6fu8, 0x6du8, 0x65u8, 0x28u8] + inner + seq![0x29u8]
}

/// The text of an absent value: `None`.
pub open spec fn none_text() -> Seq<u8> {
    seq![0x4eu8, 0x6fu8, 0x6eu8, 0x65u8]
}

impl<T: ToText> ToText for Option<T> {
    open spec fn text(&self) -> Seq<u8> {
        match self {
            Some(value) => some_text(value.text()),
            None => none_text(),
        }
    }

    /// Writes `Some(`, the text of the value into what is left of the
    /// destination, and `)`; or `None`.
    ///
    /// Each part is cut off on its own, so a short destination may hold
    /// `Some(` and the start of the value without the closing bracket.
    fn to_text(&self, buf: &mut [u8]) -> (n: usize) {
        let mut pos: usize = 0;
        match self {
            Some(value) => {
                let open: [u8; 5] = [0x53, 0x6f, 0x6d, 0x65, 0x28];
                pos = put_bytes(buf, pos, &open);
                pos = append(buf, pos, value);
                pos = put_byte(buf, pos, 0x29);
                proof {
                    lemma_placed_concat(old(buf)@, 0, open@, value.text());
                    lemma_placed_concat(old(buf)@, 0, open@ + value.text(), seq![0x29u8]);
                    lemma_placed_at_start(old(buf)@, self.text());
                    assert(open@ =~= seq![0x53u8, 0x6fu8, 0x6du8, 0x65u8, 0x28u8]);
                }
            },
            None => {
                let none: [u8; 4] = [0x4e, 0x6f, 0x6e, 0x65];
                pos = put_bytes(buf, pos, &none);
                proof {
                    lemma_placed_at_start(old(buf)@, self.text());
                    assert(none@ =~= none_text());
                }
            },
        }
        pos
    }
}

} // verus!
