use vstd::prelude::*;
use crate::model::lemma_placed_at_start;
use crate::cursor::put_bytes;
use crate::traits::ToText;

verus! {

/// The text of a boolean: the word `true` or the word `false`.
pub open spec fn boolean_text(b: bool) -> Seq<u8> {
    if b {
        seq![0x74u8, 0x72u8, 0x75u8, 0x65u8]
    } else {
        seq![0x66u8, 0x61u8, 0x6cu8, 0x73u8, 0x65u8]
    }
}

impl ToText for bool {
    open spec fn text(&self) -> Seq<u8> {
        boolean_text(*self)
    }

    /// Writes the word `true` or the word `false`.
    fn to_text(&self, buf: &mut [u8]) -> (n: usize) {
        let word: &[u8] = if *self {
            &[0x74, 0x72, 0x75, 0x65]
        } else {
            &[0x66, 0x61, 0x6c, 0x73, 0x65]
        };
        proof {
            assert(word@ =~= boolean_text(*self));
            lemma_placed_at_start(buf@, word@);
        }
        put_bytes(buf, 0, word)
    }
}

} // verus!
