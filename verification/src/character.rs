use vstd::prelude::*;
use vstd::utf8::encode_scalar;
use crate::model::{advanced, placed, lemma_placed_at_start, lemma_placed_concat, lemma_placed_nothing};
use crate::cursor::put_byte;
use crate::traits::ToText;

verus! {

/// Writes the UTF-8 bytes of `c` to the front of `scratch` and returns how
/// many they are.
pub(crate) fn encode_char(c: char, scratch: &mut [u8; 4]) -> (len: usize)
    ensures
        1 <= len <= 4,
        len == encode_scalar(c as u32).len(),
        final(scratch)@.take(len as int) == encode_scalar(c as u32),
{
    let code: u32 = c as u32;
    if code <= 0x7F {
        scratch[0] = #[verifier::truncate] ((code & 0x7F) as u8);
        assert(scratch@.take(1) =~= encode_scalar(code));
        1
    } else if code <= 0x7FF {
        scratch[0] = 0xC0 | #[verifier::truncate] (((code >> 6) & 0x1F) as u8);
        scratch[1] = 0x80 | #[verifier::truncate] ((code & 0x3F) as u8);
        assert(scratch@.take(2) =~= encode_scalar(code));
        2
    } else if code <= 0xFFFF {
        scratch[0] = 0xE0 | #[verifier::truncate] (((code >> 12) & 0x0F) as u8);
        scratch[1] = 0x80 | #[verifier::truncate] (((code >> 6) & 0x3F) as u8);
        scratch[2] = 0x80 | #[verifier::truncate] ((code & 0x3F) as u8);
        assert(scratch@.take(3) =~= encode_scalar(code));
        3
    } else {
        scratch[0] = 0xF0 | #[verifier::truncate] (((code >> 18) & 0x7) as u8);
        scratch[1] = 0x80 | #[verifier::truncate] (((code >> 12) & 0x3F) as u8);
        scratch[2] = 0x80 | #[verifier::truncate] (((code >> 6) & 0x3F) as u8);
        scratch[3] = 0x80 | #[verifier::truncate] ((code & 0x3F) as u8);
        assert(scratch@.take(4) =~= encode_scalar(code));
        4
    }
}

impl ToText for char {
    open spec fn text(&self) -> Seq<u8> {
        encode_scalar(*self as u32)
    }

    /// Writes the UTF-8 bytes of the character, one to four.
    ///
    /// A destination that ends inside the character takes the bytes that
    /// fit, as it does of every other text: what it then holds is no whole
    /// character, and the count shows it.
    fn to_text(&self, buf: &mut [u8]) -> (n: usize) {
        let mut scratch = [0u8; 4];
        let len = encode_char(*self, &mut scratch);
        let ghost bytes = self.text();
        let mut pos: usize = 0;
        let mut i: usize = 0;
        proof {
            lemma_placed_nothing(old(buf)@, 0);
        }
        while i < len
            invariant
                i <= len <= 4,
                len == bytes.len(),
                scratch@.take(len as int) == bytes,
                buf@.len() == old(buf)@.len(),
                pos == advanced(old(buf)@, 0, bytes.take(i as int)),
                buf@ == placed(old(buf)@, 0, bytes.take(i as int)),
            decreases len - i,
        {
            proof {
                lemma_placed_concat(old(buf)@, 0, bytes.take(i as int), seq![scratch@[i as int]]);
                assert(scratch@[i as int] == scratch@.take(len as int)[i as int]);
                assert(bytes.take(i as int) + seq![scratch@[i as int]] =~= bytes.take(i + 1));
            }
            pos = put_byte(buf, pos, scratch[i]);
            i += 1;
        }
        proof {
            assert(bytes.take(len as int) =~= bytes);
            lemma_placed_at_start(old(buf)@, bytes);
        }
        pos
    }
}

} // verus!
