use vstd::prelude::*;
use vstd::utf8::{encode_scalar, encode_utf8};
use crate::address::{address_text, Address};
use crate::boolean::boolean_text;
use crate::bytes::{put_terminated, terminated};
use crate::cursor::{put_byte, put_bytes};
use crate::decimal::{decimal, signed_decimal};
use crate::model::{advanced, placed, lemma_placed_at_start, lemma_placed_concat};
use crate::option::{none_text, some_text};
use crate::traits::{append, ToText};

verus! {

/// One value of the closed set of values that have a text.
#[derive(Clone, Copy, Debug)]
pub enum Value<'a> {
    /// A signed 32-bit integer, in decimal.
    I32(i32),
    /// An unsigned 8-bit integer, in decimal.
    U8(u8),
    /// An unsigned 32-bit integer, in decimal.
    U32(u32),
    /// An unsigned 64-bit integer, in decimal.
    U64(u64),
    /// An unsigned integer of the machine's word size, in decimal.
    Usize(usize),
    /// A machine address, in hexadecimal behind `0x`.
    Address(Address),
    /// A boolean, as the word `true` or `false`.
    Bool(bool),
    /// A character, as its UTF-8 bytes.
    Char(char),
    /// A byte sequence, up to and with its first zero byte.
    Bytes(&'a [u8]),
    /// A string, as its bytes.
    Str(&'a str),
    /// A value that may be absent: `Some(..)` around its text, or `None`.
    Optional(Option<&'a Value<'a>>),
    /// Another value, whose text this one shares.
    Reference(&'a Value<'a>),
}

/// The whole text of `v`.
pub open spec fn value_text(v: Value) -> Seq<u8>
    decreases v,
{
    match v {
        Value::I32(x) => signed_decimal(x as int),
        Value::U8(x) => decimal(x as nat),
        Value::U32(x) => decimal(x as nat),
        Value::U64(x) => decimal(x as nat),
        Value::Usize(x) => decimal(x as nat),
        Value::Address(a) => address_text(a.0 as nat),
        Value::Bool(b) => boolean_text(b),
        Value::Char(c) => encode_scalar(c as u32),
        Value::Bytes(s) => terminated(s@),
        Value::Str(s) => encode_utf8(s@),
        Value::Optional(Some(inner)) => some_text(value_text(*inner)),
        Value::Optional(None) => none_text(),
        Value::Reference(inner) => value_text(*inner),
    }
}

/// Writes the text of `v` at the cursor `pos` and returns the cursor behind
/// what was written.
pub(crate) fn put_value(dst: &mut [u8], pos: usize, v: &Value) -> (next: usize)
    requires
        pos <= old(dst)@.len(),
    ensures
        next == advanced(old(dst)@, pos as int, value_text(*v)),
        final(dst)@ == placed(old(dst)@, pos as int, value_text(*v)),
    decreases v,
{
    match v {
        Value::I32(x) => append(dst, pos, x),
        Value::U8(x) => append(dst, pos, x),
        Value::U32(x) => append(dst, pos, x),
        Value::U64(x) => append(dst, pos, x),
        Value::Usize(x) => append(dst, pos, x),
        Value::Address(a) => append(dst, pos, a),
        Value::Bool(b) => append(dst, pos, b),
        Value::Char(c) => append(dst, pos, c),
        Value::Bytes(s) => put_terminated(dst, pos, s),
        Value::Str(s) => append(dst, pos, s),
        Value::Optional(Some(inner)) => {
            let open: [u8; 5] = [0x53, 0x6f, 0x6d, 0x65, 0x28];
            let mut at = put_bytes(dst, pos, &open);
            at = put_value(dst, at, inner);
            at = put_byte(dst, at, 0x29);
            proof {
                lemma_placed_concat(old(dst)@, pos as int, open@, value_text(**inner));
                lemma_placed_concat(
                    old(dst)@,
                    pos as int,
                    open@ + value_text(**inner),
                    seq![0x29u8],
                );
                assert(open@ =~= seq![0x53u8, 0x6fu8, 0x6du8, 0x65u8, 0x28u8]);
            }
            at
        },
        Value::Optional(None) => {
            let none: [u8; 4] = [0x4e, 0x6f, 0x6e, 0x65];
            assert(none@ =~= none_text());
            put_bytes(dst, pos, &none)
        },
        Value::Reference(inner) => put_value(dst, pos, inner),
    }
}

impl<'a> ToText for Value<'a> {
    open spec fn text(&self) -> Seq<u8> {
        value_text(*self)
    }

    /// Writes the text that the value's kind gives it.
    fn to_text(&self, buf: &mut [u8]) -> (n: usize) {
        proof {
            lemma_placed_at_start(buf@, self.text());
        }
        put_value(buf, 0, self)
    }
}

} // verus!
