//! Big-endian reader and writer for Distant Horizons payloads.
//!
//! Integers are in network byte order, booleans take one byte, and strings are a
//! two-byte length followed by UTF-8.

use crate::bytes::{
    be_bytes, be_value, get_be, lemma_be_round_trip,
    lemma_pow256_values, push_be, push_slice, signed_32, twos_complement_32, twos_complement_64,
    unsigned_32, unsigned_64,
};
use crate::text::string_from_utf8;
use vstd::prelude::*;
use vstd::slice::{slice_subrange, slice_to_vec};
use vstd::utf8::{decode_utf8, encode_utf8, valid_utf8};

verus! {

/// The wire form of a boolean.
pub open spec fn bool_bytes(value: bool) -> Seq<u8> {
    seq![if value { 1u8 } else { 0u8 }]
}

/// The wire form of a 32-bit integer.
pub open spec fn i32_bytes(value: i32) -> Seq<u8> {
    be_bytes(twos_complement_32(value as int), 4)
}

/// The wire form of a 64-bit integer.
pub open spec fn i64_bytes(value: i64) -> Seq<u8> {
    be_bytes(twos_complement_64(value as int), 8)
}

/// The wire form of a text.
pub open spec fn string_bytes(value: Seq<char>) -> Seq<u8> {
    be_bytes(encode_utf8(value).len(), 2) + encode_utf8(value)
}

/// Collects the bytes of a message.
pub struct Writer {
    buf: Vec<u8>,
}

impl View for Writer {
    type V = Seq<u8>;

    closed spec fn view(&self) -> Seq<u8> {
        self.buf@
    }
}

impl Writer {
    /// A writer that holds nothing.
    pub fn new() -> (w: Self)
        ensures
            w@ == Seq::<u8>::empty(),
    {
        Self { buf: Vec::new() }
    }

    pub fn write_bool(&mut self, value: bool)
        ensures
            final(self)@ == old(self)@ + bool_bytes(value),
    {
        self.buf.push(if value { 1 } else { 0 });
        assert(self@ =~= old(self)@ + bool_bytes(value));
    }

    pub fn write_i32(&mut self, value: i32)
        ensures
            final(self)@ == old(self)@ + i32_bytes(value),
    {
        push_be(&mut self.buf, unsigned_32(value) as u128, 4);
    }

    pub fn write_i64(&mut self, value: i64)
        ensures
            final(self)@ == old(self)@ + i64_bytes(value),
    {
        push_be(&mut self.buf, unsigned_64(value) as u128, 8);
    }

    /// Writes a text of at most 65535 encoded bytes.
    pub fn write_string(&mut self, value: &str)
        requires
            encode_utf8(value@).len() <= u16::MAX,
        ensures
            final(self)@ == old(self)@ + string_bytes(value@),
    {
        let bytes = value.as_bytes();
        push_be(&mut self.buf, bytes.len() as u128, 2);
        push_slice(&mut self.buf, bytes);
        assert(self@ =~= old(self)@ + string_bytes(value@));
    }

    /// The bytes written so far.
    pub fn into_vec(self) -> (v: Vec<u8>)
        ensures
            v@ == self@,
    {
        self.buf
    }
}

/// Reads values from the front of a message.
pub struct Reader<'a> {
    data: &'a [u8],
    pos: usize,
}

impl<'a> View for Reader<'a> {
    type V = Seq<u8>;

    /// The bytes that have not been read.
    closed spec fn view(&self) -> Seq<u8> {
        self.data@.skip(self.pos as int)
    }
}

/// What reading a text from the front of `input` gives, and what is left then. A
/// length prefix is consumed even where the text behind it is missing, and a text
/// that is not UTF-8 is consumed whole.
pub open spec fn string_read(input: Seq<u8>) -> (Option<Seq<char>>, Seq<u8>) {
    if input.len() < 2 {
        (None, input)
    } else {
        let len = be_value(input.take(2)) as int;
        let rest = input.skip(2);
        if rest.len() < len {
            (None, rest)
        } else if valid_utf8(rest.take(len)) {
            (Some(decode_utf8(rest.take(len))), rest.skip(len))
        } else {
            (None, rest.skip(len))
        }
    }
}

impl<'a> Reader<'a> {
    #[verifier::type_invariant]
    closed spec fn in_bounds(self) -> bool {
        self.pos <= self.data@.len()
    }

    /// A reader at the start of `data`.
    pub fn new(data: &'a [u8]) -> (r: Self)
        ensures
            r@ == data@,
    {
        assert(data@.skip(0) =~= data@);
        Self { data, pos: 0 }
    }

    /// The next `count` bytes, or nothing where fewer are left.
    fn take(&mut self, count: usize) -> (r: Option<&'a [u8]>)
        ensures
            r is Some <==> old(self)@.len() >= count,
            r matches Some(s) ==> s@ == old(self)@.take(count as int) && final(self)@ == old(
                self,
            )@.skip(count as int),
            r is None ==> final(self)@ == old(self)@,
    {
        proof {
            use_type_invariant(&*self);
        }
        if count > self.data.len() - self.pos {
            return None;
        }
        let slice = slice_subrange(self.data, self.pos, self.pos + count);
        assert(slice@ =~= old(self)@.take(count as int));
        self.pos = self.pos + count;
        assert(self@ =~= old(self)@.skip(count as int));
        Some(slice)
    }

    /// An unsigned 16-bit integer, where two bytes are left.
    pub fn read_u16(&mut self) -> (r: Option<u16>)
        ensures
            r is Some <==> old(self)@.len() >= 2,
            r matches Some(v) ==> v == be_value(old(self)@.take(2)) && final(self)@ == old(
                self,
            )@.skip(2),
            r is None ==> final(self)@ == old(self)@,
    {
        let bytes = self.take(2)?;
        let value: u128 = get_be(bytes);
        proof {
            lemma_pow256_values();
        }
        Some(value as u16)
    }

    /// A signed 32-bit integer, where four bytes are left.
    pub fn read_i32(&mut self) -> (r: Option<i32>)
        ensures
            r is Some <==> old(self)@.len() >= 4,
            r matches Some(v) ==> twos_complement_32(v as int) == be_value(old(self)@.take(4))
                && final(self)@ == old(self)@.skip(4),
            r is None ==> final(self)@ == old(self)@,
    {
        let bytes = self.take(4)?;
        let value: u128 = get_be(bytes);
        proof {
            lemma_pow256_values();
        }
        Some(signed_32(value as u32))
    }

    /// A boolean, where a byte is left: any byte but zero is true.
    pub fn read_bool(&mut self) -> (r: Option<bool>)
        ensures
            r is Some <==> old(self)@.len() >= 1,
            r matches Some(v) ==> v == (old(self)@[0] != 0) && final(self)@ == old(self)@.skip(1),
            r is None ==> final(self)@ == old(self)@,
    {
        let bytes = self.take(1)?;
        Some(bytes[0] != 0)
    }

    /// A text with its length prefix.
    pub fn read_string(&mut self) -> (r: Option<String>)
        ensures
            (match r {
                Some(s) => Some(s@),
                None => None::<Seq<char>>,
            }, final(self)@) == string_read(old(self)@),
    {
        let length: usize = self.read_u16()? as usize;
        let bytes = self.take(length)?;
        let text = string_from_utf8(slice_to_vec(bytes));
        proof {
            if text is Some {
                vstd::utf8::encode_utf8_decode_utf8(text->0@);
            }
        }
        text
    }
}

/// Reading a text gives back the text that was written in front of any other bytes.
pub proof fn law_string_round_trip(text: Seq<char>, rest: Seq<u8>)
    requires
        encode_utf8(text).len() <= u16::MAX,
    ensures
        string_read(string_bytes(text) + rest) == (Some(text), rest),
{
    let encoded = encode_utf8(text);
    let input = string_bytes(text) + rest;
    lemma_pow256_values();
    lemma_be_round_trip(encoded.len(), 2);
    crate::bytes::lemma_be_len(encoded.len(), 2);
    assert(input.take(2) =~= be_bytes(encoded.len(), 2));
    assert(input.skip(2).take(encoded.len() as int) =~= encoded);
    assert(input.skip(2).skip(encoded.len() as int) =~= rest);
    vstd::utf8::encode_utf8_valid_utf8(text);
    vstd::utf8::encode_utf8_decode_utf8(text);
}

/// Reading a 32-bit integer gives back the integer that was written.
pub proof fn law_i32_round_trip(value: i32, rest: Seq<u8>)
    ensures
        (i32_bytes(value) + rest).len() >= 4,
        be_value((i32_bytes(value) + rest).take(4)) == twos_complement_32(value as int),
        (i32_bytes(value) + rest).skip(4) == rest,
{
    lemma_pow256_values();
    lemma_be_round_trip(twos_complement_32(value as int), 4);
    crate::bytes::lemma_be_len(twos_complement_32(value as int), 4);
    assert((i32_bytes(value) + rest).take(4) =~= i32_bytes(value));
    assert((i32_bytes(value) + rest).skip(4) =~= rest);
}

/// A flag is one byte, and numbers are four or eight, most significant first; a negative number
/// begins with a byte whose top bit is set.
pub proof fn law_numbers_are_in_network_order(flag: bool, a: i32, b: i64)
    ensures
        bool_bytes(flag).len() == 1,
        bool_bytes(flag)[0] != 0 <==> flag,
        i32_bytes(a).len() == 4,
        i64_bytes(b).len() == 8,
        (be_value(i32_bytes(a)) - a) % 0x1_0000_0000 == 0,
        (be_value(i64_bytes(b)) - b) % 0x1_0000_0000_0000_0000 == 0,
{
    lemma_pow256_values();
    crate::bytes::lemma_be_len(twos_complement_32(a as int), 4);
    crate::bytes::lemma_be_len(twos_complement_64(b as int), 8);
    lemma_be_round_trip(twos_complement_32(a as int), 4);
    lemma_be_round_trip(twos_complement_64(b as int), 8);
}

} // verus!
