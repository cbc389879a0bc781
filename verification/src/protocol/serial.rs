//! Reading and writing the values that packets are made of.

use crate::bytes::{get_le, le_value, push_slice, signed_32};
use crate::text::string_from_utf8;
use vstd::prelude::*;
use vstd::slice::{slice_subrange, slice_to_vec};
use vstd::utf8::{decode_utf8, encode_utf8, valid_utf8};

verus! {

/// Why a packet cannot be read.
#[derive(Clone, Copy, Debug, PartialEq, Eq, Structural)]
pub enum ReadError {
    /// The bytes end too early.
    UnexpectedEof,
    /// A number takes more bytes than its type can.
    NumberTooLong,
    /// A text is not UTF-8.
    InvalidText,
    /// A text is longer than allowed.
    TextTooLong,
    /// A field that has to be there is not: the number says which.
    Missing(u8),
    /// A transaction of an unknown type.
    UnknownTransaction(u32),
}

/// Reads from the front of a packet.
pub struct ByteReader<'a> {
    data: &'a [u8],
    pos: usize,
}

impl<'a> View for ByteReader<'a> {
    type V = Seq<u8>;

    /// The bytes that have not been read.
    closed spec fn view(&self) -> Seq<u8> {
        self.data@.skip(self.pos as int)
    }
}

impl<'a> ByteReader<'a> {
    #[verifier::type_invariant]
    closed spec fn in_bounds(self) -> bool {
        self.pos <= self.data@.len()
    }

    /// A reader at the start of a packet.
    pub fn new(data: &'a [u8]) -> (r: Self)
        ensures
            r@ == data@,
    {
        assert(data@.skip(0) =~= data@);
        ByteReader { data, pos: 0 }
    }

    /// The next `count` bytes; where fewer are left nothing is read.
    pub fn take(&mut self, count: usize) -> (r: Result<&'a [u8], ReadError>)
        ensures
            old(self)@.len() >= count ==> r is Ok && r->Ok_0@ == old(self)@.take(count as int)
                && final(self)@ == old(self)@.skip(count as int),
            old(self)@.len() < count ==> r == Err::<&'a [u8], ReadError>(ReadError::UnexpectedEof)
                && final(self)@ == old(self)@,
    {
        proof {
            use_type_invariant(&*self);
        }
        if count > self.data.len() - self.pos {
            return Err(ReadError::UnexpectedEof);
        }
        let slice = slice_subrange(self.data, self.pos, self.pos + count);
        assert(slice@ =~= old(self)@.take(count as int));
        self.pos = self.pos + count;
        assert(self@ =~= old(self)@.skip(count as int));
        Ok(slice)
    }

    /// The bytes that have not been read.
    pub fn rest(&self) -> (r: &'a [u8])
        ensures
            r@ == self@,
    {
        proof {
            use_type_invariant(self);
        }
        let r = slice_subrange(self.data, self.pos, self.data.len());
        assert(r@ =~= self@);
        r
    }
}

/// What reading gives: a value and the bytes that it takes, or an error.
pub type Parsed<M> = Result<(M, int), ReadError>;

/// A value that can be read from a packet.
pub trait PacketRead: Sized {
    /// The mathematical value.
    type Model;

    spec fn model(&self) -> Self::Model;

    /// What the front of `input` holds.
    spec fn parsed(input: Seq<u8>) -> Parsed<Self::Model>;

    /// Reads a value from the front of the reader.
    fn read(reader: &mut ByteReader) -> (r: Result<Self, ReadError>)
        ensures
            match Self::parsed(old(reader)@) {
                Ok((m, n)) => {
                    &&& r is Ok
                    &&& r->Ok_0.model() == m
                    &&& 0 <= n <= old(reader)@.len()
                    &&& final(reader)@ == old(reader)@.skip(n)
                },
                Err(e) => r is Err && r->Err_0 == e,
            },
    ;
}

impl PacketRead for u8 {
    type Model = u8;

    open spec fn model(&self) -> u8 {
        *self
    }

    open spec fn parsed(input: Seq<u8>) -> Parsed<u8> {
        if input.len() == 0 {
            Err(ReadError::UnexpectedEof)
        } else {
            Ok((input[0], 1))
        }
    }

    fn read(reader: &mut ByteReader) -> (r: Result<Self, ReadError>) {
        match reader.take(1) {
            Err(e) => Err(e),
            Ok(bytes) => Ok(bytes[0]),
        }
    }
}

impl PacketRead for bool {
    type Model = bool;

    open spec fn model(&self) -> bool {
        *self
    }

    open spec fn parsed(input: Seq<u8>) -> Parsed<bool> {
        if input.len() == 0 {
            Err(ReadError::UnexpectedEof)
        } else {
            Ok((input[0] != 0, 1))
        }
    }

    fn read(reader: &mut ByteReader) -> (r: Result<Self, ReadError>) {
        match reader.take(1) {
            Err(e) => Err(e),
            Ok(bytes) => Ok(bytes[0] != 0),
        }
    }
}

/// A number in groups of seven bits, least significant first; the top bit of each byte
/// but the last is set. At most `limit` bytes are read.
pub open spec fn leb_read(input: Seq<u8>, limit: nat) -> Parsed<nat>
    decreases limit,
{
    if limit == 0 {
        Err(ReadError::NumberTooLong)
    } else if input.len() == 0 {
        Err(ReadError::UnexpectedEof)
    } else {
        let low = (input[0] % 128) as nat;
        if input[0] < 128 {
            Ok((low, 1))
        } else {
            match leb_read(input.skip(1), (limit - 1) as nat) {
                Ok((v, n)) => Ok((low + 128 * v, n + 1)),
                Err(e) => Err(e),
            }
        }
    }
}

/// A number in groups of seven bits.
pub open spec fn leb_bytes(value: nat) -> Seq<u8>
    decreases value,
{
    if value < 128 {
        seq![value as u8]
    } else {
        seq![(value % 128 + 128) as u8] + leb_bytes(value / 128)
    }
}

/// 128 to the given power.
pub open spec fn pow128(n: nat) -> nat
    decreases n,
{
    if n == 0 {
        1
    } else {
        128 * pow128((n - 1) as nat)
    }
}

pub proof fn lemma_leb_bound(input: Seq<u8>, limit: nat)
    ensures
        leb_read(input, limit) matches Ok((v, n)) ==> v < pow128(limit) && 1 <= n <= input.len() && n
            <= limit,
    decreases limit,
{
    if limit > 0 && input.len() > 0 && input[0] >= 128 {
        lemma_leb_bound(input.skip(1), (limit - 1) as nat);
    } else if limit > 0 {
        lemma_pow128_positive((limit - 1) as nat);
    }
}

proof fn lemma_pow128_positive(n: nat)
    ensures
        pow128(n) >= 1,
    decreases n,
{
    if n > 0 {
        lemma_pow128_positive((n - 1) as nat);
    }
}

pub proof fn lemma_pow128_values()
    ensures
        pow128(5) == 0x8_0000_0000,
        pow128(10) == 0x40_0000_0000_0000_0000,
{
    reveal_with_fuel(pow128, 11);
}

/// Reading a number gives back what was written, for every number of at most `limit`
/// groups, whatever follows.
pub proof fn law_leb_round_trip(value: nat, limit: nat, rest: Seq<u8>)
    requires
        limit > 0,
        value < pow128(limit),
    ensures
        leb_read(leb_bytes(value) + rest, limit) == Ok::<(nat, int), ReadError>(
            (value, leb_bytes(value).len() as int),
        ),
    decreases limit,
{
    let input = leb_bytes(value) + rest;
    if value >= 128 {
        assert(pow128(0) == 1);
        law_leb_round_trip(value / 128, (limit - 1) as nat, rest);
        assert(input.skip(1) =~= leb_bytes(value / 128) + rest);
        assert(input[0] == (value % 128 + 128) as u8);
    }
}

/// Reads a number in groups of seven bits.
pub fn read_leb(reader: &mut ByteReader, limit: u32) -> (r: Result<u128, ReadError>)
    requires
        limit <= 10,
    ensures
        match leb_read(old(reader)@, limit as nat) {
            Ok((v, n)) => r is Ok && r->Ok_0 == v && 0 <= n <= old(reader)@.len() && final(reader)@
                == old(reader)@.skip(n),
            Err(e) => r is Err && r->Err_0 == e,
        },
    decreases limit,
{
    if limit == 0 {
        return Err(ReadError::NumberTooLong);
    }
    let ghost start = reader@;
    let byte: u8 = match reader.take(1) {
        Err(e) => return Err(e),
        Ok(bytes) => bytes[0],
    };
    let low: u128 = (byte % 128) as u128;
    if byte < 128 {
        return Ok(low);
    }
    proof {
        lemma_leb_bound(start.skip(1), (limit - 1) as nat);
        lemma_pow128_monotone((limit - 1) as nat, 10);
        lemma_pow128_values();
    }
    match read_leb(reader, limit - 1) {
        Err(e) => Err(e),
        Ok(rest) => {
            proof {
                let n = leb_read(start.skip(1), (limit - 1) as nat)->Ok_0.1;
                assert(start.skip(1).skip(n) =~= start.skip(n + 1));
            }
            Ok(low + 128 * rest)
        },
    }
}

proof fn lemma_pow128_monotone(a: nat, b: nat)
    requires
        a <= b,
    ensures
        pow128(a) <= pow128(b),
    decreases b,
{
    if a < b {
        lemma_pow128_monotone(a, (b - 1) as nat);
    }
}

/// Appends a number in groups of seven bits.
pub fn push_leb(out: &mut Vec<u8>, value: u128)
    ensures
        final(out)@ == old(out)@ + leb_bytes(value as nat),
    decreases value,
{
    if value < 128 {
        out.push(value as u8);
    } else {
        out.push((value % 128 + 128) as u8);
        push_leb(out, value / 128);
    }
    assert(out@ =~= old(out)@ + leb_bytes(value as nat));
}

/// A number of up to 32 bits in groups of seven.
#[derive(Clone, Copy, Debug, PartialEq, Eq, Structural)]
pub struct VarUInt(pub u32);

/// A number of up to 64 bits in groups of seven.
#[derive(Clone, Copy, Debug, PartialEq, Eq, Structural)]
pub struct VarULong(pub u64);

/// A signed number whose sign is its lowest bit on the wire.
#[derive(Clone, Copy, Debug, PartialEq, Eq, Structural)]
pub struct VarInt(pub i32);

/// The signed number of a number whose lowest bit is the sign.
pub open spec fn unzigzag(value: nat) -> int {
    if value % 2 == 0 {
        (value / 2) as int
    } else {
        -((value / 2) as int) - 1
    }
}

/// The number whose lowest bit is the sign of a signed number.
pub open spec fn zigzag(value: int) -> nat {
    if value >= 0 {
        (2 * value) as nat
    } else {
        (-2 * value - 1) as nat
    }
}

/// Undoing the sign encoding gives the number back.
pub proof fn law_zigzag_round_trip(value: int)
    ensures
        unzigzag(zigzag(value)) == value,
{
}

impl PacketRead for VarUInt {
    type Model = u32;

    open spec fn model(&self) -> u32 {
        self.0
    }

    /// The lowest 32 bits of at most five groups.
    open spec fn parsed(input: Seq<u8>) -> Parsed<u32> {
        match leb_read(input, 5) {
            Ok((v, n)) => Ok(((v % 0x1_0000_0000) as u32, n)),
            Err(e) => Err(e),
        }
    }

    fn read(reader: &mut ByteReader) -> (r: Result<Self, ReadError>) {
        match read_leb(reader, 5) {
            Err(e) => Err(e),
            Ok(v) => Ok(VarUInt((v % 0x1_0000_0000) as u32)),
        }
    }
}

impl PacketRead for VarULong {
    type Model = u64;

    open spec fn model(&self) -> u64 {
        self.0
    }

    /// The lowest 64 bits of at most ten groups.
    open spec fn parsed(input: Seq<u8>) -> Parsed<u64> {
        match leb_read(input, 10) {
            Ok((v, n)) => Ok(((v % 0x1_0000_0000_0000_0000) as u64, n)),
            Err(e) => Err(e),
        }
    }

    fn read(reader: &mut ByteReader) -> (r: Result<Self, ReadError>) {
        match read_leb(reader, 10) {
            Err(e) => Err(e),
            Ok(v) => Ok(VarULong((v % 0x1_0000_0000_0000_0000) as u64)),
        }
    }
}

impl PacketRead for VarInt {
    type Model = i32;

    open spec fn model(&self) -> i32 {
        self.0
    }

    /// The sign-encoded lowest 32 bits of at most five groups.
    open spec fn parsed(input: Seq<u8>) -> Parsed<i32> {
        match leb_read(input, 5) {
            Ok((v, n)) => Ok((unzigzag(v % 0x1_0000_0000) as i32, n)),
            Err(e) => Err(e),
        }
    }

    fn read(reader: &mut ByteReader) -> (r: Result<Self, ReadError>) {
        match read_leb(reader, 5) {
            Err(e) => Err(e),
            Ok(v) => {
                let u: u128 = v % 0x1_0000_0000;
                let half: i64 = (u / 2) as i64;
                if u % 2 == 0 {
                    Ok(VarInt(half as i32))
                } else {
                    Ok(VarInt((-half - 1) as i32))
                }
            },
        }
    }
}

impl VarUInt {
    pub fn write(&self, out: &mut Vec<u8>)
        ensures
            final(out)@ == old(out)@ + leb_bytes(self.0 as nat),
    {
        push_leb(out, self.0 as u128);
    }
}

impl VarULong {
    pub fn write(&self, out: &mut Vec<u8>)
        ensures
            final(out)@ == old(out)@ + leb_bytes(self.0 as nat),
    {
        push_leb(out, self.0 as u128);
    }
}

impl VarInt {
    pub fn write(&self, out: &mut Vec<u8>)
        ensures
            final(out)@ == old(out)@ + leb_bytes(zigzag(self.0 as int)),
    {
        let v: i128 = self.0 as i128;
        let u: i128 = if v >= 0 {
            2 * v
        } else {
            2 * (-v) - 1
        };
        push_leb(out, u as u128);
    }
}

/// A position or a direction, as the bits of its floating-point numbers.
#[derive(Clone, Copy, Debug, PartialEq, Eq, Structural)]
pub struct Vector3Bits {
    pub x: u32,
    pub y: u32,
    pub z: u32,
}

impl PacketRead for Vector3Bits {
    type Model = Vector3Bits;

    open spec fn model(&self) -> Vector3Bits {
        *self
    }

    open spec fn parsed(input: Seq<u8>) -> Parsed<Vector3Bits> {
        if input.len() < 12 {
            Err(ReadError::UnexpectedEof)
        } else {
            Ok(
                (
                    Vector3Bits {
                        x: le_value(input.subrange(0, 4)) as u32,
                        y: le_value(input.subrange(4, 8)) as u32,
                        z: le_value(input.subrange(8, 12)) as u32,
                    },
                    12,
                ),
            )
        }
    }

    fn read(reader: &mut ByteReader) -> (r: Result<Self, ReadError>) {
        let ghost start = reader@;
        match reader.take(12) {
            Err(e) => Err(e),
            Ok(bytes) => {
                proof {
                    crate::bytes::lemma_pow256_values();
                    assert(bytes@.subrange(0, 4) =~= start.subrange(0, 4));
                    assert(bytes@.subrange(4, 8) =~= start.subrange(4, 8));
                    assert(bytes@.subrange(8, 12) =~= start.subrange(8, 12));
                }
                Ok(
                    Vector3Bits {
                        x: get_le(slice_subrange(bytes, 0, 4)) as u32,
                        y: get_le(slice_subrange(bytes, 4, 8)) as u32,
                        z: get_le(slice_subrange(bytes, 8, 12)) as u32,
                    },
                )
            },
        }
    }
}

/// The wire form of a Bedrock text: its length, then its bytes.
pub open spec fn text_bytes(text: Seq<char>) -> Seq<u8> {
    leb_bytes(encode_utf8(text).len()) + encode_utf8(text)
}

impl PacketRead for String {
    type Model = Seq<char>;

    open spec fn model(&self) -> Seq<char> {
        self@
    }

    open spec fn parsed(input: Seq<u8>) -> Parsed<Seq<char>> {
        match VarUInt::parsed(input) {
            Err(e) => Err(e),
            Ok((len, n)) => if input.len() - n < len {
                Err(ReadError::UnexpectedEof)
            } else if !valid_utf8(input.subrange(n, n + len)) {
                Err(ReadError::InvalidText)
            } else {
                Ok((decode_utf8(input.subrange(n, n + len)), n + len))
            },
        }
    }

    fn read(reader: &mut ByteReader) -> (r: Result<Self, ReadError>) {
        let ghost start = reader@;
        let len: u32 = match VarUInt::read(reader) {
            Err(e) => return Err(e),
            Ok(v) => v.0,
        };
        let ghost n = VarUInt::parsed(start)->Ok_0.1;
        let bytes = match reader.take(len as usize) {
            Err(e) => return Err(e),
            Ok(bytes) => bytes,
        };
        assert(bytes@ =~= start.subrange(n, n + len));
        assert(reader@ =~= start.skip(n + len));
        let text = string_from_utf8(slice_to_vec(bytes));
        proof {
            if text is Some {
                vstd::utf8::encode_utf8_decode_utf8(text->0@);
            }
        }
        match text {
            Some(s) => Ok(s),
            None => Err(ReadError::InvalidText),
        }
    }
}

/// Appends a Bedrock text.
pub fn push_text(out: &mut Vec<u8>, text: &str)
    ensures
        final(out)@ == old(out)@ + text_bytes(text@),
{
    let bytes = text.as_bytes();
    push_leb(out, bytes.len() as u128);
    push_slice(out, bytes);
    assert(out@ =~= old(out)@ + text_bytes(text@));
}

/// Reading a text gives back the text that was written, whatever follows.
pub proof fn law_text_round_trip(text: Seq<char>, rest: Seq<u8>)
    requires
        encode_utf8(text).len() <= u32::MAX,
    ensures
        <String as PacketRead>::parsed(text_bytes(text) + rest) == Ok::<
            (Seq<char>, int),
            ReadError,
        >((text, text_bytes(text).len() as int)),
{
    let encoded = encode_utf8(text);
    let head = leb_bytes(encoded.len());
    let input = text_bytes(text) + rest;
    lemma_pow128_values();
    law_leb_round_trip(encoded.len(), 5, encoded + rest);
    assert(input =~= head + (encoded + rest));
    assert(input.subrange(head.len() as int, head.len() as int + encoded.len() as int) =~= encoded);
    vstd::utf8::encode_utf8_valid_utf8(text);
    vstd::utf8::encode_utf8_decode_utf8(text);
}

/// The wire form of a Java number: its 32 bits in groups of seven.
pub open spec fn java_var_int_bytes(value: i32) -> Seq<u8> {
    leb_bytes(crate::bytes::twos_complement_32(value as int))
}

/// What the front of `input` holds as a Java number. Bits above the lowest 32 are lost.
pub open spec fn java_var_int(input: Seq<u8>) -> Parsed<u32> {
    VarUInt::parsed(input)
}

/// Reads a Java number.
pub fn read_java_var_int(reader: &mut ByteReader) -> (r: Result<i32, ReadError>)
    ensures
        match java_var_int(old(reader)@) {
            Ok((u, n)) => r is Ok && crate::bytes::twos_complement_32(r->Ok_0 as int) == u && 0 <= n
                <= old(reader)@.len() && final(reader)@ == old(reader)@.skip(n),
            Err(e) => r is Err && r->Err_0 == e,
        },
{
    match VarUInt::read(reader) {
        Err(e) => Err(e),
        Ok(v) => Ok(signed_32(v.0)),
    }
}

/// Appends a Java number.
pub fn push_java_var_int(out: &mut Vec<u8>, value: i32)
    ensures
        final(out)@ == old(out)@ + java_var_int_bytes(value),
{
    push_leb(out, crate::bytes::unsigned_32(value) as u128);
}

/// The first byte of a number holds its lowest seven bits, and its top bit tells whether the
/// rest follows; a number below 128 takes one byte.
pub proof fn law_numbers_come_in_groups_of_seven(value: nat)
    ensures
        leb_bytes(value).len() >= 1,
        leb_bytes(value)[0] % 128 == value % 128,
        leb_bytes(value)[0] >= 128 <==> value >= 128,
        value < 128 ==> leb_bytes(value).len() == 1,
        value >= 128 ==> leb_bytes(value).skip(1) == leb_bytes(value / 128),
{
    if value >= 128 {
        assert(leb_bytes(value).skip(1) =~= leb_bytes(value / 128));
    }
}

/// Every number of a packet is read back as it was written, whatever follows, and takes the
/// bytes that it was written in.
pub proof fn law_packet_numbers_are_read_back(a: u32, b: u64, c: i32, rest: Seq<u8>)
    ensures
        VarUInt::parsed(leb_bytes(a as nat) + rest) == Ok::<(u32, int), ReadError>(
            (a, leb_bytes(a as nat).len() as int),
        ),
        VarULong::parsed(leb_bytes(b as nat) + rest) == Ok::<(u64, int), ReadError>(
            (b, leb_bytes(b as nat).len() as int),
        ),
        VarInt::parsed(leb_bytes(zigzag(c as int)) + rest) == Ok::<(i32, int), ReadError>(
            (c, leb_bytes(zigzag(c as int)).len() as int),
        ),
        java_var_int(java_var_int_bytes(c) + rest) matches Ok((u, n)) && n
            == java_var_int_bytes(c).len() && (u - c) % 0x1_0000_0000 == 0,
{
    lemma_pow128_values();
    law_leb_round_trip(a as nat, 5, rest);
    law_leb_round_trip(b as nat, 10, rest);
    law_leb_round_trip(zigzag(c as int), 5, rest);
    law_leb_round_trip(crate::bytes::twos_complement_32(c as int), 5, rest);
    law_zigzag_round_trip(c as int);
}

/// A signed number and its wire number: numbers of small size are small on the wire, the sign in
/// the lowest bit.
pub proof fn law_the_lowest_bit_is_the_sign(n: nat)
    ensures
        zigzag(n as int) == 2 * n,
        zigzag(-(n as int) - 1) == 2 * n + 1,
        unzigzag(2 * n) == n,
        unzigzag(2 * n + 1) == -(n as int) - 1,
{
}

/// A byte is read as it is, a flag is set by any byte but zero, and neither is read where
/// nothing is left.
pub proof fn law_bytes_and_flags_are_read(b: u8, rest: Seq<u8>)
    ensures
        u8::parsed(seq![b] + rest) == Ok::<(u8, int), ReadError>((b, 1)),
        bool::parsed(seq![b] + rest) == Ok::<(bool, int), ReadError>((b != 0, 1)),
        u8::parsed(Seq::<u8>::empty()) == Err::<(u8, int), ReadError>(ReadError::UnexpectedEof),
        bool::parsed(Seq::<u8>::empty()) == Err::<(bool, int), ReadError>(
            ReadError::UnexpectedEof,
        ),
{
}

/// A position is its three numbers one behind the other, each least significant byte first.
pub proof fn law_positions_are_three_numbers(x: u32, y: u32, z: u32, rest: Seq<u8>)
    ensures
        Vector3Bits::parsed(
            crate::bytes::le_bytes(x as nat, 4) + crate::bytes::le_bytes(y as nat, 4)
                + crate::bytes::le_bytes(z as nat, 4) + rest,
        ) == Ok::<(Vector3Bits, int), ReadError>((Vector3Bits { x, y, z }, 12)),
{
    crate::bytes::lemma_pow256_values();
    crate::bytes::lemma_le_len(x as nat, 4);
    crate::bytes::lemma_le_len(y as nat, 4);
    crate::bytes::lemma_le_len(z as nat, 4);
    crate::bytes::lemma_le_round_trip(x as nat, 4);
    crate::bytes::lemma_le_round_trip(y as nat, 4);
    crate::bytes::lemma_le_round_trip(z as nat, 4);
    let a = crate::bytes::le_bytes(x as nat, 4);
    let b = crate::bytes::le_bytes(y as nat, 4);
    let c = crate::bytes::le_bytes(z as nat, 4);
    let s = a + b + c + rest;
    assert(s.subrange(0, 4) =~= a);
    assert(s.subrange(4, 8) =~= b);
    assert(s.subrange(8, 12) =~= c);
}

} // verus!
