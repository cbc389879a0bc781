//! A Java client's answer to a resource pack during its configuration.

use super::serial::{
    java_var_int, java_var_int_bytes, push_java_var_int, read_java_var_int, ByteReader,
    PacketRead, ReadError, VarUInt,
};
use super::uuid::{get_uuid, java_bytes, java_parsed, write_uuid};
use crate::bytes::twos_complement_32;
use crate::net::resource_pack::{response_of, ResourcePackResponseResult};
use crate::net::version::{JavaMinecraftVersion, V_1_10, V_1_20_3};
use vstd::prelude::*;
use vstd::slice::slice_to_vec;
use vstd::utf8::{decode_utf8, valid_utf8};

verus! {

/// The longest hash that old versions send, in characters.
pub const MAX_HASH_CHARS: usize = 40;

/// Says how an offered pack fared.
#[derive(Clone, Copy, Debug, PartialEq, Eq, Structural)]
pub struct SConfigResourcePack {
    /// The pack, or zero where the version does not say.
    pub uuid: u128,
    /// The number of the answer.
    pub result: i32,
}

/// How many bytes a bounded Java text takes at the front of `input`: its length in
/// groups of seven bits, then its bytes. It has at most `max` characters.
pub open spec fn bounded_text(input: Seq<u8>, max: nat) -> Result<int, ReadError> {
    match VarUInt::parsed(input) {
        Err(e) => Err(e),
        Ok((len, n)) => if len > 4 * max {
            Err(ReadError::TextTooLong)
        } else if input.len() - n < len {
            Err(ReadError::UnexpectedEof)
        } else if !valid_utf8(input.subrange(n, n + len)) {
            Err(ReadError::InvalidText)
        } else if decode_utf8(input.subrange(n, n + len)).len() > max {
            Err(ReadError::TextTooLong)
        } else {
            Ok(n + len)
        },
    }
}

/// Reads a bounded Java text and drops it.
fn skip_bounded_text(reader: &mut ByteReader, max: u32) -> (r: Result<(), ReadError>)
    requires
        max <= 1_000_000,
    ensures
        match bounded_text(old(reader)@, max as nat) {
            Ok(n) => r is Ok && 0 <= n <= old(reader)@.len() && final(reader)@ == old(reader)@.skip(
                n,
            ),
            Err(e) => r is Err && r->Err_0 == e,
        },
{
    let ghost start = reader@;
    let len: u32 = match VarUInt::read(reader) {
        Err(e) => return Err(e),
        Ok(v) => v.0,
    };
    let ghost n = VarUInt::parsed(start)->Ok_0.1;
    if len > 4 * max {
        return Err(ReadError::TextTooLong);
    }
    let bytes = match reader.take(len as usize) {
        Err(e) => return Err(e),
        Ok(bytes) => bytes,
    };
    assert(bytes@ =~= start.subrange(n, n + len));
    assert(reader@ =~= start.skip(n + len));
    match crate::text::string_from_utf8(slice_to_vec(bytes)) {
        None => Err(ReadError::InvalidText),
        Some(text) => {
            proof {
                vstd::utf8::encode_utf8_decode_utf8(text@);
            }
            let chars = crate::text::chars_of(text.as_str());
            if chars.len() > max as usize {
                return Err(ReadError::TextTooLong);
            }
            Ok(())
        },
    }
}

/// How many bytes of `input` precede the answer's number, and the pack that they name.
/// New versions name the pack; the oldest repeat its hash.
pub open spec fn answer_head(input: Seq<u8>, version: JavaMinecraftVersion) -> Result<
    (u128, int),
    ReadError,
> {
    let head = if version >= V_1_20_3 {
        java_parsed(input)
    } else {
        Ok((0u128, 0int))
    };
    match head {
        Err(e) => Err(e),
        Ok((uuid, n)) => if version < V_1_10 {
            match bounded_text(input.skip(n), MAX_HASH_CHARS as nat) {
                Err(e) => Err(e),
                Ok(m) => Ok((uuid, n + m)),
            }
        } else {
            Ok((uuid, n))
        },
    }
}

impl SConfigResourcePack {
    /// Reads the packet of a version.
    pub fn read(reader: &mut ByteReader, version: JavaMinecraftVersion) -> (r: Result<
        Self,
        ReadError,
    >)
        ensures
            match answer_head(old(reader)@, version) {
                Err(e) => r == Err::<Self, ReadError>(e),
                Ok((uuid, n)) => match java_var_int(old(reader)@.skip(n)) {
                    Err(e) => r == Err::<Self, ReadError>(e),
                    Ok((result, m)) => {
                        &&& r is Ok
                        &&& r->Ok_0.uuid == uuid
                        &&& twos_complement_32(r->Ok_0.result as int) == result
                        &&& final(reader)@ == old(reader)@.skip(n + m)
                    },
                },
            },
    {
        let ghost start = reader@;
        let uuid: u128 = if version >= V_1_20_3 {
            match get_uuid(reader) {
                Err(e) => return Err(e),
                Ok(id) => id,
            }
        } else {
            0
        };
        let ghost n = if version >= V_1_20_3 {
            16int
        } else {
            0int
        };
        assert(reader@ =~= start.skip(n));
        if version < V_1_10 {
            match skip_bounded_text(reader, 40) {
                Err(e) => return Err(e),
                Ok(()) => {},
            }
        }
        let ghost m = answer_head(start, version)->Ok_0.1;
        assert(reader@ =~= start.skip(m));
        match read_java_var_int(reader) {
            Err(e) => Err(e),
            Ok(result) => {
                proof {
                    let k = java_var_int(start.skip(m))->Ok_0.1;
                    assert(start.skip(m).skip(k) =~= start.skip(m + k));
                }
                Ok(SConfigResourcePack { uuid, result })
            },
        }
    }

    pub open spec fn bytes(self) -> Seq<u8> {
        java_bytes(self.uuid) + java_var_int_bytes(self.result)
    }

    /// Writes the packet as new versions send it.
    pub fn write_packet_data(&self, out: &mut Vec<u8>)
        ensures
            final(out)@ == old(out)@ + self.bytes(),
    {
        write_uuid(self.uuid, out);
        push_java_var_int(out, self.result);
        assert(out@ =~= old(out)@ + self.bytes());
    }

    /// The answer that the number stands for.
    pub fn response_result(&self) -> (r: ResourcePackResponseResult)
        ensures
            r == response_of(self.result),
    {
        ResourcePackResponseResult::from_id(self.result)
    }
}

/// What is written is read back as it was, in every version that names the pack.
pub proof fn law_answer_round_trip(packet: SConfigResourcePack, version: JavaMinecraftVersion)
    requires
        version >= V_1_20_3,
    ensures
        answer_head(packet.bytes(), version) == Ok::<(u128, int), ReadError>((packet.uuid, 16)),
        java_var_int(packet.bytes().skip(16)) matches Ok((u, n)) && u == twos_complement_32(
            packet.result as int,
        ) && 16 + n == packet.bytes().len(),
{
    let tail = java_var_int_bytes(packet.result);
    let value = twos_complement_32(packet.result as int);
    super::uuid::law_java_round_trip(packet.uuid, tail);
    super::serial::lemma_pow128_values();
    super::serial::law_leb_round_trip(value, 5, Seq::empty());
    assert(packet.bytes().skip(16) =~= tail);
    assert(tail + Seq::<u8>::empty() =~= tail);
}

/// Clients from 1.20.3 on name their pack, older ones name none, and those before 1.10 send a
/// hash of at most forty characters in front of the answer.
pub proof fn law_old_answers_name_no_pack(input: Seq<u8>, version: JavaMinecraftVersion)
    ensures
        version >= 1_020_003 && input.len() >= 16 ==> answer_head(input, version) == java_parsed(
            input,
        ),
        1_010_000 <= version < 1_020_003 ==> answer_head(input, version) == Ok::<
            (u128, int),
            ReadError,
        >((0u128, 0int)),
        version < 1_010_000 ==> match bounded_text(input, 40) {
            Ok(n) => answer_head(input, version) == Ok::<(u128, int), ReadError>((0u128, n)),
            Err(e) => answer_head(input, version) == Err::<(u128, int), ReadError>(e),
        },
{
    assert(input.skip(0) =~= input);
}

/// A bounded text is taken just where it has no more characters than it may: its length and its
/// bytes are then read over, whatever follows. One that is cut off is missed.
pub proof fn law_bounded_texts_are_read_over(text: Seq<char>, rest: Seq<u8>, max: nat)
    requires
        vstd::utf8::encode_utf8(text).len() <= u32::MAX,
    ensures
        ({
            let bytes = super::serial::text_bytes(text);
            &&& text.len() <= max ==> bounded_text(bytes + rest, max) == Ok::<int, ReadError>(
                bytes.len() as int,
            )
            &&& text.len() > max ==> bounded_text(bytes + rest, max) == Err::<int, ReadError>(
                ReadError::TextTooLong,
            )
            &&& text.len() <= max && text.len() > 0 ==> bounded_text(bytes.drop_last(), max)
                == Err::<int, ReadError>(ReadError::UnexpectedEof)
        }),
{
    let body = vstd::utf8::encode_utf8(text);
    let head = super::serial::leb_bytes(body.len());
    let n = head.len() as int;
    let all = head + body + rest;
    crate::text::lemma_utf8_len_is_encoded_len(text);
    super::serial::law_packet_numbers_are_read_back(body.len() as u32, 0, 0, body + rest);
    assert(head + (body + rest) =~= all);
    assert(all.subrange(n, n + body.len()) =~= body);
    vstd::utf8::encode_utf8_valid_utf8(text);
    vstd::utf8::encode_utf8_decode_utf8(text);
    if text.len() > 0 {
        let cut = super::serial::text_bytes(text).drop_last();
        assert(body.len() > 0);
        assert(cut =~= head + body.drop_last());
        super::serial::law_packet_numbers_are_read_back(
            body.len() as u32,
            0,
            0,
            body.drop_last(),
        );
    }
}

} // verus!
