//! Changes of a Bedrock player's skin, in both directions.

use super::serial::{push_text, text_bytes, ByteReader, PacketRead, Parsed, ReadError};
use super::uuid::{bedrock_bytes, bedrock_parsed, read, write_bedrock};
use crate::bytes::push_slice;
use vstd::prelude::*;

verus! {

/// Tells a client of a player's new skin, which comes in its wire form.
pub struct CPlayerSkin<'a> {
    pub uuid: u128,
    pub skin: &'a [u8],
    pub new_skin_name: &'a str,
    pub old_skin_name: &'a str,
}

impl<'a> CPlayerSkin<'a> {
    pub open spec fn bytes(self) -> Seq<u8> {
        bedrock_bytes(self.uuid) + self.skin@ + text_bytes(self.new_skin_name@) + text_bytes(
            self.old_skin_name@,
        )
    }

    pub fn write(&self, out: &mut Vec<u8>)
        ensures
            final(out)@ == old(out)@ + self.bytes(),
    {
        write_bedrock(self.uuid, out);
        push_slice(out, self.skin);
        push_text(out, self.new_skin_name);
        push_text(out, self.old_skin_name);
        assert(out@ =~= old(out)@ + self.bytes());
    }
}

/// A player's new skin as a client sends it.
pub struct SPlayerSkin<S> {
    pub uuid: u128,
    pub skin: S,
    pub new_skin_name: String,
    pub old_skin_name: String,
}

pub struct SPlayerSkinModel<M> {
    pub uuid: u128,
    pub skin: M,
    pub new_skin_name: Seq<char>,
    pub old_skin_name: Seq<char>,
}

impl<S: PacketRead> PacketRead for SPlayerSkin<S> {
    type Model = SPlayerSkinModel<S::Model>;

    open spec fn model(&self) -> SPlayerSkinModel<S::Model> {
        SPlayerSkinModel {
            uuid: self.uuid,
            skin: self.skin.model(),
            new_skin_name: self.new_skin_name@,
            old_skin_name: self.old_skin_name@,
        }
    }

    /// The id, the skin, the new name and the old name, one behind the other.
    open spec fn parsed(input: Seq<u8>) -> Parsed<SPlayerSkinModel<S::Model>> {
        match bedrock_parsed(input) {
            Err(e) => Err(e),
            Ok((uuid, a)) => match S::parsed(input.skip(a)) {
                Err(e) => Err(e),
                Ok((skin, b)) => match <String as PacketRead>::parsed(input.skip(a).skip(b)) {
                    Err(e) => Err(e),
                    Ok((new_skin_name, c)) => match <String as PacketRead>::parsed(
                        input.skip(a).skip(b).skip(c),
                    ) {
                        Err(e) => Err(e),
                        Ok((old_skin_name, d)) => Ok(
                            (
                                SPlayerSkinModel { uuid, skin, new_skin_name, old_skin_name },
                                a + b + c + d,
                            ),
                        ),
                    },
                },
            },
        }
    }

    fn read(reader: &mut ByteReader) -> (r: Result<Self, ReadError>) {
        let ghost start = reader@;
        let uuid: u128 = match read(reader) {
            Err(e) => return Err(e),
            Ok(id) => id,
        };
        let skin = match S::read(reader) {
            Err(e) => return Err(e),
            Ok(skin) => skin,
        };
        let new_skin_name = match String::read(reader) {
            Err(e) => return Err(e),
            Ok(name) => name,
        };
        let old_skin_name = match String::read(reader) {
            Err(e) => return Err(e),
            Ok(name) => name,
        };
        proof {
            let a = 16int;
            let b = S::parsed(start.skip(a))->Ok_0.1;
            let c = <String as PacketRead>::parsed(start.skip(a).skip(b))->Ok_0.1;
            let d = <String as PacketRead>::parsed(start.skip(a).skip(b).skip(c))->Ok_0.1;
            assert(start.skip(a).skip(b).skip(c).skip(d) =~= start.skip(a + b + c + d));
        }
        Ok(SPlayerSkin { uuid, skin, new_skin_name, old_skin_name })
    }
}

/// What is sent of a player's skin is read back: the player, the skin, and the new and the old
/// name, where the skin itself is read back from its bytes.
pub proof fn law_skin_changes_are_read_back<S: PacketRead>(packet: CPlayerSkin, skin: S::Model)
    requires
        S::parsed(
            packet.skin@ + text_bytes(packet.new_skin_name@) + text_bytes(packet.old_skin_name@),
        ) == Ok::<(S::Model, int), ReadError>((skin, packet.skin@.len() as int)),
        vstd::utf8::encode_utf8(packet.new_skin_name@).len() <= u32::MAX,
        vstd::utf8::encode_utf8(packet.old_skin_name@).len() <= u32::MAX,
    ensures
        SPlayerSkin::<S>::parsed(packet.bytes()) == Ok::<
            (SPlayerSkinModel<S::Model>, int),
            ReadError,
        >(
            (
                SPlayerSkinModel {
                    uuid: packet.uuid,
                    skin,
                    new_skin_name: packet.new_skin_name@,
                    old_skin_name: packet.old_skin_name@,
                },
                packet.bytes().len() as int,
            ),
        ),
{
    let id = bedrock_bytes(packet.uuid);
    let a = text_bytes(packet.new_skin_name@);
    let b = text_bytes(packet.old_skin_name@);
    let s = packet.bytes();
    super::uuid::law_bedrock_round_trip(packet.uuid, packet.skin@ + a + b);
    assert(s =~= id + (packet.skin@ + a + b));
    assert(s.skip(16) =~= packet.skin@ + a + b);
    let n = packet.skin@.len() as int;
    assert(s.skip(16).skip(n) =~= a + b);
    super::serial::law_text_round_trip(packet.new_skin_name@, b);
    assert(s.skip(16).skip(n).skip(a.len() as int) =~= b);
    super::serial::law_text_round_trip(packet.old_skin_name@, Seq::empty());
    assert(b + Seq::<u8>::empty() =~= b);
}

} // verus!
