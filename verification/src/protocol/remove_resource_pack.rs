//! Tells a Java client to give up resource packs.

use super::uuid::{java_bytes, write_uuid};
use vstd::prelude::*;

verus! {

/// Names the pack to give up, or none to give up all.
pub struct CRemoveResourcePack<'a> {
    pub uuid: Option<&'a u128>,
}

impl<'a> CRemoveResourcePack<'a> {
    pub fn new(uuid: Option<&'a u128>) -> (r: Self)
        ensures
            r.uuid == uuid,
    {
        CRemoveResourcePack { uuid }
    }

    pub open spec fn bytes(self) -> Seq<u8> {
        match self.uuid {
            Some(id) => seq![1u8] + java_bytes(*id),
            None => seq![0u8],
        }
    }

    /// The packet is the same in every version.
    pub fn write_packet_data(&self, out: &mut Vec<u8>)
        ensures
            final(out)@ == old(out)@ + self.bytes(),
    {
        if let Some(id) = self.uuid {
            out.push(1);
            write_uuid(*id, out);
        } else {
            out.push(0);
        }
        assert(out@ =~= old(out)@ + self.bytes());
    }
}

/// A packet without an id gives up all packs; one with an id names it behind a set flag.
pub proof fn law_removals_name_their_pack(id: &u128)
    ensures
        (CRemoveResourcePack { uuid: None }).bytes() == seq![0u8],
        ({
            let b = (CRemoveResourcePack { uuid: Some(id) }).bytes();
            &&& b.len() == 17
            &&& b[0] == 1
            &&& super::uuid::java_parsed(b.skip(1)) matches Ok((read, n)) && read == *id && n == 16
        }),
{
    let b = (CRemoveResourcePack { uuid: Some(id) }).bytes();
    super::uuid::law_java_round_trip(*id, Seq::empty());
    assert(java_bytes(*id) + Seq::<u8>::empty() =~= java_bytes(*id));
    assert(b.skip(1) =~= java_bytes(*id));
}

} // verus!
