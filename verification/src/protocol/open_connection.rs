//! Replies to a Bedrock client that opens a connection.

use crate::bytes::{be_bytes, push_be, push_slice};
use vstd::prelude::*;

verus! {

/// The bytes that mark packets outside a connection.
pub open spec fn raknet_magic() -> Seq<u8> {
    seq![
        0x00u8, 0xff, 0xff, 0x00, 0xfe, 0xfe, 0xfe, 0xfe, 0xfd, 0xfd, 0xfd, 0xfd, 0x12, 0x34, 0x56,
        0x78,
    ]
}

/// The bytes that mark packets outside a connection.
pub fn raknet_magic_bytes() -> (r: [u8; 16])
    ensures
        r@ == raknet_magic(),
{
    let r: [u8; 16] = [
        0x00, 0xff, 0xff, 0x00, 0xfe, 0xfe, 0xfe, 0xfe, 0xfd, 0xfd, 0xfd, 0xfd, 0x12, 0x34, 0x56,
        0x78,
    ];
    assert(r@ =~= raknet_magic());
    r
}

/// The first reply: who the server is, and how large a packet may be.
#[derive(Clone, Copy, Debug, PartialEq, Eq, Structural)]
pub struct COpenConnectionReply1 {
    pub server_guid: u64,
    pub has_server_security: bool,
    pub mtu: u16,
}

/// An IPv4 address with a port. Other addresses are not written here.
#[derive(Clone, Copy, Debug, PartialEq, Eq, Structural)]
pub struct ClientAddress {
    pub a: u8,
    pub b: u8,
    pub c: u8,
    pub d: u8,
    pub port: u16,
}

/// The second reply: where the server sees the client.
#[derive(Clone, Copy, Debug, PartialEq, Eq, Structural)]
pub struct COpenConnectionReply2 {
    pub server_guid: u64,
    pub client_address: ClientAddress,
    pub mtu: u16,
    pub security: bool,
}

/// The wire form of a boolean.
pub open spec fn flag(b: bool) -> Seq<u8> {
    seq![if b { 1u8 } else { 0u8 }]
}

/// The wire form of an address: its kind, its bytes inverted, and its port.
pub open spec fn address_bytes(a: ClientAddress) -> Seq<u8> {
    seq![4u8, (255 - a.a) as u8, (255 - a.b) as u8, (255 - a.c) as u8, (255 - a.d) as u8]
        + be_bytes(a.port as nat, 2)
}

impl COpenConnectionReply1 {
    pub fn new(server_guid: u64, has_server_security: bool, mtu: u16) -> (r: Self)
        ensures
            r == (COpenConnectionReply1 { server_guid, has_server_security, mtu }),
    {
        COpenConnectionReply1 { server_guid, has_server_security, mtu }
    }

    pub open spec fn bytes(self) -> Seq<u8> {
        raknet_magic() + be_bytes(self.server_guid as nat, 8) + flag(self.has_server_security)
            + be_bytes(self.mtu as nat, 2)
    }

    pub fn write(&self, out: &mut Vec<u8>)
        ensures
            final(out)@ == old(out)@ + self.bytes(),
    {
        let magic = raknet_magic_bytes();
        push_slice(out, magic.as_slice());
        push_be(out, self.server_guid as u128, 8);
        out.push(if self.has_server_security { 1 } else { 0 });
        push_be(out, self.mtu as u128, 2);
        assert(out@ =~= old(out)@ + self.bytes());
    }
}

impl COpenConnectionReply2 {
    pub fn new(
        server_guid: u64,
        client_address: ClientAddress,
        mtu: u16,
        security: bool,
    ) -> (r: Self)
        ensures
            r == (COpenConnectionReply2 { server_guid, client_address, mtu, security }),
    {
        COpenConnectionReply2 { server_guid, client_address, mtu, security }
    }

    pub open spec fn bytes(self) -> Seq<u8> {
        raknet_magic() + be_bytes(self.server_guid as nat, 8) + address_bytes(self.client_address)
            + be_bytes(self.mtu as nat, 2) + flag(self.security)
    }

    pub fn write(&self, out: &mut Vec<u8>)
        ensures
            final(out)@ == old(out)@ + self.bytes(),
    {
        let magic = raknet_magic_bytes();
        push_slice(out, magic.as_slice());
        push_be(out, self.server_guid as u128, 8);
        out.push(4);
        out.push(255 - self.client_address.a);
        out.push(255 - self.client_address.b);
        out.push(255 - self.client_address.c);
        out.push(255 - self.client_address.d);
        push_be(out, self.client_address.port as u128, 2);
        push_be(out, self.mtu as u128, 2);
        out.push(if self.security { 1 } else { 0 });
        assert(out@ =~= old(out)@ + self.bytes());
    }
}

/// The first reply is the magic bytes, the server's id, whether it is secure, and the size of
/// datagrams, each in its place.
pub proof fn law_the_first_reply_is_read_back(reply: COpenConnectionReply1)
    ensures
        ({
            let b = reply.bytes();
            &&& b.len() == 27
            &&& b.take(16) == raknet_magic()
            &&& crate::bytes::be_value(b.subrange(16, 24)) == reply.server_guid
            &&& b[24] == if reply.has_server_security {
                1u8
            } else {
                0
            }
            &&& crate::bytes::be_value(b.subrange(25, 27)) == reply.mtu
        }),
{
    crate::bytes::lemma_pow256_values();
    crate::bytes::lemma_be_len(reply.server_guid as nat, 8);
    crate::bytes::lemma_be_len(reply.mtu as nat, 2);
    crate::bytes::lemma_be_round_trip(reply.server_guid as nat, 8);
    crate::bytes::lemma_be_round_trip(reply.mtu as nat, 2);
    let b = reply.bytes();
    assert(b.take(16) =~= raknet_magic());
    assert(b.subrange(16, 24) =~= be_bytes(reply.server_guid as nat, 8));
    assert(b.subrange(25, 27) =~= be_bytes(reply.mtu as nat, 2));
}

/// The second reply is the magic bytes, the server's id, the client's address with every bit of
/// its four numbers turned, the size of datagrams, and whether the server is secure.
pub proof fn law_the_second_reply_is_read_back(reply: COpenConnectionReply2)
    ensures
        ({
            let b = reply.bytes();
            let a = reply.client_address;
            &&& b.len() == 34
            &&& b.take(16) == raknet_magic()
            &&& crate::bytes::be_value(b.subrange(16, 24)) == reply.server_guid
            &&& b[24] == 4
            &&& b[25] + a.a == 255 && b[26] + a.b == 255 && b[27] + a.c == 255 && b[28] + a.d == 255
            &&& crate::bytes::be_value(b.subrange(29, 31)) == a.port
            &&& crate::bytes::be_value(b.subrange(31, 33)) == reply.mtu
            &&& b[33] == if reply.security {
                1u8
            } else {
                0
            }
        }),
{
    let a = reply.client_address;
    crate::bytes::lemma_pow256_values();
    crate::bytes::lemma_be_len(reply.server_guid as nat, 8);
    crate::bytes::lemma_be_len(reply.mtu as nat, 2);
    crate::bytes::lemma_be_len(a.port as nat, 2);
    crate::bytes::lemma_be_round_trip(reply.server_guid as nat, 8);
    crate::bytes::lemma_be_round_trip(reply.mtu as nat, 2);
    crate::bytes::lemma_be_round_trip(a.port as nat, 2);
    let b = reply.bytes();
    assert(b.take(16) =~= raknet_magic());
    assert(b.subrange(16, 24) =~= be_bytes(reply.server_guid as nat, 8));
    assert(b.subrange(29, 31) =~= be_bytes(a.port as nat, 2));
    assert(b.subrange(31, 33) =~= be_bytes(reply.mtu as nat, 2));
}

} // verus!
