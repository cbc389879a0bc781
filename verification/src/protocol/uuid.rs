//! Ids on the wire: little-endian halves on Bedrock, big-endian on Java.

use super::serial::{ByteReader, Parsed, ReadError};
use crate::bytes::{
    be_bytes, be_value, get_be, get_le, le_bytes, le_value, lemma_be_len, lemma_be_round_trip,
    lemma_le_len, lemma_le_round_trip, lemma_pow256_values, push_be, push_le,
};
use vstd::prelude::*;
use vstd::slice::slice_subrange;

verus! {

/// Two to the power of 64.
pub const HALF: u128 = 0x1_0000_0000_0000_0000;

/// The Bedrock form of an id: the upper and then the lower half, each with its lowest
/// byte first.
pub open spec fn bedrock_bytes(id: u128) -> Seq<u8> {
    le_bytes((id / HALF) as nat, 8) + le_bytes((id % HALF) as nat, 8)
}

/// The Java form of an id: its highest byte first.
pub open spec fn java_bytes(id: u128) -> Seq<u8> {
    be_bytes(id as nat, 16)
}

/// The id that sixteen bytes hold on Bedrock.
pub open spec fn bedrock_value(bytes: Seq<u8>) -> nat {
    le_value(bytes.subrange(0, 8)) * HALF as nat + le_value(bytes.subrange(8, 16))
}

/// Appends an id as Bedrock writes it.
pub fn write_bedrock(id: u128, out: &mut Vec<u8>)
    ensures
        final(out)@ == old(out)@ + bedrock_bytes(id),
{
    push_le(out, id / HALF, 8);
    push_le(out, id % HALF, 8);
    assert(out@ =~= old(out)@ + bedrock_bytes(id));
}

/// Appends an id as Java writes it.
pub fn write_uuid(id: u128, out: &mut Vec<u8>)
    ensures
        final(out)@ == old(out)@ + java_bytes(id),
{
    push_be(out, id, 16);
}

/// What the front of `input` holds as a Bedrock id.
pub open spec fn bedrock_parsed(input: Seq<u8>) -> Parsed<u128> {
    if input.len() < 16 {
        Err(ReadError::UnexpectedEof)
    } else {
        Ok((bedrock_value(input.take(16)) as u128, 16))
    }
}

/// What the front of `input` holds as a Java id.
pub open spec fn java_parsed(input: Seq<u8>) -> Parsed<u128> {
    if input.len() < 16 {
        Err(ReadError::UnexpectedEof)
    } else {
        Ok((be_value(input.take(16)) as u128, 16))
    }
}

/// Reads a Bedrock id. Where the bytes end too early nothing is read.
pub fn read(reader: &mut ByteReader) -> (r: Result<u128, ReadError>)
    ensures
        match bedrock_parsed(old(reader)@) {
            Ok((id, n)) => r == Ok::<u128, ReadError>(id) && final(reader)@ == old(reader)@.skip(n),
            Err(e) => r == Err::<u128, ReadError>(e) && final(reader)@ == old(reader)@,
        },
{
    let bytes = match reader.take(16) {
        Err(e) => return Err(e),
        Ok(bytes) => bytes,
    };
    proof {
        lemma_pow256_values();
    }
    let most: u128 = get_le(slice_subrange(bytes, 0, 8));
    let least: u128 = get_le(slice_subrange(bytes, 8, 16));
    assert(most * HALF + least < HALF * HALF) by (nonlinear_arith)
        requires
            most < HALF,
            least < HALF,
            HALF == 0x1_0000_0000_0000_0000u128,
    ;
    Ok(most * HALF + least)
}

/// Reads a Java id. Where the bytes end too early nothing is read.
pub fn get_uuid(reader: &mut ByteReader) -> (r: Result<u128, ReadError>)
    ensures
        match java_parsed(old(reader)@) {
            Ok((id, n)) => r == Ok::<u128, ReadError>(id) && final(reader)@ == old(reader)@.skip(n),
            Err(e) => r == Err::<u128, ReadError>(e) && final(reader)@ == old(reader)@,
        },
{
    let bytes = match reader.take(16) {
        Err(e) => return Err(e),
        Ok(bytes) => bytes,
    };
    Ok(get_be(bytes))
}

/// Reads a Bedrock id from the front of a slice, and shortens the slice by it.
pub fn read_slice<'a>(input: &mut &'a [u8]) -> (r: Result<u128, ReadError>)
    ensures
        match bedrock_parsed(old(input)@) {
            Ok((id, n)) => r == Ok::<u128, ReadError>(id) && final(input)@ == old(input)@.skip(n),
            Err(e) => r == Err::<u128, ReadError>(e) && final(input)@ == old(input)@,
        },
{
    let mut reader = ByteReader::new(*input);
    match read(&mut reader) {
        Err(e) => Err(e),
        Ok(id) => {
            *input = reader.rest();
            Ok(id)
        },
    }
}

/// Reading a Bedrock id gives back the id that was written, whatever follows.
pub proof fn law_bedrock_round_trip(id: u128, rest: Seq<u8>)
    ensures
        bedrock_parsed(bedrock_bytes(id) + rest) == Ok::<(u128, int), ReadError>((id, 16)),
        bedrock_bytes(id).len() == 16,
{
    let most = (id / HALF) as nat;
    let least = (id % HALF) as nat;
    lemma_pow256_values();
    lemma_le_len(most, 8);
    lemma_le_len(least, 8);
    lemma_le_round_trip(most, 8);
    lemma_le_round_trip(least, 8);
    let input = bedrock_bytes(id) + rest;
    assert(input.take(16).subrange(0, 8) =~= le_bytes(most, 8));
    assert(input.take(16).subrange(8, 16) =~= le_bytes(least, 8));
}

/// Reading a Java id gives back the id that was written, whatever follows.
pub proof fn law_java_round_trip(id: u128, rest: Seq<u8>)
    ensures
        java_parsed(java_bytes(id) + rest) == Ok::<(u128, int), ReadError>((id, 16)),
        java_bytes(id).len() == 16,
{
    lemma_pow256_values();
    lemma_be_len(id as nat, 16);
    lemma_be_round_trip(id as nat, 16);
    assert((java_bytes(id) + rest).take(16) =~= java_bytes(id));
}

/// A Java id is written most significant byte first; a Bedrock id is the same bytes with each
/// half in the other order.
pub proof fn law_bedrock_ids_turn_each_half_round(id: u128, i: int)
    requires
        0 <= i < 16,
    ensures
        i < 8 ==> bedrock_bytes(id)[i] == java_bytes(id)[7 - i],
        i >= 8 ==> bedrock_bytes(id)[i] == java_bytes(id)[23 - i],
        java_bytes(id)[15] == id % 256,
        bedrock_bytes(id)[8] == id % 256,
{
    let n = id as nat;
    lemma_le_len((id / HALF) as nat, 8);
    lemma_le_len((id % HALF) as nat, 8);
    lemma_be_len(n, 16);
    lemma_split_be(n, 8);
    crate::bytes::lemma_pow256_values();
    lemma_be_len(n / 0x1_0000_0000_0000_0000, 8);
    lemma_be_len(n % 0x1_0000_0000_0000_0000, 8);
    let j = if i < 8 {
        i
    } else {
        i - 8
    };
    crate::bytes::law_byte_orders_mirror_each_other((id / HALF) as nat, 8, j);
    crate::bytes::law_byte_orders_mirror_each_other((id % HALF) as nat, 8, j);
    crate::bytes::law_byte_orders_mirror_each_other(n, 16, 0);
    crate::bytes::law_byte_orders_mirror_each_other((id % HALF) as nat, 8, 0);
}

proof fn lemma_split_be(n: nat, low: nat)
    ensures
        be_bytes(n, 8 + low) == be_bytes(n / crate::bytes::pow256(low), 8) + be_bytes(
            n % crate::bytes::pow256(low),
            low,
        ),
    decreases low,
{
    if low == 0 {
        assert(be_bytes(n, 8) + be_bytes(0, 0) =~= be_bytes(n, 8));
        assert(crate::bytes::pow256(0) == 1);
        assert(n / 1 == n);
        assert(be_bytes(n % 1, 0) =~= Seq::<u8>::empty());
        assert(be_bytes(n, 8) + be_bytes(n % 1, 0) =~= be_bytes(n, 8));
    } else {
        let m = (low - 1) as nat;
        let p = crate::bytes::pow256(m);
        lemma_split_be(n / 256, m);
        crate::bytes::lemma_pow256_monotone(0, m);
        assert(p >= 1);
        assert(crate::bytes::pow256(low) == 256 * p);
        assert(n / 256 / p == n / (256 * p)) by {
            vstd::arithmetic::div_mod::lemma_div_denominator(n as int, 256, p as int);
        }
        let r = n % (256 * p);
        assert(r / 256 == (n / 256) % p && r % 256 == n % 256) by {
            vstd::arithmetic::div_mod::lemma_mod_breakdown(n as int, 256, p as int);
            let q = (n / 256) % p;
            assert(r == 256 * q + n % 256);
        }
        assert(be_bytes(n, 8 + low) =~= be_bytes(n / (256 * p), 8) + be_bytes(r, low));
    }
}

} // verus!
