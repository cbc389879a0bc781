//! Checksums and digests.

use crate::text::digit_char;
use sha1::Digest;
use vstd::prelude::*;

verus! {

/// The CRC-32 checksum that `flate2::Crc` computes.
pub uninterp spec fn crc32(data: Seq<u8>) -> u32;

/// The digest that `Sha1::digest` computes.
pub uninterp spec fn sha1_digest(data: Seq<u8>) -> Seq<u8>;

/// `flate2::Crc`: the checksum of all bytes given to `update` is a function of them.
#[verifier::external_body]
pub(crate) fn crc32_of(data: &[u8]) -> (r: u32)
    ensures
        r == crc32(data@),
{
    let mut crc = flate2::Crc::new();
    crc.update(data);
    crc.sum()
}

/// `Sha1::digest`: the digest is a function of the bytes, and has twenty bytes.
#[verifier::external_body]
pub(crate) fn sha1_of(data: &[u8]) -> (r: Vec<u8>)
    ensures
        r@ == sha1_digest(data@),
        r@.len() == 20,
{
    sha1::Sha1::digest(data).to_vec()
}

/// Bytes as two lower-case hexadecimal digits each.
pub open spec fn hex_of(bytes: Seq<u8>) -> Seq<char>
    decreases bytes.len(),
{
    if bytes.len() == 0 {
        Seq::empty()
    } else {
        hex_of(bytes.drop_last()) + seq![
            digit_char(bytes.last() as nat / 16),
            digit_char(bytes.last() as nat % 16),
        ]
    }
}

/// `hex::encode`: each byte becomes two lower-case digits.
#[verifier::external_body]
pub(crate) fn hex_encode(bytes: &[u8]) -> (s: String)
    ensures
        s@ == hex_of(bytes@),
{
    hex::encode(bytes)
}

/// The hexadecimal form of bytes is that of its parts one after the other, two digits for each
/// byte, from `0` to `f`.
pub proof fn law_each_byte_is_two_digits(a: Seq<u8>, b: Seq<u8>)
    ensures
        hex_of(a + b) == hex_of(a) + hex_of(b),
        hex_of(a).len() == 2 * a.len(),
        hex_of(seq![0x0fu8]) == seq!['0', 'f'],
        hex_of(seq![0xa9u8]) == seq!['a', '9'],
    decreases b.len(),
{
    lemma_hex_len(a);
    reveal_with_fuel(hex_of, 2);
    assert(seq![0x0fu8].drop_last() =~= Seq::<u8>::empty());
    assert(seq![0xa9u8].drop_last() =~= Seq::<u8>::empty());
    assert(hex_of(seq![0x0fu8]) =~= seq!['0', 'f']);
    assert(hex_of(seq![0xa9u8]) =~= seq!['a', '9']);
    if b.len() == 0 {
        assert(a + b =~= a);
        assert(hex_of(a) + hex_of(b) =~= hex_of(a));
    } else {
        law_each_byte_is_two_digits(a, b.drop_last());
        assert((a + b).drop_last() =~= a + b.drop_last());
        assert((a + b).last() == b.last());
        assert(hex_of(a + b) =~= hex_of(a) + hex_of(b));
    }
}

proof fn lemma_hex_len(a: Seq<u8>)
    ensures
        hex_of(a).len() == 2 * a.len(),
    decreases a.len(),
{
    if a.len() > 0 {
        lemma_hex_len(a.drop_last());
    }
}

} // verus!
