//! Unique ids as 128-bit numbers, and their texts.

use crate::text::digit_char;
use vstd::prelude::*;

verus! {

/// The namespace of domain names.
pub const NAMESPACE_DNS: u128 = 0x6ba7_b810_9dad_11d1_80b4_00c0_4fd4_30c8;

/// The lowest `width` hexadecimal digits of a number, most significant first.
pub open spec fn hex_text(value: nat, width: nat) -> Seq<char>
    decreases width,
{
    if width == 0 {
        Seq::empty()
    } else {
        hex_text(value / 16, (width - 1) as nat).push(digit_char(value % 16))
    }
}

/// An id as thirty-two digits.
pub open spec fn simple_text(id: u128) -> Seq<char> {
    hex_text(id as nat, 32)
}

/// An id in groups of eight, four, four, four and twelve digits.
pub open spec fn hyphenated_text(id: u128) -> Seq<char> {
    let h = simple_text(id);
    h.subrange(0, 8) + seq!['-'] + h.subrange(8, 12) + seq!['-'] + h.subrange(12, 16) + seq!['-']
        + h.subrange(16, 20) + seq!['-'] + h.subrange(20, 32)
}

/// What `Uuid::parse_str` reads from a text.
pub uninterp spec fn uuid_parsed(text: Seq<char>) -> Option<u128>;

/// What `Uuid::new_v3` derives from a namespace and a name.
pub uninterp spec fn uuid_v3(namespace: u128, name: Seq<u8>) -> u128;

/// `Uuid::hyphenated` with `Display`: the lower-case digits of the id, in five groups.
#[verifier::external_body]
pub(crate) fn hyphenated(id: u128) -> (s: String)
    ensures
        s@ == hyphenated_text(id),
{
    uuid::Uuid::from_u128(id).hyphenated().to_string()
}

/// `Uuid::simple` with `Display`: the lower-case digits of the id, without hyphens.
#[verifier::external_body]
pub(crate) fn simple(id: u128) -> (s: String)
    ensures
        s@ == simple_text(id),
{
    uuid::Uuid::from_u128(id).simple().to_string()
}

/// `Uuid::parse_str`: what it reads is a function of the text, and it reads back the
/// hyphenated text of every id.
#[verifier::external_body]
pub(crate) fn parse_uuid(text: &str) -> (r: Option<u128>)
    ensures
        r == uuid_parsed(text@),
        forall|id: u128| text@ == #[trigger] hyphenated_text(id) ==> r == Some(id),
{
    match uuid::Uuid::parse_str(text) {
        Ok(id) => Some(id.as_u128()),
        Err(_) => None,
    }
}

/// `Uuid::new_v3`: the id is a function of the namespace and the name.
#[verifier::external_body]
pub(crate) fn derive_v3(namespace: u128, name: &[u8]) -> (id: u128)
    ensures
        id == uuid_v3(namespace, name@),
{
    uuid::Uuid::new_v3(&uuid::Uuid::from_u128(namespace), name).as_u128()
}

proof fn lemma_digits_differ(a: nat, b: nat)
    requires
        a < 16,
        b < 16,
        digit_char(a) == digit_char(b),
    ensures
        a == b,
{
}

proof fn lemma_hex_differs(a: nat, b: nat, width: nat)
    requires
        hex_text(a, width) == hex_text(b, width),
        a < vstd::arithmetic::power::pow(16, width),
        b < vstd::arithmetic::power::pow(16, width),
    ensures
        a == b,
    decreases width,
{
    reveal(vstd::arithmetic::power::pow);
    if width > 0 {
        let w = (width - 1) as nat;
        let p = vstd::arithmetic::power::pow(16, w);
        assert(hex_text(a, width).drop_last() =~= hex_text(a / 16, w));
        assert(hex_text(b, width).drop_last() =~= hex_text(b / 16, w));
        assert(hex_text(a, width).last() == digit_char(a % 16));
        assert(hex_text(b, width).last() == digit_char(b % 16));
        lemma_digits_differ(a % 16, b % 16);
        assert(a < 16 * p && b < 16 * p);
        lemma_hex_differs(a / 16, b / 16, w);
    }
}

proof fn lemma_hex_len(value: nat, width: nat)
    ensures
        hex_text(value, width).len() == width,
    decreases width,
{
    if width > 0 {
        lemma_hex_len(value / 16, (width - 1) as nat);
    }
}

/// Every id has a text of its own, of thirty-two digits.
pub proof fn law_ids_have_their_own_text(a: u128, b: u128)
    ensures
        simple_text(a).len() == 32,
        simple_text(a) == simple_text(b) ==> a == b,
        hyphenated_text(a).len() == 36,
        hyphenated_text(a) == hyphenated_text(b) ==> a == b,
{
    lemma_hex_len(a as nat, 32);
    lemma_hex_len(b as nat, 32);
    reveal_with_fuel(vstd::arithmetic::power::pow, 33);
    assert(vstd::arithmetic::power::pow(16, 32) == 0x1_0000_0000_0000_0000_0000_0000_0000_0000);
    if simple_text(a) == simple_text(b) {
        lemma_hex_differs(a as nat, b as nat, 32);
    }
    if hyphenated_text(a) == hyphenated_text(b) {
        let s = simple_text(a);
        let t = simple_text(b);
        let h = hyphenated_text(a);
        let g = hyphenated_text(b);
        assert(s =~= h.subrange(0, 8) + h.subrange(9, 13) + h.subrange(14, 18) + h.subrange(19, 23)
            + h.subrange(24, 36));
        assert(t =~= g.subrange(0, 8) + g.subrange(9, 13) + g.subrange(14, 18) + g.subrange(19, 23)
            + g.subrange(24, 36));
        lemma_hex_differs(a as nat, b as nat, 32);
    }
}

/// The digits of an id spell it: the last is its remainder by sixteen, and those before are the
/// digits of what is left.
pub proof fn law_digits_spell_the_number(value: nat, width: nat)
    requires
        width > 0,
    ensures
        hex_text(value, width).len() == width,
        hex_text(value, width).last() == (if value % 16 < 10 {
            ('0' as u32 + value % 16) as char
        } else {
            ('a' as u32 + (value % 16 - 10)) as char
        }),
        hex_text(value, width).drop_last() == hex_text(value / 16, (width - 1) as nat),
{
    lemma_hex_len(value, width);
    assert(hex_text(value, width).drop_last() =~= hex_text(value / 16, (width - 1) as nat));
}

} // verus!
