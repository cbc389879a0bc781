//! Where a client fetches a pack.

use crate::ids::{hyphenated, hyphenated_text};
use crate::text::{
    chars_of, decimal, find, find_char, lemma_find, parse_u16, parsed_u16, push_decimal, string_of,
};
use vstd::prelude::*;
use vstd::slice::slice_subrange;

verus! {

/// A text without the slashes at its end.
pub open spec fn without_slashes(s: Seq<char>) -> Seq<char>
    decreases s.len(),
{
    if s.len() > 0 && s.last() == '/' {
        without_slashes(s.drop_last())
    } else {
        s
    }
}

/// How often a character occurs.
pub open spec fn occurrences(s: Seq<char>, c: char) -> nat
    decreases s.len(),
{
    if s.len() == 0 {
        0
    } else {
        occurrences(s.drop_last(), c) + (if s.last() == c {
            1nat
        } else {
            0nat
        })
    }
}

/// The address of a handshake: what precedes the first null character.
pub open spec fn handshake_address(s: Seq<char>) -> Seq<char> {
    s.take(find(s, '\0') as int)
}

/// The host of an address. A bracketed address keeps its brackets, a port behind a
/// single colon is dropped, and a bare address with several colons gets brackets.
pub open spec fn host_of(address: Seq<char>) -> Seq<char> {
    if address.len() > 0 && address[0] == '[' && find(address.skip(1), ']') < address.len() - 1 {
        address.take(find(address.skip(1), ']') as int + 2)
    } else if occurrences(address, ':') == 1 {
        let colon = find(address, ':') as int;
        if parsed_u16(address.skip(colon + 1)) is Some {
            address.take(colon)
        } else {
            address
        }
    } else if occurrences(address, ':') > 1 {
        seq!['['] + address + seq![']']
    } else {
        address
    }
}

/// The place of a pack: below the public address where there is one, else on the host
/// that the client used.
pub open spec fn resource_url_text(
    server_address: Seq<char>,
    port: u16,
    public_url: Option<Seq<char>>,
    pack_id: u128,
) -> Seq<char> {
    match public_url {
        Some(url) => without_slashes(url) + "/v1/skin-packs/"@ + hyphenated_text(pack_id),
        None => "http://"@ + host_of(handshake_address(server_address)) + seq![':'] + decimal(
            port as nat,
        ) + "/v1/skin-packs/"@ + hyphenated_text(pack_id),
    }
}

fn count_char(chars: &[char], c: char) -> (n: usize)
    ensures
        n == occurrences(chars@, c),
{
    let mut n: usize = 0;
    let mut i: usize = 0;
    assert(chars@.take(0) =~= Seq::<char>::empty());
    while i < chars.len()
        invariant
            i <= chars@.len(),
            n <= i,
            n == occurrences(chars@.take(i as int), c),
        decreases chars@.len() - i,
    {
        assert(chars@.take(i + 1).drop_last() =~= chars@.take(i as int));
        if chars[i] == c {
            n = n + 1;
        }
        i = i + 1;
    }
    assert(chars@.take(i as int) =~= chars@);
    n
}

proof fn lemma_no_occurrence(s: Seq<char>, c: char)
    requires
        forall|i: int| 0 <= i < s.len() ==> #[trigger] s[i] != c,
    ensures
        occurrences(s, c) == 0,
    decreases s.len(),
{
    if s.len() > 0 {
        lemma_no_occurrence(s.drop_last(), c);
    }
}

/// The host of an address.
fn host(address: &[char]) -> (r: String)
    ensures
        r@ == host_of(address@),
{
    if address.len() > 0 && address[0] == '[' {
        let tail = slice_subrange(address, 1, address.len());
        assert(tail@ =~= address@.skip(1));
        let end: usize = find_char(tail, ']');
        if end < tail.len() {
            let part = slice_subrange(address, 0, end + 2);
            assert(part@ =~= address@.take(end + 2));
            return string_of(part);
        }
    }
    let colons: usize = count_char(address, ':');
    if colons == 1 {
        let colon: usize = find_char(address, ':');
        proof {
            lemma_find(address@, ':');
            if colon == address@.len() {
                lemma_no_occurrence(address@, ':');
            }
        }
        let suffix = slice_subrange(address, colon + 1, address.len());
        assert(suffix@ =~= address@.skip(colon + 1));
        if parse_u16(suffix).is_some() {
            let part = slice_subrange(address, 0, colon);
            assert(part@ =~= address@.take(colon as int));
            return string_of(part);
        }
        return string_of(address);
    }
    if colons > 1 {
        let mut r = String::new();
        r.push('[');
        r.append(string_of(address).as_str());
        r.push(']');
        assert(r@ =~= host_of(address@));
        return r;
    }
    string_of(address)
}

/// The place of a pack for a client that used an address.
pub fn resource_url(
    server_address: &str,
    port: u16,
    public_url: Option<&str>,
    pack_id: u128,
) -> (r: String)
    ensures
        r@ == resource_url_text(
            server_address@,
            port,
            match public_url {
                Some(u) => Some(u@),
                None => None,
            },
            pack_id,
        ),
{
    let id = hyphenated(pack_id);
    if let Some(url) = public_url {
        let chars = chars_of(url);
        let mut end: usize = chars.len();
        assert(chars@.take(end as int) =~= chars@);
        while end > 0 && chars[end - 1] == '/'
            invariant
                end <= chars@.len(),
                without_slashes(chars@.take(end as int)) == without_slashes(chars@),
            decreases end,
        {
            assert(chars@.take(end as int).drop_last() =~= chars@.take(end - 1));
            end = end - 1;
        }
        let part = slice_subrange(chars.as_slice(), 0, end);
        assert(part@ =~= chars@.take(end as int));
        let mut r = string_of(part);
        r.append("/v1/skin-packs/");
        r.append(id.as_str());
        return r;
    }
    let chars = chars_of(server_address);
    let end: usize = find_char(chars.as_slice(), '\0');
    let address = slice_subrange(chars.as_slice(), 0, end);
    assert(address@ =~= handshake_address(server_address@));
    let mut r = "http://".to_owned();
    r.append(host(address).as_str());
    r.push(':');
    push_decimal(&mut r, port as u64);
    r.append("/v1/skin-packs/");
    r.append(id.as_str());
    assert(r@ =~= resource_url_text(server_address@, port, None, pack_id));
    r
}

proof fn lemma_slashes_dropped(s: Seq<char>)
    ensures
        ({
            let rest = without_slashes(s);
            &&& rest.len() <= s.len()
            &&& s.take(rest.len() as int) == rest
            &&& rest.len() > 0 ==> rest.last() != '/'
            &&& forall|i: int| rest.len() <= i < s.len() ==> #[trigger] s[i] == '/'
        }),
    decreases s.len(),
{
    if s.len() > 0 && s.last() == '/' {
        lemma_slashes_dropped(s.drop_last());
        let rest = without_slashes(s);
        assert(s.take(rest.len() as int) =~= s.drop_last().take(rest.len() as int));
        assert forall|i: int| rest.len() <= i < s.len() implies #[trigger] s[i] == '/' by {
            if i < s.len() - 1 {
                assert(s.drop_last()[i] == s[i]);
            }
        }
    } else {
        assert(s.take(s.len() as int) =~= s);
    }
}

/// Only slashes leave the end of an address, and all of them.
pub proof fn law_only_slashes_are_dropped(s: Seq<char>)
    ensures
        ({
            let rest = without_slashes(s);
            &&& rest.len() <= s.len()
            &&& s.take(rest.len() as int) == rest
            &&& rest.len() > 0 ==> rest.last() != '/'
            &&& forall|i: int| rest.len() <= i < s.len() ==> #[trigger] s[i] == '/'
        }),
{
    lemma_slashes_dropped(s);
}

/// What a handshake says behind a null character is no part of its address.
pub proof fn law_addresses_end_at_a_null(address: Seq<char>, rest: Seq<char>)
    requires
        !address.contains('\0'),
    ensures
        handshake_address(address) == address,
        handshake_address(address + seq!['\0'] + rest) == address,
{
    let n = address.len() as int;
    let s = address + seq!['\0'] + rest;
    assert forall|i: int| 0 <= i < n implies #[trigger] address[i] != '\0' by {
        assert(address.contains(address[i]));
    }
    assert forall|i: int| 0 <= i < n implies #[trigger] s[i] != '\0' by {
        assert(s[i] == address[i]);
        assert(address.contains(address[i]));
    }
    crate::text::lemma_find_is(address, '\0', n);
    crate::text::lemma_find_is(s, '\0', n);
    assert(address.take(n) =~= address);
    assert(s.take(n) =~= address);
}

proof fn lemma_occurrences_concat(a: Seq<char>, b: Seq<char>, c: char)
    ensures
        occurrences(a + b, c) == occurrences(a, c) + occurrences(b, c),
    decreases b.len(),
{
    if b.len() == 0 {
        assert(a + b =~= a);
    } else {
        lemma_occurrences_concat(a, b.drop_last(), c);
        assert((a + b).drop_last() =~= a + b.drop_last());
        assert((a + b).last() == b.last());
    }
}

/// A host without colons and brackets is itself, and so is one in front of a port: the port is
/// dropped, and anything else behind the colon stays.
pub proof fn law_ports_are_dropped(host: Seq<char>, behind: Seq<char>)
    requires
        !host.contains(':'),
        !behind.contains(':'),
        host.len() > 0,
        host[0] != '[',
    ensures
        host_of(host) == host,
        parsed_u16(behind) is Some ==> host_of(host + seq![':'] + behind) == host,
        parsed_u16(behind) is None ==> host_of(host + seq![':'] + behind) == host + seq![':']
            + behind,
{
    let n = host.len() as int;
    let s = host + seq![':'] + behind;
    assert forall|i: int| 0 <= i < n implies #[trigger] host[i] != ':' by {
        assert(host.contains(host[i]));
    }
    assert forall|i: int| 0 <= i < behind.len() implies #[trigger] behind[i] != ':' by {
        assert(behind.contains(behind[i]));
    }
    assert forall|i: int| 0 <= i < n implies #[trigger] s[i] != ':' by {
        assert(s[i] == host[i]);
    }
    crate::text::lemma_find_is(s, ':', n);
    lemma_no_occurrence(host, ':');
    lemma_no_occurrence(behind, ':');
    lemma_occurrences_concat(host, seq![':'], ':');
    lemma_occurrences_concat(host + seq![':'], behind, ':');
    assert(seq![':'].drop_last() =~= Seq::<char>::empty());
    reveal_with_fuel(occurrences, 3);
    assert(occurrences(seq![':'], ':') == 1);
    assert(s[0] == host[0]);
    assert(s.take(n) =~= host);
    assert(s.skip(n + 1) =~= behind);
}

/// An address with several colons is put in brackets, unless it stands in brackets already:
/// then those and what is between them are the host, whatever follows.
pub proof fn law_addresses_with_colons_stand_in_brackets(
    address: Seq<char>,
    behind: Seq<char>,
)
    requires
        !address.contains(']'),
    ensures
        host_of(seq!['['] + address + seq![']'] + behind) == seq!['['] + address + seq![']'],
        address.len() > 0 && address[0] != '[' && occurrences(address, ':') > 1 ==> host_of(address)
            == seq!['['] + address + seq![']'],
{
    let s = seq!['['] + address + seq![']'] + behind;
    let n = address.len() as int;
    assert(s.skip(1) =~= address + seq![']'] + behind);
    let t = s.skip(1);
    assert forall|i: int| 0 <= i < n implies #[trigger] t[i] != ']' by {
        assert(t[i] == address[i]);
        assert(address.contains(address[i]));
    }
    crate::text::lemma_find_is(t, ']', n);
    assert(s.take(n + 2) =~= seq!['['] + address + seq![']']);
}

/// A pack lies under the public address where there is one, and else under the host that the
/// client used and the given port, in either case by its id.
pub proof fn law_packs_lie_under_the_address(
    server_address: Seq<char>,
    port: u16,
    url: Seq<char>,
    pack_id: u128,
)
    ensures
        resource_url_text(server_address, port, Some(url), pack_id) == without_slashes(url)
            + "/v1/skin-packs/"@ + hyphenated_text(pack_id),
        resource_url_text(server_address, port, None, pack_id) == "http://"@ + host_of(
            handshake_address(server_address),
        ) + ":"@ + decimal(port as nat) + "/v1/skin-packs/"@ + hyphenated_text(pack_id),
{
    reveal_strlit(":");
    assert(":"@ =~= seq![':']);
}

} // verus!
