//! The order in which players are listed: by name, then by edition, as the bytes of
//! their texts compare.

use super::types::{player_views, GuiPlayer, PlayerView};
use vstd::prelude::*;
use vstd::utf8::encode_utf8;

verus! {

/// The lexicographic order of bytes.
pub open spec fn bytes_le(a: Seq<u8>, b: Seq<u8>) -> bool
    decreases a.len(),
{
    if a.len() == 0 {
        true
    } else if b.len() == 0 {
        false
    } else if a[0] != b[0] {
        a[0] < b[0]
    } else {
        bytes_le(a.drop_first(), b.drop_first())
    }
}

/// The order of two texts.
pub open spec fn text_le(a: Seq<char>, b: Seq<char>) -> bool {
    bytes_le(encode_utf8(a), encode_utf8(b))
}

/// The order of two players.
pub open spec fn player_le(a: PlayerView, b: PlayerView) -> bool {
    if a.name == b.name {
        text_le(a.edition, b.edition)
    } else {
        text_le(a.name, b.name)
    }
}

/// Whether players are listed in order.
pub open spec fn players_sorted(players: Seq<PlayerView>) -> bool {
    forall|i: int, j: int|
        0 <= i < j < players.len() ==> player_le(#[trigger] players[i], #[trigger] players[j])
}

pub proof fn lemma_bytes_le_total(a: Seq<u8>, b: Seq<u8>)
    ensures
        bytes_le(a, b) || bytes_le(b, a),
        bytes_le(a, b) && bytes_le(b, a) ==> a == b,
        bytes_le(a, a),
    decreases a.len(),
{
    if a.len() > 0 && b.len() > 0 {
        lemma_bytes_le_total(a.drop_first(), b.drop_first());
        if bytes_le(a, b) && bytes_le(b, a) {
            assert(a[0] == b[0]);
            assert(a =~= seq![a[0]] + a.drop_first());
            assert(b =~= seq![b[0]] + b.drop_first());
        }
    } else {
        if a.len() == 0 && b.len() == 0 {
            assert(a =~= b);
        }
    }
    if a.len() > 0 {
        lemma_bytes_le_total(a.drop_first(), a.drop_first());
    }
}

pub proof fn lemma_bytes_le_transitive(a: Seq<u8>, b: Seq<u8>, c: Seq<u8>)
    requires
        bytes_le(a, b),
        bytes_le(b, c),
    ensures
        bytes_le(a, c),
    decreases a.len(),
{
    if a.len() > 0 && b.len() > 0 && c.len() > 0 && a[0] == b[0] && b[0] == c[0] {
        lemma_bytes_le_transitive(a.drop_first(), b.drop_first(), c.drop_first());
    }
}

/// The order of players is total and transitive.
pub proof fn lemma_player_order(a: PlayerView, b: PlayerView, c: PlayerView)
    ensures
        player_le(a, b) || player_le(b, a),
        player_le(a, b) && player_le(b, c) ==> player_le(a, c),
{
    lemma_bytes_le_total(encode_utf8(a.name), encode_utf8(b.name));
    lemma_bytes_le_total(encode_utf8(a.edition), encode_utf8(b.edition));
    lemma_bytes_le_total(encode_utf8(b.name), encode_utf8(c.name));
    if player_le(a, b) && player_le(b, c) {
        if a.name == b.name && b.name == c.name {
            lemma_bytes_le_transitive(
                encode_utf8(a.edition),
                encode_utf8(b.edition),
                encode_utf8(c.edition),
            );
        } else if a.name != b.name && b.name != c.name {
            lemma_bytes_le_transitive(
                encode_utf8(a.name),
                encode_utf8(b.name),
                encode_utf8(c.name),
            );
            if a.name == c.name {
                crate::text::lemma_encode_utf8_injective(a.name, b.name);
            }
        }
    }
}

/// Whether the bytes of `a` come no later than those of `b`.
fn bytes_not_after(a: &[u8], b: &[u8]) -> (r: bool)
    ensures
        r == bytes_le(a@, b@),
{
    let mut i: usize = 0;
    assert(a@.skip(0) =~= a@);
    assert(b@.skip(0) =~= b@);
    while i < a.len() && i < b.len()
        invariant
            i <= a@.len(),
            i <= b@.len(),
            bytes_le(a@, b@) == bytes_le(a@.skip(i as int), b@.skip(i as int)),
        decreases a@.len() - i,
    {
        if a[i] != b[i] {
            return a[i] < b[i];
        }
        assert(a@.skip(i as int).drop_first() =~= a@.skip(i + 1));
        assert(b@.skip(i as int).drop_first() =~= b@.skip(i + 1));
        i = i + 1;
    }
    i == a.len()
}

/// Whether player `a` is listed no later than player `b`.
pub fn player_not_after(a: &GuiPlayer, b: &GuiPlayer) -> (r: bool)
    ensures
        r == player_le(a@, b@),
{
    if a.name == b.name {
        bytes_not_after(a.edition.as_str().as_bytes(), b.edition.as_str().as_bytes())
    } else {
        bytes_not_after(a.name.as_str().as_bytes(), b.name.as_str().as_bytes())
    }
}

proof fn lemma_insert_multiset<T>(s: Seq<T>, k: int, x: T)
    requires
        0 <= k <= s.len(),
    ensures
        s.insert(k, x).to_multiset() == s.to_multiset().insert(x),
{
    broadcast use vstd::seq_lib::group_to_multiset_ensures;

    let t = s.insert(k, x);
    vstd::seq_lib::to_multiset_remove(t, k);
    assert(t.remove(k) =~= s);
    t.to_multiset_ensures();
    assert(t[k] == x);
    assert(t.contains(x));
    assert(t.to_multiset().remove(x).insert(x) =~= t.to_multiset());
}

/// Lists players in order. The result holds the same players; how players with the
/// same name and edition stand to each other is left open.
pub fn sort_players(players: Vec<GuiPlayer>) -> (r: Vec<GuiPlayer>)
    ensures
        players_sorted(player_views(r@)),
        player_views(r@).to_multiset() == player_views(players@).to_multiset(),
{
    let mut rest = players;
    let mut sorted: Vec<GuiPlayer> = Vec::new();
    let ghost all = player_views(players@).to_multiset();
    proof {
        broadcast use vstd::seq_lib::group_to_multiset_ensures;

        assert(player_views(sorted@) =~= Seq::<PlayerView>::empty());
        assert(Seq::<PlayerView>::empty().to_multiset().add(all) =~= all);
    }
    while rest.len() > 0
        invariant
            players_sorted(player_views(sorted@)),
            player_views(sorted@).to_multiset().add(player_views(rest@).to_multiset()) == all,
        decreases rest@.len(),
    {
        let ghost before_rest = player_views(rest@);
        let ghost before = player_views(sorted@);
        let next = match rest.pop() {
            Some(p) => p,
            None => {
                assert(false);
                return sorted;
            },
        };
        let mut k: usize = 0;
        while k < sorted.len() && player_not_after(&sorted[k], &next)
            invariant
                k <= sorted@.len(),
                before == player_views(sorted@),
                forall|i: int| 0 <= i < k ==> player_le(#[trigger] before[i], next@),
            decreases sorted@.len() - k,
        {
            assert(before[k as int] == sorted@[k as int]@);
            k = k + 1;
        }
        proof {
            let after = before.insert(k as int, next@);
            if k < before.len() {
                assert(before[k as int] == sorted@[k as int]@);
                lemma_player_order(before[k as int], next@, next@);
            }
            assert forall|i: int, j: int| 0 <= i < j < after.len() implies player_le(
                #[trigger] after[i],
                #[trigger] after[j],
            ) by {
                if j == k {
                    assert(after[i] == before[i]);
                } else if i == k {
                    assert(after[j] == before[j - 1]);
                    if j - 1 > k {
                        assert(player_le(before[k as int], before[j - 1]));
                    }
                    lemma_player_order(next@, before[k as int], before[j - 1]);
                } else {
                    let x = if i < k {
                        i
                    } else {
                        i - 1
                    };
                    let y = if j < k {
                        j
                    } else {
                        j - 1
                    };
                    assert(player_le(before[x], before[y]));
                }
            }
            lemma_insert_multiset(before, k as int, next@);
            vstd::seq_lib::to_multiset_build(player_views(rest@), next@);
            assert(before_rest =~= player_views(rest@).push(next@));
            assert(before.to_multiset().insert(next@).add(player_views(rest@).to_multiset())
                =~= before.to_multiset().add(player_views(rest@).to_multiset().insert(next@)));
        }
        sorted.insert(k, next);
        assert(player_views(sorted@) =~= before.insert(k as int, next@));
    }
    proof {
        broadcast use vstd::seq_lib::group_to_multiset_ensures;

        assert(player_views(rest@) =~= Seq::<PlayerView>::empty());
        assert(player_views(sorted@).to_multiset().add(player_views(rest@).to_multiset())
            =~= player_views(sorted@).to_multiset());
    }
    sorted
}

/// Bytes are ordered by the first place where they differ; where one ends before that, it comes
/// first.
pub proof fn law_bytes_are_ordered_by_the_first_difference(
    front: Seq<u8>,
    a: u8,
    b: u8,
    x: Seq<u8>,
    y: Seq<u8>,
)
    ensures
        bytes_le(front, front + x),
        x.len() > 0 ==> !bytes_le(front + x, front),
        a < b ==> bytes_le(front + seq![a] + x, front + seq![b] + y),
        a > b ==> !bytes_le(front + seq![a] + x, front + seq![b] + y),
    decreases front.len(),
{
    let p = front + seq![a] + x;
    let q = front + seq![b] + y;
    if front.len() == 0 {
        assert(p[0] == a && q[0] == b);
        assert(front + x =~= x);
    } else {
        let rest = front.drop_first();
        law_bytes_are_ordered_by_the_first_difference(rest, a, b, x, y);
        assert(p.drop_first() =~= rest + seq![a] + x);
        assert(q.drop_first() =~= rest + seq![b] + y);
        assert((front + x).drop_first() =~= rest + x);
        assert(p[0] == front[0] && q[0] == front[0] && (front + x)[0] == front[0]);
    }
}

/// Players are ordered by name, and by edition where the names are the same; nothing else
/// matters.
pub proof fn law_players_are_ordered_by_name(a: PlayerView, b: PlayerView)
    ensures
        a.name != b.name ==> (player_le(a, b) <==> bytes_le(
            encode_utf8(a.name),
            encode_utf8(b.name),
        )),
        a.name == b.name ==> (player_le(a, b) <==> bytes_le(
            encode_utf8(a.edition),
            encode_utf8(b.edition),
        )),
        player_le(a, PlayerView { id: b.id, is_op: b.is_op, ..a }),
{
    lemma_bytes_le_total(encode_utf8(a.edition), encode_utf8(a.edition));
}

} // verus!
