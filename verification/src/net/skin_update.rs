//! A Bedrock player's new skin, and who is told of it.

use crate::skin_pack::registry::{
    acceptance, register, registers, AcceptedSkins, AcceptedView, EncodedSkin, Registration,
    SkinPackRegistry,
};
use crate::skin_pack::hash::sha1_digest;
use vstd::prelude::*;

verus! {

/// A player of the world.
#[derive(Clone, Copy, Debug, PartialEq, Eq, Structural)]
pub struct WorldPlayer {
    pub id: u128,
    pub bedrock: bool,
}

/// Whether a packet speaks for the player who sent it.
pub fn claims_own_skin(packet_id: u128, player_id: u128) -> (r: bool)
    ensures
        r == (packet_id == player_id),
{
    packet_id == player_id
}

/// Whether a player is told of another's skin.
pub open spec fn is_told(p: WorldPlayer, player_id: u128) -> bool {
    p.id != player_id && p.bedrock
}

/// The indices, in order, of the players who are told of a player's new skin.
pub open spec fn told(players: Seq<WorldPlayer>, player_id: u128) -> Seq<usize>
    decreases players.len(),
{
    if players.len() == 0 {
        Seq::empty()
    } else if is_told(players.last(), player_id) {
        told(players.drop_last(), player_id).push((players.len() - 1) as usize)
    } else {
        told(players.drop_last(), player_id)
    }
}

/// The players who are told of a player's new skin: all others on Bedrock.
pub fn recipients(players: &Vec<WorldPlayer>, player_id: u128) -> (r: Vec<usize>)
    ensures
        r@ == told(players@, player_id),
{
    let mut r: Vec<usize> = Vec::new();
    let mut i: usize = 0;
    assert(players@.take(0) =~= Seq::<WorldPlayer>::empty());
    while i < players.len()
        invariant
            i <= players@.len(),
            r@ == told(players@.take(i as int), player_id),
        decreases players@.len() - i,
    {
        assert(players@.take(i + 1).drop_last() =~= players@.take(i as int));
        if players[i].id != player_id && players[i].bedrock {
            r.push(i);
        }
        i = i + 1;
    }
    assert(players@.take(i as int) =~= players@);
    r
}

/// What becomes of a skin that a player sends.
pub enum SkinUpdate {
    /// It claims to be another player's, and is dropped.
    Foreign,
    /// The player keeps the skin they had.
    Unchanged,
    /// The player has this skin now; its textures are registered, and these players are
    /// told.
    Shown(EncodedSkin, Registration, Vec<usize>),
}

/// Takes a skin that a player sends: a skin that the rules admit, or the substitute for
/// one that they do not, is registered and shown to all others on Bedrock.
pub fn handle_player_skin(
    accepted: &mut AcceptedSkins,
    registry: &mut SkinPackRegistry,
    players: &Vec<WorldPlayer>,
    player_id: u128,
    packet_id: u128,
    skin: EncodedSkin,
    fallback: EncodedSkin,
    trusted_only: bool,
    now_nanos: u128,
    cooldown_seconds: u64,
) -> (r: SkinUpdate)
    ensures
        ({
            let verdict = acceptance(
                old(accepted)@,
                player_id,
                skin@,
                fallback@,
                trusted_only,
                now_nanos,
                (cooldown_seconds * 1_000_000_000) as u128,
            );
            match r {
                SkinUpdate::Foreign => {
                    &&& packet_id != player_id
                    &&& final(accepted)@ == old(accepted)@
                    &&& final(registry)@ == old(registry)@
                },
                SkinUpdate::Unchanged => {
                    &&& packet_id == player_id
                    &&& !verdict.1
                    &&& final(accepted)@ == old(accepted)@
                    &&& final(registry)@ == old(registry)@
                },
                SkinUpdate::Shown(shown, registration, indices) => {
                    &&& packet_id == player_id
                    &&& verdict == (shown@, true)
                    &&& final(accepted)@ == old(accepted)@.insert(
                        player_id,
                        AcceptedView {
                            fingerprint: sha1_digest(shown@.encoded),
                            changed_at_nanos: now_nanos,
                            skin: shown@,
                        },
                    )
                    &&& registers(
                        old(registry)@,
                        player_id,
                        shown@.skin,
                        final(registry)@,
                        registration,
                    )
                    &&& indices@ == told(players@, player_id)
                },
            }
        }),
{
    if !claims_own_skin(packet_id, player_id) {
        return SkinUpdate::Foreign;
    }
    let cooldown: u128 = cooldown_seconds as u128 * 1_000_000_000;
    let (shown, changed) = accepted.accept(
        player_id,
        skin,
        fallback,
        trusted_only,
        now_nanos,
        cooldown,
    );
    if !changed {
        return SkinUpdate::Unchanged;
    }
    let registration = register(registry, player_id, &shown.skin);
    let indices = recipients(players, player_id);
    SkinUpdate::Shown(shown, registration, indices)
}

/// The player is never told of the skin that they sent.
pub proof fn law_the_sender_is_not_told(players: Seq<WorldPlayer>, player_id: u128)
    requires
        players.len() <= usize::MAX,
    ensures
        forall|k: int|
            0 <= k < told(players, player_id).len() ==> (#[trigger] told(players, player_id)[k])
                < players.len() && is_told(
                players[told(players, player_id)[k] as int],
                player_id,
            ),
    decreases players.len(),
{
    if players.len() > 0 {
        law_the_sender_is_not_told(players.drop_last(), player_id);
        let before = told(players.drop_last(), player_id);
        assert forall|k: int| 0 <= k < told(players, player_id).len() implies (#[trigger] told(
            players,
            player_id,
        )[k]) < players.len() && is_told(players[told(players, player_id)[k] as int], player_id) by {
            if k < before.len() {
                assert(before[k] < players.drop_last().len());
            }
        }
    }
}

/// Everyone else on Bedrock is told, once, in the order of the players.
pub proof fn law_all_others_on_bedrock_are_told(
    players: Seq<WorldPlayer>,
    player_id: u128,
    i: int,
)
    requires
        players.len() <= usize::MAX,
        0 <= i < players.len(),
    ensures
        told(players, player_id).contains(i as usize) <==> players[i].id != player_id
            && players[i].bedrock,
        forall|j: int, k: int|
            0 <= j < k < told(players, player_id).len() ==> told(players, player_id)[j] < told(
                players,
                player_id,
            )[k],
    decreases players.len(),
{
    law_the_sender_is_not_told(players, player_id);
    let rest = players.drop_last();
    let before = told(rest, player_id);
    let all = told(players, player_id);
    law_the_sender_is_not_told(rest, player_id);
    if rest.len() > 0 {
        law_all_others_on_bedrock_are_told(
            rest,
            player_id,
            if i < rest.len() {
                i
            } else {
                0
            },
        );
    }
    if i == rest.len() {
        if is_told(players[i], player_id) {
            assert(all[before.len() as int] == i as usize);
        }
    } else if before.contains(i as usize) {
        let k = choose|k: int| 0 <= k < before.len() && before[k] == i as usize;
        assert(all[k] == before[k]);
    }
    if all.contains(i as usize) {
        let k = choose|k: int| 0 <= k < all.len() && all[k] == i as usize;
        assert(is_told(players[all[k] as int], player_id));
    }
}

} // verus!
