//! What a Java client's answer to an offered resource pack leads to.

use super::login::{configured_id, configured_pack_id, ResourcePackConfig};
use super::version::{JavaMinecraftVersion, V_1_20_3};
use vstd::prelude::*;

verus! {

/// A client's answer to an offered pack.
#[derive(Clone, Copy, Debug, PartialEq, Eq, Structural)]
pub enum ResourcePackResponseResult {
    DownloadSuccess,
    DownloadFail,
    Downloaded,
    Accepted,
    Declined,
    InvalidUrl,
    ReloadFailed,
    Discarded,
    Unknown(i32),
}

/// The answer that a number stands for.
pub open spec fn response_of(id: i32) -> ResourcePackResponseResult {
    match id {
        0i32 => ResourcePackResponseResult::DownloadSuccess,
        1i32 => ResourcePackResponseResult::Declined,
        2i32 => ResourcePackResponseResult::DownloadFail,
        3i32 => ResourcePackResponseResult::Accepted,
        4i32 => ResourcePackResponseResult::Downloaded,
        5i32 => ResourcePackResponseResult::InvalidUrl,
        6i32 => ResourcePackResponseResult::ReloadFailed,
        7i32 => ResourcePackResponseResult::Discarded,
        _ => ResourcePackResponseResult::Unknown(id),
    }
}

impl ResourcePackResponseResult {
    /// The answer that a number stands for.
    pub fn from_id(id: i32) -> (r: Self)
        ensures
            r == response_of(id),
    {
        match id {
            0 => ResourcePackResponseResult::DownloadSuccess,
            1 => ResourcePackResponseResult::Declined,
            2 => ResourcePackResponseResult::DownloadFail,
            3 => ResourcePackResponseResult::Accepted,
            4 => ResourcePackResponseResult::Downloaded,
            5 => ResourcePackResponseResult::InvalidUrl,
            6 => ResourcePackResponseResult::ReloadFailed,
            7 => ResourcePackResponseResult::Discarded,
            _ => ResourcePackResponseResult::Unknown(id),
        }
    }
}

/// Whether an answer says that the client is still at it.
pub open spec fn in_progress(result: ResourcePackResponseResult) -> bool {
    result == ResourcePackResponseResult::Accepted || result
        == ResourcePackResponseResult::Downloaded
}

/// What an answer to the configured pack leads to.
#[derive(Clone, Copy, Debug, PartialEq, Eq, Structural)]
pub enum ConfiguredOutcome {
    /// The answer is about another pack.
    OtherPack,
    /// Nothing has to be done.
    Noted,
    /// The pack was refused although it is required.
    Kick,
}

/// Whether an answer is about the configured pack: by its id, or in old versions by
/// having none.
pub open spec fn is_configured(
    enabled: bool,
    pack_id: u128,
    version: JavaMinecraftVersion,
    id: u128,
) -> bool {
    enabled && (id == pack_id || (version < V_1_20_3 && id == 0))
}

/// What an answer to the configured pack leads to: refusing a required pack, or failing to
/// fetch it, leads to a kick.
pub open spec fn outcome_of(
    enabled: bool,
    force: bool,
    pack_id: u128,
    version: JavaMinecraftVersion,
    id: u128,
    result: ResourcePackResponseResult,
) -> ConfiguredOutcome {
    let refused = result == ResourcePackResponseResult::Declined || result
        == ResourcePackResponseResult::DownloadFail;
    if !is_configured(enabled, pack_id, version, id) {
        ConfiguredOutcome::OtherPack
    } else if force && refused {
        ConfiguredOutcome::Kick
    } else {
        ConfiguredOutcome::Noted
    }
}

/// What an answer to the configured pack leads to, given that pack's id.
pub fn configured_outcome(
    config: &ResourcePackConfig,
    pack_id: u128,
    version: JavaMinecraftVersion,
    id: u128,
    result: ResourcePackResponseResult,
) -> (r: ConfiguredOutcome)
    ensures
        r == (if !is_configured(config.enabled, pack_id, version, id) {
            ConfiguredOutcome::OtherPack
        } else if config.force && (result == ResourcePackResponseResult::Declined || result
            == ResourcePackResponseResult::DownloadFail) {
            ConfiguredOutcome::Kick
        } else {
            ConfiguredOutcome::Noted
        }),
        r == outcome_of(config.enabled, config.force, pack_id, version, id, result),
{
    let configured = id == pack_id || (version < V_1_20_3 && id == 0);
    if config.enabled && configured {
        if config.force && matches!(
            result,
            ResourcePackResponseResult::Declined | ResourcePackResponseResult::DownloadFail
        ) {
            return ConfiguredOutcome::Kick;
        }
        return ConfiguredOutcome::Noted;
    }
    ConfiguredOutcome::OtherPack
}

/// What an answer leads to where it may be about the configured pack.
pub fn handle_play_resource_pack_response(
    config: &ResourcePackConfig,
    version: JavaMinecraftVersion,
    id: u128,
    result: ResourcePackResponseResult,
) -> (r: ConfiguredOutcome)
    ensures
        r == (if !is_configured(config.enabled, configured_pack_id(config.url@), version, id) {
            ConfiguredOutcome::OtherPack
        } else if config.force && (result == ResourcePackResponseResult::Declined || result
            == ResourcePackResponseResult::DownloadFail) {
            ConfiguredOutcome::Kick
        } else {
            ConfiguredOutcome::Noted
        }),
        r == outcome_of(
            config.enabled,
            config.force,
            configured_pack_id(config.url@),
            version,
            id,
            result,
        ),
{
    configured_outcome(config, configured_id(&config.url), version, id, result)
}

/// The text with which a client is sent away that refuses a required pack.
pub const REQUIRED_PACK_TEXT: &'static str = "You must accept the resource pack to play on this server.";

/// The packs of Bedrock skins of one client: the one that it was offered, and the one
/// that it uses.
#[derive(Clone, Copy, Debug, PartialEq, Eq, Structural)]
pub struct SkinPackSession {
    pub pending: Option<u128>,
    pub current: Option<u128>,
}

/// What follows from an answer about a pack of Bedrock skins.
#[derive(Clone, Copy, Debug, PartialEq, Eq, Structural)]
pub struct SkinPackReaction {
    /// The pack that the client should remove.
    pub remove: Option<u128>,
    /// Whether Bedrock players have to be shown anew.
    pub refresh: bool,
    /// The pack to offer next.
    pub offer: Option<u128>,
}

/// Nothing follows.
pub open spec fn no_reaction() -> SkinPackReaction {
    SkinPackReaction { remove: None, refresh: false, offer: None }
}

/// The latest pack, where it is another than the one that was answered.
pub open spec fn newer_offer(latest: Option<u128>, id: u128) -> Option<u128> {
    match latest {
        Some(l) => if l != id {
            Some(l)
        } else {
            None
        },
        None => None,
    }
}

/// What an answer makes of the packs, and what follows from it. Only the outstanding
/// offer can be taken up, and once; a pack in use that fails is given up.
pub open spec fn answered(
    s: SkinPackSession,
    closed: bool,
    id: u128,
    result: ResourcePackResponseResult,
    latest: Option<u128>,
) -> (SkinPackSession, SkinPackReaction) {
    if closed {
        (s, no_reaction())
    } else if s.pending == Some(id) {
        if in_progress(result) {
            (s, no_reaction())
        } else if result == ResourcePackResponseResult::DownloadSuccess {
            (
                SkinPackSession { pending: None, current: Some(id) },
                SkinPackReaction {
                    remove: if s.current is Some && s.current != Some(id) {
                        s.current
                    } else {
                        None
                    },
                    refresh: true,
                    offer: newer_offer(latest, id),
                },
            )
        } else {
            (
                SkinPackSession { pending: None, ..s },
                SkinPackReaction { offer: newer_offer(latest, id), ..no_reaction() },
            )
        }
    } else if s.current == Some(id) && !in_progress(result) && result
        != ResourcePackResponseResult::DownloadSuccess {
        (
            SkinPackSession { current: None, ..s },
            SkinPackReaction { refresh: true, ..no_reaction() },
        )
    } else {
        (s, no_reaction())
    }
}

impl SkinPackSession {
    /// Takes an answer about a pack of Bedrock skins. The latest pack is offered once an
    /// offer is settled, so that changes during a download end in one offer.
    pub fn handle_response(
        &mut self,
        closed: bool,
        id: u128,
        result: ResourcePackResponseResult,
        latest: Option<u128>,
    ) -> (r: SkinPackReaction)
        ensures
            (*final(self), r) == answered(*old(self), closed, id, result, latest),
    {
        let mut reaction = SkinPackReaction { remove: None, refresh: false, offer: None };
        if closed {
            return reaction;
        }
        let busy = matches!(
            result,
            ResourcePackResponseResult::Accepted | ResourcePackResponseResult::Downloaded
        );
        let is_pending = match self.pending {
            Some(p) => p == id,
            None => false,
        };
        let is_current = match self.current {
            Some(c) => c == id,
            None => false,
        };
        if is_pending {
            if busy {
                return reaction;
            }
            self.pending = None;
            if result == ResourcePackResponseResult::DownloadSuccess {
                if let Some(previous) = self.current {
                    if previous != id {
                        reaction.remove = Some(previous);
                    }
                }
                self.current = Some(id);
                reaction.refresh = true;
            }
        } else if is_current && !busy && result != ResourcePackResponseResult::DownloadSuccess {
            self.current = None;
            reaction.refresh = true;
            return reaction;
        } else {
            return reaction;
        }
        if let Some(latest) = latest {
            if latest != id {
                reaction.offer = Some(latest);
            }
        }
        reaction
    }
}

/// An answer to anything but the outstanding offer never takes up a pack: a client
/// cannot choose a pack that it was not offered, nor repeat an answer.
pub proof fn law_only_the_outstanding_offer_is_taken_up(
    s: SkinPackSession,
    closed: bool,
    id: u128,
    result: ResourcePackResponseResult,
    latest: Option<u128>,
)
    ensures
        ({
            let s2 = answered(s, closed, id, result, latest).0;
            s2.current is Some && s2.current != s.current ==> s.pending == s2.current
        }),
        ({
            let s2 = answered(s, closed, id, result, latest).0;
            s.pending == Some(id) && s2.pending is None ==> answered(
                s2,
                closed,
                id,
                ResourcePackResponseResult::DownloadSuccess,
                latest,
            ).0 == s2
        }),
{
}

/// A pack is only removed where another one takes its place.
pub proof fn law_only_a_superseded_pack_is_removed(
    s: SkinPackSession,
    closed: bool,
    id: u128,
    result: ResourcePackResponseResult,
    latest: Option<u128>,
)
    ensures
        ({
            let (s2, r) = answered(s, closed, id, result, latest);
            r.remove is Some ==> r.remove == s.current && s2.current == Some(id) && r.remove
                != Some(id)
        }),
{
}

/// Each answer has its number, and an unknown number is kept.
pub proof fn law_answers_have_their_numbers(id: i32, other: i32)
    ensures
        response_of(id) == response_of(other) ==> id == other,
        response_of(id) is Unknown <==> id < 0 || id > 7,
        response_of(id) matches ResourcePackResponseResult::Unknown(n) ==> n == id,
        response_of(0) == ResourcePackResponseResult::DownloadSuccess,
        in_progress(response_of(id)) <==> id == 3 || id == 4,
{
}

/// An answer is about the configured pack just where that is enabled and has the answer's id;
/// clients before 1.20.3 name no id.
pub proof fn law_old_clients_name_no_pack(
    enabled: bool,
    pack_id: u128,
    version: JavaMinecraftVersion,
    id: u128,
)
    ensures
        !enabled ==> !is_configured(enabled, pack_id, version, id),
        enabled ==> is_configured(enabled, pack_id, version, pack_id),
        enabled && version < 1_020_003 ==> is_configured(enabled, pack_id, version, 0),
        enabled && version >= 1_020_003 ==> (is_configured(enabled, pack_id, version, id) <==> id
            == pack_id),
        id != pack_id && id != 0 ==> !is_configured(enabled, pack_id, version, id),
{
}

/// An offer that is taken up becomes the pack in use, and one that fails is given up; either way
/// nothing stays outstanding, and a newer pack is offered where there is one. A pack in use that
/// fails is given up too. While a client is at it, and once it left, nothing happens.
pub proof fn law_settled_offers_are_not_outstanding(
    s: SkinPackSession,
    id: u128,
    result: ResourcePackResponseResult,
    latest: Option<u128>,
)
    ensures
        ({
            let (after, reaction) = answered(s, false, id, result, latest);
            let done = result == ResourcePackResponseResult::DownloadSuccess;
            let busy = result == ResourcePackResponseResult::Accepted || result
                == ResourcePackResponseResult::Downloaded;
            &&& busy ==> after == s && reaction.remove is None && !reaction.refresh
                && reaction.offer is None
            &&& s.pending == Some(id) && !busy ==> {
                &&& after.pending is None
                &&& reaction.offer is Some <==> latest is Some && latest != Some(id)
                &&& reaction.offer is Some ==> reaction.offer == latest
                &&& reaction.refresh == done
                &&& done ==> after.current == Some(id)
                &&& done && s.current is Some && s.current != Some(id) ==> reaction.remove
                    == s.current
                &&& !done ==> after.current == s.current && reaction.remove is None
            }
            &&& s.pending != Some(id) && s.current == Some(id) && !busy && !done ==> {
                &&& after.current is None
                &&& after.pending == s.pending
                &&& reaction.refresh
                &&& reaction.remove is None && reaction.offer is None
            }
            &&& s.pending != Some(id) && (s.current != Some(id) || done) ==> after == s
                && !reaction.refresh && reaction.remove is None && reaction.offer is None
        }),
        ({
            let (after, reaction) = answered(s, true, id, result, latest);
            after == s && reaction.remove is None && !reaction.refresh && reaction.offer is None
        }),
{
}

/// Nobody is kicked for a pack that is not required, or for one that they took: only an answer to
/// the configured pack that declines it, or says that it could not be fetched, kicks, and only
/// where the pack is required.
pub proof fn law_only_required_packs_kick(
    enabled: bool,
    force: bool,
    pack_id: u128,
    version: JavaMinecraftVersion,
    id: u128,
    number: i32,
)
    ensures
        ({
            let outcome = outcome_of(enabled, force, pack_id, version, id, response_of(number));
            let about = enabled && (id == pack_id || (version < 1_020_003 && id == 0));
            &&& outcome == ConfiguredOutcome::OtherPack <==> !about
            &&& outcome == ConfiguredOutcome::Kick <==> about && force && (number == 1 || number
                == 2)
        }),
{
}

} // verus!
