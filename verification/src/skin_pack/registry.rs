//! Which skins are packed, and which skin each player may show.

use super::hash::{hex_encode, hex_of, sha1_digest, sha1_of};
use super::image::option_bytes;
use super::pack::{
    build_pack, built_pack, entry_views, ordered, pack_from_data, pack_with, packed_skin,
    AssetView, BedrockSkin, BedrockSkinPack, CacheManifest, CachedEntry, EntryView, ManifestSkin,
    PackError, PackView, CACHE_VERSION,
};
use super::skin::{
    cached_hash, cached_skin_hash, fallback_id, is_fallback_skin, is_valid_skin, valid_skin,
    CachedSkin, CachedView, Skin, SkinView,
};
use crate::bytes::bytes_eq;
use std::collections::HashMap;
use vstd::prelude::*;

verus! {

broadcast use vstd::std_specs::hash::group_hash_axioms;

/// The packed skins, in the order of their players' ids, and the current pack.
pub struct SkinPackRegistry {
    pub skins: Vec<CachedEntry>,
    pub current: Option<BedrockSkinPack>,
    /// Whether the files of the cache are behind.
    pub dirty: bool,
}

pub struct RegistryView {
    pub skins: Seq<EntryView>,
    pub current: Option<PackView>,
    pub dirty: bool,
}

/// The view of an optional pack.
pub open spec fn option_pack(p: Option<BedrockSkinPack>) -> Option<PackView> {
    match p {
        Some(p) => Some(p@),
        None => None,
    }
}

impl View for SkinPackRegistry {
    type V = RegistryView;

    open spec fn view(&self) -> RegistryView {
        RegistryView {
            skins: entry_views(self.skins@),
            current: option_pack(self.current),
            dirty: self.dirty,
        }
    }
}

/// How many entries come before an id.
pub open spec fn position(entries: Seq<EntryView>, id: u128) -> nat
    decreases entries.len(),
{
    if entries.len() == 0 || entries[0].id >= id {
        0
    } else {
        1 + position(entries.drop_first(), id)
    }
}

/// Whether an id has an entry.
pub open spec fn holds(entries: Seq<EntryView>, id: u128) -> bool {
    let at = position(entries, id) as int;
    at < entries.len() && entries[at].id == id
}

/// The entries with a player's skin, which replaces an earlier one.
pub open spec fn inserted(entries: Seq<EntryView>, id: u128, skin: CachedView) -> Seq<EntryView> {
    let at = position(entries, id) as int;
    if holds(entries, id) {
        entries.update(at, EntryView { id, skin })
    } else {
        entries.insert(at, EntryView { id, skin })
    }
}

pub proof fn lemma_position(entries: Seq<EntryView>, id: u128)
    ensures
        position(entries, id) <= entries.len(),
        forall|i: int| 0 <= i < position(entries, id) ==> (#[trigger] entries[i]).id < id,
        position(entries, id) < entries.len() ==> entries[position(entries, id) as int].id >= id,
    decreases entries.len(),
{
    if entries.len() > 0 && entries[0].id < id {
        let rest = entries.drop_first();
        lemma_position(rest, id);
        assert forall|i: int| 0 <= i < position(entries, id) implies (#[trigger] entries[i]).id
            < id by {
            if i > 0 {
                assert(rest[i - 1].id < id);
            }
        }
    }
}

/// An insertion keeps the order of the ids, and each id once.
pub proof fn law_insertion_keeps_the_order(entries: Seq<EntryView>, id: u128, skin: CachedView)
    requires
        ordered(entries),
    ensures
        ordered(inserted(entries, id, skin)),
        holds(inserted(entries, id, skin), id),
        inserted(entries, id, skin)[position(inserted(entries, id, skin), id) as int].skin == skin,
{
    lemma_position(entries, id);
    let at = position(entries, id) as int;
    let after = inserted(entries, id, skin);
    assert forall|i: int, j: int| 0 <= i < j < after.len() implies (#[trigger] after[i]).id < (
    #[trigger] after[j]).id by {
        if holds(entries, id) {
            assert(entries[i].id < entries[j].id);
        } else {
            let x = if i < at {
                i
            } else {
                i - 1
            };
            let y = if j < at {
                j
            } else {
                j - 1
            };
            if i == at {
                assert(entries[at].id >= id);
                if y > at {
                    assert(entries[at].id < entries[y].id);
                }
            } else if j == at {
                assert(entries[x].id < id);
            } else {
                assert(entries[x].id < entries[y].id);
            }
        }
    }
    lemma_position(after, id);
    let p = position(after, id) as int;
    assert(after[at].id == id);
    if p < at {
        assert(after[p].id < after[at].id);
    } else if p > at {
        assert(after[at].id < id);
    }
}

/// How many entries come before an id.
fn position_of(entries: &Vec<CachedEntry>, id: u128) -> (r: usize)
    ensures
        r == position(entry_views(entries@), id),
        r <= entries@.len(),
{
    let ghost all = entry_views(entries@);
    let mut i: usize = 0;
    assert(all.skip(0) =~= all);
    while i < entries.len() && entries[i].id < id
        invariant
            i <= entries@.len(),
            all == entry_views(entries@),
            position(all, id) == i + position(all.skip(i as int), id),
        decreases entries@.len() - i,
    {
        assert(all.skip(i as int)[0] == entries@[i as int]@);
        assert(all.skip(i as int).drop_first() =~= all.skip(i + 1));
        i = i + 1;
    }
    proof {
        if i < entries@.len() {
            assert(all.skip(i as int)[0] == entries@[i as int]@);
        }
    }
    i
}

/// Puts a skin in its place, and returns the one that it replaces.
fn put(entries: &mut Vec<CachedEntry>, id: u128, skin: CachedSkin) -> (r: Option<CachedSkin>)
    ensures
        entry_views(final(entries)@) == inserted(entry_views(old(entries)@), id, skin@),
        r is Some == holds(entry_views(old(entries)@), id),
        r matches Some(s) ==> s@ == entry_views(old(entries)@)[position(
            entry_views(old(entries)@),
            id,
        ) as int].skin,
{
    let at: usize = position_of(entries, id);
    let ghost before = entry_views(entries@);
    let new = CachedEntry { id, skin };
    if at < entries.len() && entries[at].id == id {
        assert(before[at as int] == entries@[at as int]@);
        let previous = entries.remove(at);
        entries.insert(at, new);
        assert(entry_views(entries@) =~= before.update(at as int, new@));
        Some(previous.skin)
    } else {
        proof {
            if at < entries@.len() {
                assert(before[at as int] == entries@[at as int]@);
            }
        }
        entries.insert(at, new);
        assert(entry_views(entries@) =~= before.insert(at as int, new@));
        None
    }
}

/// What came of preparing a new pack.
pub enum StageOutcome {
    /// The skin is packed already.
    Unchanged,
    /// The pack could not be built, and the registry is as it was.
    Refused(PackError),
    /// The new pack, and whether the player's files have to be written.
    Staged(BedrockSkinPack, bool),
}

/// Whether a skin is packed already, and the files are up to date.
pub open spec fn is_packed(r: RegistryView, id: u128, skin: CachedView) -> bool {
    &&& !r.dirty
    &&& holds(r.skins, id)
    &&& r.skins[position(r.skins, id) as int].skin.hash == skin.hash
    &&& r.skins[position(r.skins, id) as int].skin.slim == skin.slim
}

/// Whether a player's files have to be written: not where they hold the same images.
pub open spec fn needs_files(r: RegistryView, id: u128, skin: CachedView) -> bool {
    !(holds(r.skins, id) && !r.dirty && r.skins[position(r.skins, id) as int].skin.hash == skin.hash)
}

/// The textures that the current pack has for a player.
pub open spec fn current_skin(r: RegistryView, id: u128) -> Option<AssetView> {
    match r.current {
        Some(p) => packed_skin(p.skins, id),
        None => None,
    }
}

/// The view of optional textures.
pub open spec fn option_asset(s: Option<BedrockSkin>) -> Option<AssetView> {
    match s {
        Some(s) => Some(s@),
        None => None,
    }
}

impl Default for SkinPackRegistry {
    fn default() -> (r: Self)
        ensures
            r@ == (RegistryView { skins: Seq::empty(), current: None, dirty: false }),
    {
        let r = SkinPackRegistry { skins: Vec::new(), current: None, dirty: false };
        assert(entry_views(r.skins@) =~= Seq::<EntryView>::empty());
        r
    }
}

impl SkinPackRegistry {
    /// The textures that the current pack has for a player.
    pub fn packed(&self, player_id: u128) -> (r: Option<BedrockSkin>)
        ensures
            option_asset(r) == current_skin(self@, player_id),
    {
        match &self.current {
            Some(pack) => match pack.skin(player_id) {
                Some(skin) => Some(skin.clone()),
                None => None,
            },
            None => None,
        }
    }

    /// Prepares a pack with a player's skin.
    pub fn stage(&mut self, player_id: u128, skin: CachedSkin) -> (r: StageOutcome)
        ensures
            is_packed(old(self)@, player_id, skin@) ==> r is Unchanged && final(self)@ == old(
                self,
            )@,
            !is_packed(old(self)@, player_id, skin@) ==> match built_pack(
                inserted(old(self)@.skins, player_id, skin@),
            ) {
                Err(e) => r == StageOutcome::Refused(e) && final(self)@ == old(self)@,
                Ok(p) => {
                    &&& r matches StageOutcome::Staged(pack, files) && pack@ == p && files
                        == needs_files(old(self)@, player_id, skin@)
                    &&& final(self)@ == (RegistryView {
                        skins: inserted(old(self)@.skins, player_id, skin@),
                        ..old(self)@
                    })
                },
            },
    {
        let ghost before = entry_views(self.skins@);
        let at: usize = position_of(&self.skins, player_id);
        let mut files = true;
        if at < self.skins.len() && self.skins[at].id == player_id {
            assert(before[at as int] == self.skins@[at as int]@);
            let same_hash = self.skins[at].skin.hash == skin.hash;
            if !self.dirty && same_hash {
                if self.skins[at].skin.slim == skin.slim {
                    return StageOutcome::Unchanged;
                }
                files = false;
            }
        }
        proof {
            if at < self.skins@.len() {
                assert(before[at as int] == self.skins@[at as int]@);
            }
            assert(files == needs_files(self@, player_id, skin@));
        }
        let previous = put(&mut self.skins, player_id, skin);
        let ghost staged = entry_views(self.skins@);
        match build_pack(&self.skins) {
            Ok(pack) => StageOutcome::Staged(pack, files),
            Err(error) => {
                let ghost middle = self.skins@;
                let _ = self.skins.remove(at);
                assert(entry_views(self.skins@) =~= staged.remove(at as int));
                if let Some(skin) = previous {
                    let entry = CachedEntry { id: player_id, skin };
                    self.skins.insert(at, entry);
                    assert(entry_views(self.skins@) =~= staged.remove(at as int).insert(
                        at as int,
                        entry@,
                    ));
                }
                assert(entry_views(self.skins@) =~= before);
                StageOutcome::Refused(error)
            },
        }
    }

    /// Makes a prepared pack the current one, and returns the player's textures.
    pub fn commit(&mut self, player_id: u128, pack: BedrockSkinPack, persisted: bool) -> (r: Option<
        BedrockSkin,
    >)
        ensures
            final(self)@ == (RegistryView {
                current: Some(pack@),
                dirty: !persisted,
                ..old(self)@
            }),
            option_asset(r) == packed_skin(pack@.skins, player_id),
    {
        self.dirty = !persisted;
        self.current = Some(pack);
        self.packed(player_id)
    }
}

/// What a registration has to do.
pub enum Registration {
    /// Nothing: these are the player's textures, if there are any.
    Known(Option<BedrockSkin>),
    /// The skin has no place in the pack.
    Unsuitable,
    /// The pack could not be built.
    Refused(PackError),
    /// A new pack is to be written, with the player's files where they changed, and
    /// then committed.
    Write(BedrockSkinPack, bool),
}

/// What a registration makes of the registry, and what it has to do: a substitute skin
/// never replaces a packed one.
pub open spec fn registers(
    before: RegistryView,
    player_id: u128,
    skin: SkinView,
    after: RegistryView,
    r: Registration,
) -> bool {
    if skin.skin_id == fallback_id(player_id) {
        &&& after == before
        &&& r matches Registration::Known(s) && option_asset(s) == current_skin(before, player_id)
    } else {
        match super::skin::cached_form(skin) {
            None => after == before && r is Unsuitable,
            Some(cached) => if is_packed(before, player_id, cached) {
                &&& after == before
                &&& r matches Registration::Known(s) && option_asset(s) == current_skin(
                    before,
                    player_id,
                )
            } else {
                match built_pack(inserted(before.skins, player_id, cached)) {
                    Err(e) => after == before && r == Registration::Refused(e),
                    Ok(p) => {
                        &&& after == (RegistryView {
                            skins: inserted(before.skins, player_id, cached),
                            ..before
                        })
                        &&& r matches Registration::Write(pack, files) && pack@ == p && files
                            == needs_files(before, player_id, cached)
                    },
                }
            },
        }
    }
}

/// Registers a player's skin. A substitute skin never replaces a packed one.
pub fn register(registry: &mut SkinPackRegistry, player_id: u128, skin: &Skin) -> (r: Registration)
    ensures
        registers(old(registry)@, player_id, skin@, final(registry)@, r),
{
    if is_fallback_skin(player_id, skin) {
        return Registration::Known(registry.packed(player_id));
    }
    match CachedSkin::new(skin) {
        None => Registration::Unsuitable,
        Some(cached) => match registry.stage(player_id, cached) {
            StageOutcome::Unchanged => Registration::Known(registry.packed(player_id)),
            StageOutcome::Refused(error) => Registration::Refused(error),
            StageOutcome::Staged(pack, files) => Registration::Write(pack, files),
        },
    }
}

/// Whether a manifest is one that this version wrote.
pub fn manifest_is_current(manifest: &CacheManifest) -> (r: bool)
    ensures
        r == (manifest.version == CACHE_VERSION),
{
    manifest.version == CACHE_VERSION
}

/// Takes a skin from the cache's files. It is refused where the files do not have the
/// hash that the manifest gives.
pub fn restore_skin(
    registry: &mut SkinPackRegistry,
    manifest: ManifestSkin,
    png: Vec<u8>,
    cape_png: Option<Vec<u8>>,
) -> (r: bool)
    ensures
        r == (cached_hash(png@, option_bytes(cape_png)) == manifest.hash@),
        final(registry)@ == (if r {
            RegistryView {
                skins: inserted(
                    old(registry)@.skins,
                    manifest.id,
                    CachedView {
                        slim: manifest.slim,
                        hash: manifest.hash@,
                        png: png@,
                        cape_png: option_bytes(cape_png),
                    },
                ),
                ..old(registry)@
            }
        } else {
            old(registry)@
        }),
{
    if cached_skin_hash(&png, &cape_png) != manifest.hash {
        return false;
    }
    let skin = CachedSkin { slim: manifest.slim, hash: manifest.hash, png, cape_png };
    put(&mut registry.skins, manifest.id, skin);
    true
}

/// The pack of restored skins: the cached archive where it is intact, else a new one.
pub open spec fn restored_pack(
    skins: Seq<EntryView>,
    pack_hash: Seq<char>,
    pack_data: Option<Seq<u8>>,
) -> Result<PackView, PackError> {
    match pack_data {
        Some(data) => if hex_of(sha1_digest(data)) == pack_hash {
            pack_with(skins, data)
        } else {
            built_pack(skins)
        },
        None => built_pack(skins),
    }
}

/// Makes the pack of restored skins current, and says whether it has to be written.
pub fn restore_pack(
    registry: &mut SkinPackRegistry,
    pack_hash: &String,
    pack_data: Option<Vec<u8>>,
) -> (r: Result<bool, PackError>)
    ensures
        match restored_pack(old(registry)@.skins, pack_hash@, option_bytes(pack_data)) {
            Ok(p) => {
                &&& r == Ok::<bool, PackError>(
                    !(pack_data matches Some(d) && hex_of(sha1_digest(d@)) == pack_hash@),
                )
                &&& final(registry)@ == (RegistryView {
                    current: Some(p),
                    dirty: false,
                    ..old(registry)@
                })
            },
            Err(e) => r == Err::<bool, PackError>(e) && final(registry)@ == old(registry)@,
        },
{
    let mut intact = false;
    if let Some(data) = &pack_data {
        intact = hex_encode(sha1_of(data.as_slice()).as_slice()) == *pack_hash;
    }
    let result = match pack_data {
        Some(data) => if intact {
            pack_from_data(&registry.skins, data)
        } else {
            build_pack(&registry.skins)
        },
        None => build_pack(&registry.skins),
    };
    match result {
        Ok(pack) => {
            registry.current = Some(pack);
            registry.dirty = false;
            Ok(!intact)
        },
        Err(error) => Err(error),
    }
}

/// A skin with its wire form.
pub struct EncodedSkin {
    pub skin: Skin,
    pub encoded: Vec<u8>,
}

pub struct EncodedView {
    pub skin: SkinView,
    pub encoded: Seq<u8>,
}

impl View for EncodedSkin {
    type V = EncodedView;

    open spec fn view(&self) -> EncodedView {
        EncodedView { skin: self.skin@, encoded: self.encoded@ }
    }
}

impl Clone for EncodedSkin {
    fn clone(&self) -> (r: Self)
        ensures
            r@ == self@,
    {
        EncodedSkin {
            skin: self.skin.clone(),
            encoded: super::skin::copy_bytes(&self.encoded),
        }
    }
}

/// The skin that a player shows, and since when.
pub struct AcceptedSkin {
    pub fingerprint: Vec<u8>,
    pub changed_at_nanos: u128,
    pub skin: EncodedSkin,
}

pub struct AcceptedView {
    pub fingerprint: Seq<u8>,
    pub changed_at_nanos: u128,
    pub skin: EncodedView,
}

impl View for AcceptedSkin {
    type V = AcceptedView;

    open spec fn view(&self) -> AcceptedView {
        AcceptedView {
            fingerprint: self.fingerprint@,
            changed_at_nanos: self.changed_at_nanos,
            skin: self.skin@,
        }
    }
}

/// The skins that players show.
pub struct AcceptedSkins {
    accepted: HashMap<u128, AcceptedSkin>,
}

impl View for AcceptedSkins {
    type V = Map<u128, AcceptedView>;

    closed spec fn view(&self) -> Map<u128, AcceptedView> {
        self.accepted@.map_values(|a: AcceptedSkin| a@)
    }
}

/// Whether a skin is refused: where only trusted skins count and it is not one, or
/// where its images are malformed.
pub open spec fn is_rejected(skin: SkinView, trusted_only: bool) -> bool {
    (trusted_only && !skin.is_trusted) || !is_valid_skin(skin)
}

/// The time between two moments, or none where they are out of order.
pub open spec fn elapsed(from: u128, to: u128) -> u128 {
    if to >= from {
        (to - from) as u128
    } else {
        0
    }
}

/// What becomes of a player's new skin: the skin that is shown, and whether it changed.
pub open spec fn acceptance(
    accepted: Map<u128, AcceptedView>,
    player_id: u128,
    skin: EncodedView,
    fallback: EncodedView,
    trusted_only: bool,
    now_nanos: u128,
    cooldown_nanos: u128,
) -> (EncodedView, bool) {
    let rejected = is_rejected(skin.skin, trusted_only);
    let chosen = if rejected {
        fallback
    } else {
        skin
    };
    if accepted.contains_key(player_id) {
        let previous = accepted[player_id];
        if previous.fingerprint == sha1_digest(chosen.encoded) {
            (previous.skin, false)
        } else if !rejected && elapsed(previous.changed_at_nanos, now_nanos) < cooldown_nanos {
            (previous.skin, false)
        } else {
            (chosen, true)
        }
    } else {
        (chosen, true)
    }
}

impl AcceptedSkins {
    pub fn new() -> (r: Self)
        ensures
            r@ == Map::<u128, AcceptedView>::empty(),
    {
        let r = AcceptedSkins { accepted: HashMap::new() };
        assert(r@ =~= Map::<u128, AcceptedView>::empty());
        r
    }

    /// Applies the trust policy and the rate limit to a player's new skin. A refused
    /// skin is replaced by the player's substitute at once.
    pub fn accept(
        &mut self,
        player_id: u128,
        skin: EncodedSkin,
        fallback: EncodedSkin,
        trusted_only: bool,
        now_nanos: u128,
        cooldown_nanos: u128,
    ) -> (r: (EncodedSkin, bool))
        ensures
            (r.0@, r.1) == acceptance(
                old(self)@,
                player_id,
                skin@,
                fallback@,
                trusted_only,
                now_nanos,
                cooldown_nanos,
            ),
            final(self)@ == (if r.1 {
                old(self)@.insert(
                    player_id,
                    AcceptedView {
                        fingerprint: sha1_digest(r.0@.encoded),
                        changed_at_nanos: now_nanos,
                        skin: r.0@,
                    },
                )
            } else {
                old(self)@
            }),
    {
        let rejected = (trusted_only && !skin.skin.is_trusted) || !valid_skin(&skin.skin);
        let chosen = if rejected {
            fallback
        } else {
            skin
        };
        let fingerprint = super::skin::skin_fingerprint(chosen.encoded.as_slice());
        if let Some(previous) = self.accepted.get(&player_id) {
            if bytes_eq(previous.fingerprint.as_slice(), fingerprint.as_slice()) {
                return (previous.skin.clone(), false);
            }
            let passed: u128 = if now_nanos >= previous.changed_at_nanos {
                now_nanos - previous.changed_at_nanos
            } else {
                0
            };
            if !rejected && passed < cooldown_nanos {
                return (previous.skin.clone(), false);
            }
        }
        let entry = AcceptedSkin {
            fingerprint,
            changed_at_nanos: now_nanos,
            skin: chosen.clone(),
        };
        self.accepted.insert(player_id, entry);
        assert(self@ =~= old(self)@.insert(player_id, entry@));
        (chosen, true)
    }
}

/// A refused skin is never shown: either the substitute is shown, or what was shown
/// before.
pub proof fn law_refused_skins_are_not_shown(
    accepted: Map<u128, AcceptedView>,
    player_id: u128,
    skin: EncodedView,
    fallback: EncodedView,
    trusted_only: bool,
    now_nanos: u128,
    cooldown_nanos: u128,
)
    requires
        is_rejected(skin.skin, trusted_only),
    ensures
        ({
            let (shown, changed) = acceptance(
                accepted,
                player_id,
                skin,
                fallback,
                trusted_only,
                now_nanos,
                cooldown_nanos,
            );
            &&& changed ==> shown == fallback
            &&& !changed ==> accepted.contains_key(player_id) && shown == accepted[player_id].skin
                && accepted[player_id].fingerprint == sha1_digest(fallback.encoded)
        }),
{
}

/// Within the cooldown no accepted skin replaces another.
pub proof fn law_the_cooldown_holds(
    accepted: Map<u128, AcceptedView>,
    player_id: u128,
    skin: EncodedView,
    fallback: EncodedView,
    trusted_only: bool,
    now_nanos: u128,
    cooldown_nanos: u128,
)
    requires
        accepted.contains_key(player_id),
        !is_rejected(skin.skin, trusted_only),
        elapsed(accepted[player_id].changed_at_nanos, now_nanos) < cooldown_nanos,
    ensures
        acceptance(
            accepted,
            player_id,
            skin,
            fallback,
            trusted_only,
            now_nanos,
            cooldown_nanos,
        ) == (accepted[player_id].skin, false),
{
}

/// A pack that was committed is found intact when its data is read again.
pub proof fn law_a_written_pack_is_restored(entries: Seq<EntryView>)
    requires
        built_pack(entries) is Ok,
    ensures
        restored_pack(
            entries,
            (built_pack(entries)->Ok_0).hash,
            Some((built_pack(entries)->Ok_0).data),
        ) == built_pack(entries),
{
}

proof fn lemma_held(entries: Seq<EntryView>, id: u128, i: int)
    requires
        ordered(entries),
        0 <= i < entries.len(),
        entries[i].id == id,
    ensures
        position(entries, id) == i,
        holds(entries, id),
{
    lemma_position(entries, id);
    let p = position(entries, id) as int;
    if p < i {
        assert(entries[p].id < entries[i].id);
    } else if p > i {
        assert(entries[i].id < id);
    }
}

/// An insertion concerns one player alone: every other player has an entry just where there
/// was one, with the same skin, and the list is longer by one unless the player had an entry.
pub proof fn law_insertion_leaves_others_alone(
    entries: Seq<EntryView>,
    id: u128,
    skin: CachedView,
    other: u128,
)
    requires
        ordered(entries),
        other != id,
    ensures
        ({
            let after = inserted(entries, id, skin);
            let was = position(entries, other) as int;
            let is = position(after, other) as int;
            &&& holds(after, other) <==> holds(entries, other)
            &&& holds(entries, other) ==> after[is].skin == entries[was].skin
            &&& after.len() == entries.len() + if holds(entries, id) {
                0nat
            } else {
                1
            }
            &&& holds(entries, other) <==> exists|i: int|
                0 <= i < entries.len() && (#[trigger] entries[i]).id == other
        }),
{
    law_insertion_keeps_the_order(entries, id, skin);
    lemma_position(entries, id);
    let after = inserted(entries, id, skin);
    let at = position(entries, id) as int;
    if exists|i: int| 0 <= i < entries.len() && (#[trigger] entries[i]).id == other {
        let i = choose|i: int| 0 <= i < entries.len() && (#[trigger] entries[i]).id == other;
        lemma_held(entries, other, i);
        let j = if holds(entries, id) || i < at {
            i
        } else {
            i + 1
        };
        assert(after[j] == entries[i]);
        lemma_held(after, other, j);
    }
    if holds(after, other) {
        let j = position(after, other) as int;
        let i = if holds(entries, id) || j < at {
            j
        } else {
            j - 1
        };
        assert(after[j] == entries[i]);
        lemma_held(entries, other, i);
    }
}

/// A skin is packed already just where its player's entry has its hash and model and the files
/// are up to date; files are written for it unless they hold its images.
pub proof fn law_changed_skins_are_packed_anew(r: RegistryView, id: u128, skin: CachedView)
    ensures
        ({
            let entry = r.skins[position(r.skins, id) as int].skin;
            &&& r.dirty ==> !is_packed(r, id, skin) && needs_files(r, id, skin)
            &&& !holds(r.skins, id) ==> !is_packed(r, id, skin) && needs_files(r, id, skin)
            &&& !r.dirty && holds(r.skins, id) ==> {
                &&& is_packed(r, id, skin) <==> entry.hash == skin.hash && entry.slim == skin.slim
                &&& needs_files(r, id, skin) <==> entry.hash != skin.hash
            }
        }),
{
}

/// A registration that is to be written puts the skin into the registry, changes no other
/// player's, and keeps the current pack until the new one is written; any other registration
/// changes nothing.
pub proof fn law_registrations_change_one_player(
    before: RegistryView,
    player_id: u128,
    skin: SkinView,
    after: RegistryView,
    r: Registration,
    other: u128,
)
    requires
        ordered(before.skins),
        registers(before, player_id, skin, after, r),
        other != player_id,
    ensures
        after.skins != before.skins ==> r is Write,
        !(r is Write) ==> after == before,
        after.current == before.current,
        after.dirty == before.dirty,
        r is Write ==> {
            let cached = super::skin::cached_form(skin);
            &&& cached is Some
            &&& skin.skin_id != fallback_id(player_id)
            &&& holds(after.skins, player_id)
            &&& after.skins[position(after.skins, player_id) as int].skin == cached->0
            &&& holds(after.skins, other) <==> holds(before.skins, other)
            &&& Ok::<PackView, PackError>((r->Write_0)@) == built_pack(after.skins)
        },
        skin.skin_id == fallback_id(player_id) ==> r is Known,
        skin.skin_id != fallback_id(player_id) && super::skin::cached_form(skin) is None ==> r
            is Unsuitable,
{
    if r is Write {
        let cached = super::skin::cached_form(skin)->0;
        law_insertion_keeps_the_order(before.skins, player_id, cached);
        law_insertion_leaves_others_alone(before.skins, player_id, cached, other);
    }
}

/// A cached archive is taken just where it has the hash that was noted; else the pack is built
/// anew.
pub proof fn law_broken_archives_are_built_anew(
    skins: Seq<EntryView>,
    pack_hash: Seq<char>,
    data: Seq<u8>,
)
    ensures
        restored_pack(skins, pack_hash, None) == built_pack(skins),
        hex_of(sha1_digest(data)) == pack_hash ==> restored_pack(skins, pack_hash, Some(data))
            == pack_with(skins, data),
        hex_of(sha1_digest(data)) != pack_hash ==> restored_pack(skins, pack_hash, Some(data))
            == built_pack(skins),
{
}

/// What a player shows changes just where the skin is another than the last and, unless it is
/// refused, the cooldown has passed: a first skin is always shown, a refused one is replaced by
/// the substitute at once, and one that was shown stays otherwise.
pub proof fn law_skins_change_when_they_may(
    accepted: Map<u128, AcceptedView>,
    player_id: u128,
    skin: EncodedView,
    fallback: EncodedView,
    trusted_only: bool,
    now_nanos: u128,
    cooldown_nanos: u128,
)
    ensures
        ({
            let refused = (trusted_only && !skin.skin.is_trusted) || !is_valid_skin(skin.skin);
            let wanted = if refused {
                fallback
            } else {
                skin
            };
            let (shown, changed) = acceptance(
                accepted,
                player_id,
                skin,
                fallback,
                trusted_only,
                now_nanos,
                cooldown_nanos,
            );
            let previous = accepted[player_id];
            &&& changed ==> shown == wanted
            &&& !changed ==> accepted.contains_key(player_id) && shown == previous.skin
            &&& !accepted.contains_key(player_id) ==> changed
            &&& accepted.contains_key(player_id) ==> (changed <==> previous.fingerprint
                != sha1_digest(wanted.encoded) && (refused || now_nanos
                >= previous.changed_at_nanos + cooldown_nanos || cooldown_nanos == 0))
        }),
{
}

} // verus!
