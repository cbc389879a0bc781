//! The pack that holds all cached skins.

use super::hash::{hex_encode, hex_of, sha1_digest, sha1_of};
use super::skin::{CachedSkin, CachedView};
use super::zip::{archive, file_views, stored_zip, FileView, ZipError};
use crate::gui::types::option_text;
use crate::ids::{derive_v3, simple, simple_text, uuid_v3};
use vstd::prelude::*;
use vstd::utf8::encode_utf8;

verus! {

/// The description that every resource pack starts with.
pub const PACK_META: &'static str = "{\"pack\":{\"pack_format\":88,\"min_format\":[88,0],\"max_format\":[88,0],\"description\":\"Pumpkin Bedrock player skins\"}}";

/// The cached skin of a player.
#[derive(Debug)]
pub struct CachedEntry {
    pub id: u128,
    pub skin: CachedSkin,
}

pub struct EntryView {
    pub id: u128,
    pub skin: CachedView,
}

impl View for CachedEntry {
    type V = EntryView;

    open spec fn view(&self) -> EntryView {
        EntryView { id: self.id, skin: self.skin@ }
    }
}

/// The entries that a list stands for.
pub open spec fn entry_views(entries: Seq<CachedEntry>) -> Seq<EntryView> {
    entries.map_values(|e: CachedEntry| e@)
}

/// Whether entries are in the order of their ids, each once.
pub open spec fn ordered(entries: Seq<EntryView>) -> bool {
    forall|i: int, j: int|
        0 <= i < j < entries.len() ==> (#[trigger] entries[i]).id < (#[trigger] entries[j]).id
}

/// The Java textures of a player's skin.
#[derive(Debug)]
pub struct BedrockSkin {
    pub asset: String,
    pub cape_asset: Option<String>,
    pub slim: bool,
}

pub struct AssetView {
    pub asset: Seq<char>,
    pub cape_asset: Option<Seq<char>>,
    pub slim: bool,
}

impl View for BedrockSkin {
    type V = AssetView;

    open spec fn view(&self) -> AssetView {
        AssetView {
            asset: self.asset@,
            cape_asset: option_text(self.cape_asset),
            slim: self.slim,
        }
    }
}

impl Clone for BedrockSkin {
    fn clone(&self) -> (r: Self)
        ensures
            r@ == self@,
    {
        BedrockSkin {
            asset: self.asset.clone(),
            cape_asset: crate::gui::types::copy_option(&self.cape_asset),
            slim: self.slim,
        }
    }
}

/// The textures of a player in the pack.
#[derive(Debug)]
pub struct PackedSkin {
    pub id: u128,
    pub skin: BedrockSkin,
}

pub struct PackedView {
    pub id: u128,
    pub skin: AssetView,
}

impl View for PackedSkin {
    type V = PackedView;

    open spec fn view(&self) -> PackedView {
        PackedView { id: self.id, skin: self.skin@ }
    }
}

/// The textures that a list stands for.
pub open spec fn packed_views(skins: Seq<PackedSkin>) -> Seq<PackedView> {
    skins.map_values(|s: PackedSkin| s@)
}

/// A resource pack: its archive, the archive's hash and the id derived from it.
#[derive(Debug)]
pub struct BedrockSkinPack {
    pub id: u128,
    pub hash: String,
    pub data: Vec<u8>,
    pub skins: Vec<PackedSkin>,
}

pub struct PackView {
    pub id: u128,
    pub hash: Seq<char>,
    pub data: Seq<u8>,
    pub skins: Seq<PackedView>,
}

impl View for BedrockSkinPack {
    type V = PackView;

    open spec fn view(&self) -> PackView {
        PackView {
            id: self.id,
            hash: self.hash@,
            data: self.data@,
            skins: packed_views(self.skins@),
        }
    }
}

/// The textures of the first entry with an id.
pub open spec fn packed_skin(skins: Seq<PackedView>, id: u128) -> Option<AssetView>
    decreases skins.len(),
{
    if skins.len() == 0 {
        None
    } else if skins[0].id == id {
        Some(skins[0].skin)
    } else {
        packed_skin(skins.drop_first(), id)
    }
}

impl BedrockSkinPack {
    /// The textures of a player.
    pub fn skin(&self, player_id: u128) -> (r: Option<&BedrockSkin>)
        ensures
            (match r {
                Some(s) => Some(s@),
                None => None,
            }) == packed_skin(self@.skins, player_id),
    {
        let ghost all = self@.skins;
        let mut i: usize = 0;
        assert(all.skip(0) =~= all);
        while i < self.skins.len()
            invariant
                i <= self.skins@.len(),
                all == self@.skins,
                packed_skin(all.skip(i as int), player_id) == packed_skin(all, player_id),
            decreases self.skins@.len() - i,
        {
            assert(all.skip(i as int)[0] == self.skins@[i as int]@);
            assert(all.skip(i as int).drop_first() =~= all.skip(i + 1));
            if self.skins[i].id == player_id {
                return Some(&self.skins[i].skin);
            }
            i = i + 1;
        }
        None
    }
}

/// Why there is no pack.
#[derive(Clone, Copy, Debug, PartialEq, Eq, Structural)]
pub enum PackError {
    /// There is nothing to pack.
    Empty,
    /// The archive cannot be written.
    Zip(ZipError),
}

/// The path of a player's skin in the archive.
pub open spec fn skin_path_text(id: u128) -> Seq<char> {
    "assets/pumpkin/textures/bedrock_skins/"@ + simple_text(id) + ".png"@
}

/// The path of a player's cape in the archive.
pub open spec fn cape_path_text(id: u128) -> Seq<char> {
    "assets/pumpkin/textures/bedrock_skins/"@ + simple_text(id) + "_cape.png"@
}

/// The files of a player.
pub open spec fn entry_files(e: EntryView) -> Seq<FileView> {
    let body = FileView { name: encode_utf8(skin_path_text(e.id)), data: e.skin.png };
    match e.skin.cape_png {
        Some(cape) => seq![
            body,
            FileView { name: encode_utf8(cape_path_text(e.id)), data: cape },
        ],
        None => seq![body],
    }
}

/// The files of several players.
pub open spec fn entries_files(entries: Seq<EntryView>) -> Seq<FileView>
    decreases entries.len(),
{
    if entries.len() == 0 {
        Seq::empty()
    } else {
        entries_files(entries.drop_last()) + entry_files(entries.last())
    }
}

/// The files of the pack: its description, then the players in the order of their ids.
pub open spec fn pack_files(entries: Seq<EntryView>) -> Seq<FileView> {
    seq![FileView { name: encode_utf8("pack.mcmeta"@), data: encode_utf8(PACK_META@) }]
        + entries_files(entries)
}

/// The Java textures of a player.
pub open spec fn assets_of(e: EntryView) -> PackedView {
    PackedView {
        id: e.id,
        skin: AssetView {
            asset: "pumpkin:bedrock_skins/"@ + simple_text(e.id),
            cape_asset: match e.skin.cape_png {
                Some(_) => Some("pumpkin:bedrock_skins/"@ + simple_text(e.id) + "_cape"@),
                None => None,
            },
            slim: e.skin.slim,
        },
    }
}

/// The pack with given data.
pub open spec fn pack_with(entries: Seq<EntryView>, data: Seq<u8>) -> Result<PackView, PackError> {
    if entries.len() == 0 {
        Err(PackError::Empty)
    } else {
        Ok(
            PackView {
                id: uuid_v3(0, sha1_digest(data)),
                hash: hex_of(sha1_digest(data)),
                data,
                skins: entries.map_values(|e: EntryView| assets_of(e)),
            },
        )
    }
}

/// The pack of cached skins.
pub open spec fn built_pack(entries: Seq<EntryView>) -> Result<PackView, PackError> {
    match archive(pack_files(entries)) {
        Err(e) => Err(PackError::Zip(e)),
        Ok(data) => pack_with(entries, data),
    }
}

/// A result with its view.
pub open spec fn pack_result(r: Result<BedrockSkinPack, PackError>) -> Result<PackView, PackError> {
    match r {
        Ok(p) => Ok(p@),
        Err(e) => Err(e),
    }
}

fn text3(a: &str, b: &str, c: &str) -> (s: String)
    ensures
        s@ == a@ + b@ + c@,
{
    let mut s = a.to_owned();
    s.append(b);
    s.append(c);
    s
}

/// The Java textures of a player.
fn packed(entry: &CachedEntry) -> (r: PackedSkin)
    ensures
        r@ == assets_of(entry@),
{
    let id = simple(entry.id);
    let mut asset = "pumpkin:bedrock_skins/".to_owned();
    asset.append(id.as_str());
    let cape_asset = if entry.skin.cape_png.is_some() {
        Some(text3("pumpkin:bedrock_skins/", id.as_str(), "_cape"))
    } else {
        None
    };
    PackedSkin { id: entry.id, skin: BedrockSkin { asset, cape_asset, slim: entry.skin.slim } }
}

/// A pack with given data. Its id and hash come from the data.
pub fn pack_from_data(entries: &Vec<CachedEntry>, data: Vec<u8>) -> (r: Result<
    BedrockSkinPack,
    PackError,
>)
    ensures
        pack_result(r) == pack_with(entry_views(entries@), data@),
{
    if entries.len() == 0 {
        return Err(PackError::Empty);
    }
    let digest = sha1_of(data.as_slice());
    let id: u128 = derive_v3(0, digest.as_slice());
    let mut skins: Vec<PackedSkin> = Vec::new();
    let ghost all = entry_views(entries@).map_values(|e: EntryView| assets_of(e));
    let mut i: usize = 0;
    while i < entries.len()
        invariant
            i <= entries@.len(),
            all == entry_views(entries@).map_values(|e: EntryView| assets_of(e)),
            packed_views(skins@) == all.take(i as int),
        decreases entries@.len() - i,
    {
        let ghost before = packed_views(skins@);
        let s = packed(&entries[i]);
        skins.push(s);
        assert(packed_views(skins@) =~= before.push(s@));
        assert(all.take(i + 1) =~= before.push(all[i as int]));
        i = i + 1;
    }
    assert(all.take(i as int) =~= all);
    Ok(BedrockSkinPack { id, hash: hex_encode(digest.as_slice()), data, skins })
}

/// The names of the files behind the description.
fn file_names(entries: &Vec<CachedEntry>) -> (names: Vec<String>)
    ensures
        names@.len() == entries_files(entry_views(entries@)).len(),
        forall|k: int|
            0 <= k < names@.len() ==> encode_utf8((#[trigger] names@[k])@) == entries_files(
                entry_views(entries@),
            )[k].name,
{
    let mut names: Vec<String> = Vec::new();
    let ghost all = entry_views(entries@);
    let mut i: usize = 0;
    assert(all.take(0) =~= Seq::<EntryView>::empty());
    while i < entries.len()
        invariant
            i <= entries@.len(),
            all == entry_views(entries@),
            names@.len() == entries_files(all.take(i as int)).len(),
            forall|k: int|
                0 <= k < names@.len() ==> encode_utf8((#[trigger] names@[k])@) == entries_files(
                    all.take(i as int),
                )[k].name,
        decreases entries@.len() - i,
    {
        let ghost before = entries_files(all.take(i as int));
        proof {
            assert(all.take(i + 1).drop_last() =~= all.take(i as int));
            assert(all.take(i + 1).last() == entries@[i as int]@);
        }
        let id = simple(entries[i].id);
        names.push(text3("assets/pumpkin/textures/bedrock_skins/", id.as_str(), ".png"));
        if entries[i].skin.cape_png.is_some() {
            names.push(text3("assets/pumpkin/textures/bedrock_skins/", id.as_str(), "_cape.png"));
        }
        i = i + 1;
    }
    assert(all.take(i as int) =~= all);
    names
}

/// Packs cached skins. They are written in the order of their ids, so the same skins
/// always make the same pack.
pub fn build_pack(entries: &Vec<CachedEntry>) -> (r: Result<BedrockSkinPack, PackError>)
    ensures
        pack_result(r) == built_pack(entry_views(entries@)),
{
    let names = file_names(entries);
    let ghost all = entry_views(entries@);
    let mut files: Vec<(&str, &[u8])> = Vec::new();
    files.push(("pack.mcmeta", PACK_META.as_bytes()));
    let mut i: usize = 0;
    assert(all.take(0) =~= Seq::<EntryView>::empty());
    assert(file_views(files@) =~= pack_files(all.take(0)));
    while i < entries.len()
        invariant
            i <= entries@.len(),
            all == entry_views(entries@),
            names@.len() == entries_files(all).len(),
            forall|k: int|
                0 <= k < names@.len() ==> encode_utf8((#[trigger] names@[k])@) == entries_files(
                    all,
                )[k].name,
            file_views(files@) == pack_files(all.take(i as int)),
        decreases entries@.len() - i,
    {
        let ghost done = entries_files(all.take(i as int));
        let ghost start = files@;
        proof {
            assert(all.take(i + 1).drop_last() =~= all.take(i as int));
            assert(all.take(i + 1).last() == entries@[i as int]@);
            lemma_files_prefix(all, i + 1);
            assert(file_views(files@).len() == files@.len());
        }
        let at: usize = files.len() - 1;
        files.push((names[at].as_str(), entries[i].skin.png.as_slice()));
        if let Some(cape) = &entries[i].skin.cape_png {
            files.push((names[at + 1].as_str(), cape.as_slice()));
        }
        proof {
            let here = entry_files(all[i as int]);
            let next = entries_files(all.take(i + 1));
            assert(next == done + here);
            assert(start.len() == done.len() + 1);
            assert(next[at as int] == here[0]);
            assert(encode_utf8(names@[at as int]@) == entries_files(all)[at as int].name);
            assert(files@[at + 1].1@ == here[0].data);
            if here.len() == 2 {
                assert(next[at + 1] == here[1]);
                assert(encode_utf8(names@[at + 1]@) == entries_files(all)[at + 1].name);
            }
            assert(file_views(files@) =~= file_views(start) + here);
            assert(file_views(files@) =~= pack_files(all.take(i + 1)));
        }
        i = i + 1;
    }
    assert(all.take(i as int) =~= all);
    match stored_zip(files.as_slice()) {
        Err(error) => Err(PackError::Zip(error)),
        Ok(data) => pack_from_data(entries, data),
    }
}

proof fn lemma_files_prefix(entries: Seq<EntryView>, n: int)
    requires
        0 <= n <= entries.len(),
    ensures
        entries_files(entries.take(n)).len() <= entries_files(entries).len(),
        forall|k: int|
            0 <= k < entries_files(entries.take(n)).len() ==> #[trigger] entries_files(
                entries.take(n),
            )[k] == entries_files(entries)[k],
    decreases entries.len() - n,
{
    if n < entries.len() {
        lemma_files_prefix(entries, n + 1);
        assert(entries.take(n + 1).drop_last() =~= entries.take(n));
        let a = entries_files(entries.take(n));
        let b = entries_files(entries.take(n + 1));
        assert forall|k: int| 0 <= k < a.len() implies #[trigger] a[k] == entries_files(
            entries,
        )[k] by {
            assert(a[k] == b[k]);
        }
    } else {
        assert(entries.take(n) =~= entries);
    }
}

/// The version of the cache's manifest.
pub const CACHE_VERSION: u8 = 4;

/// What the cache's manifest says of a player's skin.
#[derive(Debug)]
pub struct ManifestSkin {
    pub id: u128,
    pub slim: bool,
    pub hash: String,
    pub cape: bool,
}

/// The cache's manifest.
#[derive(Debug)]
pub struct CacheManifest {
    pub version: u8,
    pub pack_hash: String,
    pub skins: Vec<ManifestSkin>,
}

pub struct ManifestSkinView {
    pub id: u128,
    pub slim: bool,
    pub hash: Seq<char>,
    pub cape: bool,
}

impl View for ManifestSkin {
    type V = ManifestSkinView;

    open spec fn view(&self) -> ManifestSkinView {
        ManifestSkinView { id: self.id, slim: self.slim, hash: self.hash@, cape: self.cape }
    }
}

/// What the manifest says of an entry.
pub open spec fn manifest_skin(e: EntryView) -> ManifestSkinView {
    ManifestSkinView {
        id: e.id,
        slim: e.skin.slim,
        hash: e.skin.hash,
        cape: e.skin.cape_png is Some,
    }
}

/// The skins that a manifest lists.
pub open spec fn manifest_views(skins: Seq<ManifestSkin>) -> Seq<ManifestSkinView> {
    skins.map_values(|s: ManifestSkin| s@)
}

/// The manifest of a pack.
pub fn manifest_of(entries: &Vec<CachedEntry>, pack: &BedrockSkinPack) -> (r: CacheManifest)
    ensures
        r.version == CACHE_VERSION,
        r.pack_hash@ == pack@.hash,
        manifest_views(r.skins@) == entry_views(entries@).map_values(
            |e: EntryView| manifest_skin(e),
        ),
{
    let mut skins: Vec<ManifestSkin> = Vec::new();
    let ghost all = entry_views(entries@).map_values(|e: EntryView| manifest_skin(e));
    let mut i: usize = 0;
    while i < entries.len()
        invariant
            i <= entries@.len(),
            all == entry_views(entries@).map_values(|e: EntryView| manifest_skin(e)),
            manifest_views(skins@) == all.take(i as int),
        decreases entries@.len() - i,
    {
        let ghost before = manifest_views(skins@);
        let s = ManifestSkin {
            id: entries[i].id,
            slim: entries[i].skin.slim,
            hash: entries[i].skin.hash.clone(),
            cape: entries[i].skin.cape_png.is_some(),
        };
        skins.push(s);
        assert(manifest_views(skins@) =~= before.push(s@));
        assert(all.take(i + 1) =~= before.push(all[i as int]));
        i = i + 1;
    }
    assert(all.take(i as int) =~= all);
    CacheManifest { version: CACHE_VERSION, pack_hash: pack.hash.clone(), skins }
}

/// The name of a player's skin file in the cache.
pub fn skin_file_name(id: u128) -> (s: String)
    ensures
        s@ == simple_text(id) + ".png"@,
{
    let mut s = simple(id);
    s.append(".png");
    s
}

/// The name of a player's cape file in the cache.
pub fn cape_file_name(id: u128) -> (s: String)
    ensures
        s@ == simple_text(id) + "_cape.png"@,
{
    let mut s = simple(id);
    s.append("_cape.png");
    s
}

/// A pack shows a skin for exactly the players that were packed.
pub proof fn law_every_packed_player_has_a_skin(entries: Seq<EntryView>, id: u128)
    requires
        built_pack(entries) is Ok,
    ensures
        packed_skin((built_pack(entries)->Ok_0).skins, id) is Some <==> exists|i: int|
            0 <= i < entries.len() && (#[trigger] entries[i]).id == id,
{
    let skins = (built_pack(entries)->Ok_0).skins;
    lemma_packed_skin(skins, id);
    if packed_skin(skins, id) is Some {
        let k = choose|k: int| 0 <= k < skins.len() && (#[trigger] skins[k]).id == id;
        assert(entries[k].id == id);
    }
    assert forall|i: int| 0 <= i < entries.len() && (#[trigger] entries[i]).id == id implies
        packed_skin(skins, id) is Some by {
        assert(skins[i].id == id);
    }
}

proof fn lemma_packed_skin(skins: Seq<PackedView>, id: u128)
    ensures
        packed_skin(skins, id) is Some <==> exists|k: int|
            0 <= k < skins.len() && (#[trigger] skins[k]).id == id,
    decreases skins.len(),
{
    if skins.len() > 0 {
        let rest = skins.drop_first();
        lemma_packed_skin(rest, id);
        if skins[0].id != id {
            if packed_skin(rest, id) is Some {
                let k = choose|k: int| 0 <= k < rest.len() && (#[trigger] rest[k]).id == id;
                assert(skins[k + 1].id == id);
            }
            assert forall|k: int| 0 <= k < skins.len() && (#[trigger] skins[k]).id == id implies
                packed_skin(skins, id) is Some by {
                assert(rest[k - 1].id == id);
            }
        }
    }
}

/// Whether a reader finds a file in an archive.
pub open spec fn holds_file(data: Seq<u8>, name: Seq<char>, content: Seq<u8>) -> bool {
    exists|i: nat|
        i < super::zip::file_count(data) && #[trigger] super::zip::file_name(data, i)
            == encode_utf8(name) && super::zip::file_data(data, i) == content
}

proof fn lemma_file_is_held(files: Seq<FileView>, i: int, name: Seq<char>)
    requires
        archive(files) is Ok,
        0 <= i < files.len(),
        files[i].name == encode_utf8(name),
    ensures
        holds_file(archive(files)->Ok_0, name, files[i].data),
{
    super::zip::law_a_reader_finds_every_file(files, i);
    let data = archive(files)->Ok_0;
    assert(super::zip::file_name(data, i as nat) == encode_utf8(name));
}

/// A built pack holds its description, and of every player the skin and, where there is one, the
/// cape: a reader finds each in its own file, and the textures that the pack names are these.
pub proof fn law_a_pack_holds_the_skins(entries: Seq<EntryView>, k: int)
    requires
        built_pack(entries) is Ok,
        0 <= k < entries.len(),
    ensures
        ({
            let pack = built_pack(entries)->Ok_0;
            let e = entries[k];
            let folder = "assets/pumpkin/textures/bedrock_skins/"@;
            let named = pack.skins[k];
            &&& holds_file(pack.data, "pack.mcmeta"@, encode_utf8(PACK_META@))
            &&& holds_file(pack.data, folder + simple_text(e.id) + ".png"@, e.skin.png)
            &&& e.skin.cape_png matches Some(cape) ==> holds_file(
                pack.data,
                folder + simple_text(e.id) + "_cape.png"@,
                cape,
            )
            &&& pack.skins.len() == entries.len()
            &&& named.id == e.id
            &&& named.skin.slim == e.skin.slim
            &&& named.skin.asset == "pumpkin:bedrock_skins/"@ + simple_text(e.id)
            &&& named.skin.cape_asset == (match e.skin.cape_png {
                Some(_) => Some("pumpkin:bedrock_skins/"@ + simple_text(e.id) + "_cape"@),
                None => None::<Seq<char>>,
            })
        }),
{
    let files = pack_files(entries);
    let before = entries_files(entries.take(k));
    let e = entries[k];
    lemma_files_prefix(entries, k + 1);
    assert(entries.take(k + 1).drop_last() =~= entries.take(k));
    assert(entries.take(k + 1).last() == e);
    let upto = entries_files(entries.take(k + 1));
    assert(upto == before + entry_files(e));
    lemma_file_is_held(files, 0, "pack.mcmeta"@);
    let at = before.len() as int;
    assert(upto[at] == entry_files(e)[0]);
    assert(entries_files(entries)[at] == upto[at]);
    assert(files[at + 1] == entries_files(entries)[at]);
    lemma_file_is_held(files, at + 1, skin_path_text(e.id));
    if e.skin.cape_png is Some {
        assert(upto[at + 1] == entry_files(e)[1]);
        assert(entries_files(entries)[at + 1] == upto[at + 1]);
        assert(files[at + 2] == entries_files(entries)[at + 1]);
        lemma_file_is_held(files, at + 2, cape_path_text(e.id));
    }
}

proof fn lemma_files_belong(entries: Seq<EntryView>, i: int) -> (m: int)
    requires
        0 <= i < entries_files(entries).len(),
    ensures
        0 <= m < entries.len(),
        entries_files(entries)[i] == entry_files(entries[m])[0] || (entries[m].skin.cape_png is Some
            && entries_files(entries)[i] == entry_files(entries[m])[1]),
    decreases entries.len(),
{
    let before = entries_files(entries.drop_last());
    if i < before.len() {
        let m = lemma_files_belong(entries.drop_last(), i);
        assert(entries[m] == entries.drop_last()[m]);
        m
    } else {
        let j = i - before.len();
        assert(entries_files(entries)[i] == entry_files(entries.last())[j]);
        entries.len() - 1
    }
}

proof fn lemma_same_text(a: Seq<char>, b: Seq<char>)
    requires
        encode_utf8(a) == encode_utf8(b),
    ensures
        a == b,
{
    vstd::utf8::encode_utf8_decode_utf8(a);
    vstd::utf8::encode_utf8_decode_utf8(b);
}

proof fn lemma_paths_differ(a: u128, b: u128)
    ensures
        skin_path_text(a) == skin_path_text(b) ==> a == b,
        cape_path_text(a) == cape_path_text(b) ==> a == b,
        skin_path_text(a) != cape_path_text(b),
        skin_path_text(a) != "pack.mcmeta"@,
        cape_path_text(a) != "pack.mcmeta"@,
{
    crate::ids::law_ids_have_their_own_text(a, b);
    crate::ids::law_ids_have_their_own_text(b, a);
    reveal_strlit("assets/pumpkin/textures/bedrock_skins/");
    reveal_strlit(".png");
    reveal_strlit("_cape.png");
    reveal_strlit("pack.mcmeta");
    let n = "assets/pumpkin/textures/bedrock_skins/"@.len() as int;
    assert(skin_path_text(a).subrange(n, n + 32) =~= simple_text(a));
    assert(skin_path_text(b).subrange(n, n + 32) =~= simple_text(b));
    assert(cape_path_text(a).subrange(n, n + 32) =~= simple_text(a));
    assert(cape_path_text(b).subrange(n, n + 32) =~= simple_text(b));
    assert(skin_path_text(a).len() == n + 36);
    assert(cape_path_text(b).len() == n + 41);
    assert(cape_path_text(a).len() == n + 41);
    assert("pack.mcmeta"@.len() == 11);
}

/// Nothing else stands under those names: a reader that asks for a player's skin or cape gets
/// that player's.
pub proof fn law_a_pack_holds_no_other_skins(entries: Seq<EntryView>, k: int, i: nat)
    requires
        built_pack(entries) is Ok,
        ordered(entries),
        0 <= k < entries.len(),
        i < super::zip::file_count((built_pack(entries)->Ok_0).data),
    ensures
        ({
            let data = (built_pack(entries)->Ok_0).data;
            let e = entries[k];
            let folder = "assets/pumpkin/textures/bedrock_skins/"@;
            &&& super::zip::file_name(data, i) == encode_utf8(
                folder + simple_text(e.id) + ".png"@,
            ) ==> super::zip::file_data(data, i) == e.skin.png
            &&& super::zip::file_name(data, i) == encode_utf8(
                folder + simple_text(e.id) + "_cape.png"@,
            ) ==> Some(super::zip::file_data(data, i)) == e.skin.cape_png
        }),
{
    let files = pack_files(entries);
    super::zip::law_a_reader_finds_every_file(files, 0);
    super::zip::law_a_reader_finds_every_file(files, i as int);
    lemma_named_files(entries, k, i as int);
}

proof fn lemma_named_files(entries: Seq<EntryView>, k: int, i: int)
    requires
        ordered(entries),
        0 <= k < entries.len(),
        0 <= i < pack_files(entries).len(),
    ensures
        pack_files(entries)[i].name == encode_utf8(skin_path_text(entries[k].id))
            ==> pack_files(entries)[i].data == entries[k].skin.png,
        pack_files(entries)[i].name == encode_utf8(cape_path_text(entries[k].id)) ==> Some(
            pack_files(entries)[i].data,
        ) == entries[k].skin.cape_png,
{
    let f = pack_files(entries)[i];
    let e = entries[k];
    if i == 0 {
        lemma_paths_differ(e.id, e.id);
        if f.name == encode_utf8(skin_path_text(e.id)) {
            lemma_same_text(skin_path_text(e.id), "pack.mcmeta"@);
        }
        if f.name == encode_utf8(cape_path_text(e.id)) {
            lemma_same_text(cape_path_text(e.id), "pack.mcmeta"@);
        }
    } else {
        assert(f == entries_files(entries)[i - 1]);
        let m = lemma_files_belong(entries, i - 1);
        lemma_one_file(entries, k, m, f);
    }
}

proof fn lemma_one_file(entries: Seq<EntryView>, k: int, m: int, f: FileView)
    requires
        ordered(entries),
        0 <= k < entries.len(),
        0 <= m < entries.len(),
        f == entry_files(entries[m])[0] || (entries[m].skin.cape_png is Some && f == entry_files(
            entries[m],
        )[1]),
    ensures
        f.name == encode_utf8(skin_path_text(entries[k].id)) ==> f.data == entries[k].skin.png,
        f.name == encode_utf8(cape_path_text(entries[k].id)) ==> Some(f.data)
            == entries[k].skin.cape_png,
{
    let id = entries[k].id;
    let other = entries[m].id;
    lemma_paths_differ(id, other);
    lemma_paths_differ(other, id);
    let own = if f == entry_files(entries[m])[0] {
        skin_path_text(other)
    } else {
        cape_path_text(other)
    };
    assert(f.name == encode_utf8(own));
    if f.name == encode_utf8(skin_path_text(id)) {
        lemma_same_text(skin_path_text(id), own);
    }
    if f.name == encode_utf8(cape_path_text(id)) {
        lemma_same_text(cape_path_text(id), own);
    }
    if id == other {
        if m < k {
            assert(entries[m].id < entries[k].id);
        } else if k < m {
            assert(entries[k].id < entries[m].id);
        }
    }
}

/// The hash and the id of a pack come from its archive alone, and there is no pack of nobody.
pub proof fn law_a_pack_is_known_by_its_archive(entries: Seq<EntryView>)
    ensures
        built_pack(entries) matches Ok(pack) ==> {
            &&& entries.len() > 0
            &&& pack.hash == hex_of(sha1_digest(pack.data))
            &&& pack.id == uuid_v3(0, sha1_digest(pack.data))
            &&& Ok::<Seq<u8>, ZipError>(pack.data) == archive(pack_files(entries))
        },
        entries.len() == 0 ==> built_pack(entries) is Err,
{
}

/// What the cache says of a player is what was packed.
pub proof fn law_the_manifest_lists_what_was_packed(e: EntryView)
    ensures
        manifest_skin(e).id == e.id,
        manifest_skin(e).slim == e.skin.slim,
        manifest_skin(e).hash == e.skin.hash,
        manifest_skin(e).cape <==> entry_files(e).len() == 2,
{
}

} // verus!
