//! Skins as players send them, and as the pack keeps them.

use super::hash::{hex_encode, hex_of, sha1_digest, sha1_of};
use super::image::{
    encode_png, json_text, json_text_at, option_bytes, png_file, resize_nearest, resized_nearest,
};
use crate::bytes::push_slice;
use crate::ids::{hyphenated, hyphenated_text};
use crate::text::str_eq;
use vstd::prelude::*;

verus! {

pub const MAX_SKIN_DIMENSION: u32 = 128;

/// An animated part of a skin.
#[derive(Debug)]
pub struct Animation {
    pub image_width: u32,
    pub image_height: u32,
    pub image_data: Vec<u8>,
}

/// What the server reads of a Bedrock skin.
#[derive(Debug)]
pub struct Skin {
    pub skin_id: String,
    pub full_id: String,
    pub resource_patch: Vec<u8>,
    pub image_width: u32,
    pub image_height: u32,
    pub skin_data: Vec<u8>,
    pub animations: Vec<Animation>,
    pub cape_width: u32,
    pub cape_height: u32,
    pub cape_data: Vec<u8>,
    pub is_persona: bool,
    pub is_trusted: bool,
}

pub struct AnimationView {
    pub image_width: u32,
    pub image_height: u32,
    pub image_data: Seq<u8>,
}

impl View for Animation {
    type V = AnimationView;

    open spec fn view(&self) -> AnimationView {
        AnimationView {
            image_width: self.image_width,
            image_height: self.image_height,
            image_data: self.image_data@,
        }
    }
}

pub struct SkinView {
    pub skin_id: Seq<char>,
    pub full_id: Seq<char>,
    pub resource_patch: Seq<u8>,
    pub image_width: u32,
    pub image_height: u32,
    pub skin_data: Seq<u8>,
    pub animations: Seq<AnimationView>,
    pub cape_width: u32,
    pub cape_height: u32,
    pub cape_data: Seq<u8>,
    pub is_persona: bool,
    pub is_trusted: bool,
}

impl View for Skin {
    type V = SkinView;

    open spec fn view(&self) -> SkinView {
        SkinView {
            skin_id: self.skin_id@,
            full_id: self.full_id@,
            resource_patch: self.resource_patch@,
            image_width: self.image_width,
            image_height: self.image_height,
            skin_data: self.skin_data@,
            animations: self.animations@.map_values(|a: Animation| a@),
            cape_width: self.cape_width,
            cape_height: self.cape_height,
            cape_data: self.cape_data@,
            is_persona: self.is_persona,
            is_trusted: self.is_trusted,
        }
    }
}

/// A copy of bytes.
pub fn copy_bytes(bytes: &Vec<u8>) -> (r: Vec<u8>)
    ensures
        r@ == bytes@,
{
    let mut r: Vec<u8> = Vec::new();
    push_slice(&mut r, bytes.as_slice());
    assert(r@ =~= bytes@);
    r
}

impl Clone for Skin {
    fn clone(&self) -> (r: Self)
        ensures
            r@ == self@,
    {
        let mut animations: Vec<Animation> = Vec::new();
        let ghost all = self@.animations;
        let mut i: usize = 0;
        while i < self.animations.len()
            invariant
                i <= self.animations@.len(),
                all == self@.animations,
                animations@.map_values(|a: Animation| a@) == all.take(i as int),
            decreases self.animations@.len() - i,
        {
            let ghost before = animations@.map_values(|a: Animation| a@);
            let a = Animation {
                image_width: self.animations[i].image_width,
                image_height: self.animations[i].image_height,
                image_data: copy_bytes(&self.animations[i].image_data),
            };
            animations.push(a);
            assert(animations@.map_values(|a: Animation| a@) =~= before.push(a@));
            assert(all.take(i + 1) =~= before.push(all[i as int]));
            i = i + 1;
        }
        assert(all.take(i as int) =~= all);
        Skin {
            skin_id: self.skin_id.clone(),
            full_id: self.full_id.clone(),
            resource_patch: copy_bytes(&self.resource_patch),
            image_width: self.image_width,
            image_height: self.image_height,
            skin_data: copy_bytes(&self.skin_data),
            animations,
            cape_width: self.cape_width,
            cape_height: self.cape_height,
            cape_data: copy_bytes(&self.cape_data),
            is_persona: self.is_persona,
            is_trusted: self.is_trusted,
        }
    }
}

/// Whether an image has a proper size and exactly its bytes, or is empty where that is
/// allowed.
pub open spec fn valid_image(width: u32, height: u32, len: nat, allow_empty: bool) -> bool {
    ||| allow_empty && width == 0 && height == 0 && len == 0
    ||| 0 < width <= MAX_SKIN_DIMENSION && 0 < height <= MAX_SKIN_DIMENSION && width * height * 4
        == len
}

/// Whether all images of a skin are valid; only the cape may be missing.
pub open spec fn is_valid_skin(skin: SkinView) -> bool {
    &&& valid_image(skin.image_width, skin.image_height, skin.skin_data.len(), false)
    &&& valid_image(skin.cape_width, skin.cape_height, skin.cape_data.len(), true)
    &&& forall|i: int|
        0 <= i < skin.animations.len() ==> valid_image(
            (#[trigger] skin.animations[i]).image_width,
            skin.animations[i].image_height,
            skin.animations[i].image_data.len(),
            false,
        )
}

fn image_is_valid(width: u32, height: u32, len: usize, allow_empty: bool) -> (r: bool)
    ensures
        r == valid_image(width, height, len as nat, allow_empty),
{
    if allow_empty && width == 0 && height == 0 && len == 0 {
        return true;
    }
    if !(width > 0 && height > 0 && width <= MAX_SKIN_DIMENSION && height <= MAX_SKIN_DIMENSION) {
        return false;
    }
    assert(width * height <= 128 * 128) by (nonlinear_arith)
        requires
            width <= 128,
            height <= 128,
    ;
    let pixels: usize = width as usize * height as usize;
    pixels * 4 == len
}

/// Whether a skin can be shown to others.
pub fn valid_skin(skin: &Skin) -> (r: bool)
    ensures
        r == is_valid_skin(skin@),
{
    if !image_is_valid(skin.image_width, skin.image_height, skin.skin_data.len(), false)
        || !image_is_valid(skin.cape_width, skin.cape_height, skin.cape_data.len(), true) {
        return false;
    }
    let mut i: usize = 0;
    while i < skin.animations.len()
        invariant
            i <= skin.animations@.len(),
            forall|k: int|
                0 <= k < i ==> valid_image(
                    (#[trigger] skin@.animations[k]).image_width,
                    skin@.animations[k].image_height,
                    skin@.animations[k].image_data.len(),
                    false,
                ),
        decreases skin.animations@.len() - i,
    {
        assert(skin@.animations[i as int] == skin.animations@[i as int]@);
        if !image_is_valid(
            skin.animations[i].image_width,
            skin.animations[i].image_height,
            skin.animations[i].image_data.len(),
            false,
        ) {
            return false;
        }
        i = i + 1;
    }
    true
}

/// The id of a player's substitute skin.
pub open spec fn fallback_id(player_id: u128) -> Seq<char> {
    "pumpkin:fallback:"@ + hyphenated_text(player_id)
}

/// The id of a player's substitute skin.
pub fn fallback_skin_id(player_id: u128) -> (s: String)
    ensures
        s@ == fallback_id(player_id),
{
    let mut s = "pumpkin:fallback:".to_owned();
    s.append(hyphenated(player_id).as_str());
    s
}

/// A player's substitute skin: the default skin under the player's own id.
pub fn fallback_skin(player_id: u128, default_skin: Skin) -> (r: Skin)
    ensures
        r@ == (SkinView {
            skin_id: fallback_id(player_id),
            full_id: fallback_id(player_id),
            ..default_skin@
        }),
{
    let mut skin = default_skin;
    let id = fallback_skin_id(player_id);
    skin.skin_id = id.clone();
    skin.full_id = id;
    skin
}

/// Whether a skin is a player's substitute.
pub fn is_fallback_skin(player_id: u128, skin: &Skin) -> (r: bool)
    ensures
        r == (skin@.skin_id == fallback_id(player_id)),
{
    skin.skin_id == fallback_skin_id(player_id)
}

/// What identifies a skin's content: the digest of its wire form.
pub fn skin_fingerprint(encoded: &[u8]) -> (r: Vec<u8>)
    ensures
        r@ == sha1_digest(encoded@),
        r@.len() == 20,
{
    sha1_of(encoded)
}

/// Whether a geometry is the classic player model, and then whether it is slim.
pub open spec fn classic_geometry(geometry: Option<Seq<char>>) -> Option<bool> {
    match geometry {
        None => None,
        Some(g) => if g == "geometry.humanoid.custom"@ {
            Some(false)
        } else if g == "geometry.humanoid.customSlim"@ {
            Some(true)
        } else {
            None
        },
    }
}

/// Whether a geometry is one that Java's player model can show.
pub fn classic_model(geometry: Option<&str>) -> (r: Option<bool>)
    ensures
        r == classic_geometry(
            match geometry {
                Some(g) => Some(g@),
                None => None,
            },
        ),
{
    match geometry {
        None => None,
        Some(g) => if str_eq(g, "geometry.humanoid.custom") {
            proof {
                reveal_strlit("geometry.humanoid.custom");
                reveal_strlit("geometry.humanoid.customSlim");
            }
            Some(false)
        } else if str_eq(g, "geometry.humanoid.customSlim") {
            Some(true)
        } else {
            None
        },
    }
}

/// A skin as the pack keeps it.
#[derive(Debug)]
pub struct CachedSkin {
    pub slim: bool,
    pub hash: String,
    pub png: Vec<u8>,
    pub cape_png: Option<Vec<u8>>,
}

pub struct CachedView {
    pub slim: bool,
    pub hash: Seq<char>,
    pub png: Seq<u8>,
    pub cape_png: Option<Seq<u8>>,
}

impl View for CachedSkin {
    type V = CachedView;

    open spec fn view(&self) -> CachedView {
        CachedView {
            slim: self.slim,
            hash: self.hash@,
            png: self.png@,
            cape_png: option_bytes(self.cape_png),
        }
    }
}

/// What a cached skin is hashed as: its body, whether there is a cape, and the cape.
pub open spec fn hashed_bytes(body: Seq<u8>, cape: Option<Seq<u8>>) -> Seq<u8> {
    match cape {
        Some(cape) => body + seq![1u8] + cape,
        None => body + seq![0u8],
    }
}

/// The hash of a cached skin.
pub open spec fn cached_hash(body: Seq<u8>, cape: Option<Seq<u8>>) -> Seq<char> {
    hex_of(sha1_digest(hashed_bytes(body, cape)))
}

/// The hash of a cached skin.
pub fn cached_skin_hash(body: &Vec<u8>, cape: &Option<Vec<u8>>) -> (s: String)
    ensures
        s@ == cached_hash(body@, option_bytes(*cape)),
{
    let mut bytes = copy_bytes(body);
    match cape {
        Some(cape) => {
            bytes.push(1);
            push_slice(&mut bytes, cape.as_slice());
            assert(bytes@ =~= hashed_bytes(body@, Some(cape@)));
        },
        None => {
            bytes.push(0);
            assert(bytes@ =~= hashed_bytes(body@, None));
        },
    }
    hex_encode(sha1_of(bytes.as_slice()).as_slice())
}

/// Puts the parts of a cached skin together.
pub fn assemble(slim: bool, png: Vec<u8>, cape_png: Option<Vec<u8>>) -> (r: CachedSkin)
    ensures
        r@ == (CachedView {
            slim,
            hash: cached_hash(png@, option_bytes(cape_png)),
            png: png@,
            cape_png: option_bytes(cape_png),
        }),
{
    let hash = cached_skin_hash(&png, &cape_png);
    CachedSkin { slim, hash, png, cape_png }
}

/// Which images of a skin go into the pack: the body where it is a square with enough
/// bytes, and the cape where it is twice as wide as high. A cape with too few bytes
/// spoils the skin.
pub open spec fn planned(skin: SkinView) -> Option<bool> {
    let has_cape = skin.cape_width != 0 && skin.cape_height != 0 && skin.cape_data.len() > 0;
    if skin.image_width > MAX_SKIN_DIMENSION || skin.image_height > MAX_SKIN_DIMENSION
        || skin.cape_width > MAX_SKIN_DIMENSION || skin.cape_height > MAX_SKIN_DIMENSION {
        None
    } else if skin.is_persona {
        None
    } else if skin.skin_data.len() < skin.image_width * skin.image_height * 4 {
        None
    } else if skin.image_width != skin.image_height {
        None
    } else if has_cape && skin.cape_data.len() < skin.cape_width * skin.cape_height * 4 {
        None
    } else {
        Some(has_cape && skin.cape_width == skin.cape_height * 2)
    }
}

/// Decides which images of a skin go into the pack: nothing for a skin that it cannot
/// show, else whether there is a cape.
pub fn image_plan(skin: &Skin) -> (r: Option<bool>)
    ensures
        r == planned(skin@),
{
    if skin.image_width > MAX_SKIN_DIMENSION || skin.image_height > MAX_SKIN_DIMENSION
        || skin.cape_width > MAX_SKIN_DIMENSION || skin.cape_height > MAX_SKIN_DIMENSION {
        return None;
    }
    if skin.is_persona {
        return None;
    }
    let w: u32 = skin.image_width;
    let h: u32 = skin.image_height;
    let cw: u32 = skin.cape_width;
    let ch: u32 = skin.cape_height;
    assert(w * h <= 128 * 128 && cw * ch <= 128 * 128) by (nonlinear_arith)
        requires
            w <= 128,
            h <= 128,
            cw <= 128,
            ch <= 128,
    ;
    if skin.skin_data.len() < (w * h * 4) as usize {
        return None;
    }
    if w != h {
        return None;
    }
    if cw == 0 || ch == 0 || skin.cape_data.len() == 0 {
        return Some(false);
    }
    if skin.cape_data.len() < (cw * ch * 4) as usize {
        return None;
    }
    Some(cw == ch * 2)
}

/// The cached form of a skin, where it has one.
pub open spec fn cached_form(skin: SkinView) -> Option<CachedView> {
    match planned(skin) {
        None => None,
        Some(with_cape) => match classic_geometry(
            json_text_at(skin.resource_patch, "geometry"@, "default"@),
        ) {
            None => None,
            Some(slim) => match png_file(
                resized_nearest(skin.image_width, skin.image_height, skin.skin_data, 64, 64),
                64,
                64,
            ) {
                None => None,
                Some(png) => if !with_cape {
                    Some(
                        CachedView { slim, hash: cached_hash(png, None), png, cape_png: None },
                    )
                } else {
                    match png_file(
                        resized_nearest(skin.cape_width, skin.cape_height, skin.cape_data, 64, 32),
                        64,
                        32,
                    ) {
                        None => None,
                        Some(cape) => Some(
                            CachedView {
                                slim,
                                hash: cached_hash(png, Some(cape)),
                                png,
                                cape_png: Some(cape),
                            },
                        ),
                    }
                },
            },
        },
    }
}

impl CachedSkin {
    /// Prepares a skin for the pack. Skins that are too large, or that do not use the
    /// classic player model, have no place in it.
    pub fn new(skin: &Skin) -> (r: Option<Self>)
        ensures
            (match r {
                Some(c) => Some(c@),
                None => None,
            }) == cached_form(skin@),
    {
        let with_cape = image_plan(skin)?;
        let geometry = json_text(skin.resource_patch.as_slice(), "geometry", "default");
        let slim = match &geometry {
            Some(g) => classic_model(Some(g.as_str())),
            None => classic_model(None),
        }?;
        let body = resize_nearest(
            skin.image_width,
            skin.image_height,
            copy_bytes(&skin.skin_data),
            64,
            64,
        )?;
        let png = encode_png(body.as_slice(), 64, 64)?;
        if !with_cape {
            return Some(assemble(slim, png, None));
        }
        let cape = resize_nearest(
            skin.cape_width,
            skin.cape_height,
            copy_bytes(&skin.cape_data),
            64,
            32,
        )?;
        let cape_png = encode_png(cape.as_slice(), 64, 32)?;
        Some(assemble(slim, png, Some(cape_png)))
    }
}

/// An image is valid just where neither side is longer than 128 and it has four bytes for each
/// pixel; an empty one, of no size and no bytes, only where that is allowed.
pub proof fn law_images_have_four_bytes_a_pixel(width: u32, height: u32, len: nat)
    ensures
        valid_image(width, height, len, false) <==> 1 <= width <= 128 && 1 <= height <= 128 && len
            == 4 * (width * height),
        valid_image(width, height, len, true) <==> valid_image(width, height, len, false) || (width
            == 0 && height == 0 && len == 0),
{
    assert(width * height * 4 == 4 * (width * height)) by (nonlinear_arith);
}

/// A skin is valid just where its body, its cape and each of its animations is; only the cape
/// may be missing.
pub proof fn law_every_image_of_a_skin_counts(skin: SkinView, k: int)
    requires
        is_valid_skin(skin),
    ensures
        skin.skin_data.len() > 0,
        skin.skin_data.len() == skin.image_width * skin.image_height * 4,
        skin.cape_data.len() == skin.cape_width * skin.cape_height * 4,
        1 <= skin.image_width <= 128 && 1 <= skin.image_height <= 128,
        skin.cape_width <= 128 && skin.cape_height <= 128,
        0 <= k < skin.animations.len() ==> {
            let a = skin.animations[k];
            &&& 1 <= a.image_width <= 128 && 1 <= a.image_height <= 128
            &&& a.image_data.len() == a.image_width * a.image_height * 4
        },
        is_valid_skin(SkinView { cape_width: 0, cape_height: 0, cape_data: Seq::empty(), ..skin }),
        is_valid_skin(SkinView { animations: Seq::empty(), ..skin }),
        !is_valid_skin(
            SkinView { image_width: 0, image_height: 0, skin_data: Seq::empty(), ..skin },
        ),
{
    assert(skin.image_width * skin.image_height * 4 > 0) by (nonlinear_arith)
        requires
            0 < skin.image_width,
            0 < skin.image_height,
    ;
    if skin.cape_width == 0 {
        assert(skin.cape_width * skin.cape_height * 4 == 0) by (nonlinear_arith)
            requires
                skin.cape_width == 0,
        ;
    }
}

/// Players have substitute skins of their own: ids of different players differ.
pub proof fn law_substitute_skins_differ(a: u128, b: u128)
    ensures
        fallback_id(a) == fallback_id(b) <==> a == b,
        crate::text::has_prefix(fallback_id(a), "pumpkin:fallback:"@),
{
    let pre = "pumpkin:fallback:"@;
    assert(fallback_id(a).skip(pre.len() as int) =~= hyphenated_text(a));
    assert(fallback_id(b).skip(pre.len() as int) =~= hyphenated_text(b));
    assert(fallback_id(a).take(pre.len() as int) =~= pre);
    if fallback_id(a) == fallback_id(b) {
        crate::ids::law_ids_have_their_own_text(a, b);
    }
}

/// Only the two classic player models can be shown, and the slim one is slim.
pub proof fn law_only_classic_models_are_shown(geometry: Seq<char>)
    ensures
        classic_geometry(None) is None,
        classic_geometry(Some("geometry.humanoid.custom"@)) == Some(false),
        classic_geometry(Some("geometry.humanoid.customSlim"@)) == Some(true),
        classic_geometry(Some(geometry)) is Some ==> geometry == "geometry.humanoid.custom"@
            || geometry == "geometry.humanoid.customSlim"@,
{
    reveal_strlit("geometry.humanoid.custom");
    reveal_strlit("geometry.humanoid.customSlim");
    assert("geometry.humanoid.custom"@.len() != "geometry.humanoid.customSlim"@.len());
}

/// What is hashed of a skin tells its body and its cape: a skin without a cape is hashed as no
/// other of its body is, and the bytes of both are all hashed.
pub proof fn law_hashes_cover_body_and_cape(body: Seq<u8>, cape: Seq<u8>, other: Seq<u8>)
    ensures
        hashed_bytes(body, None) != hashed_bytes(body, Some(cape)),
        hashed_bytes(body, Some(cape)) == hashed_bytes(body, Some(other)) <==> cape == other,
        hashed_bytes(body, None).len() == body.len() + 1,
        hashed_bytes(body, Some(cape)).len() == body.len() + 1 + cape.len(),
        hashed_bytes(body, None).take(body.len() as int) == body,
        hashed_bytes(body, Some(cape)).take(body.len() as int) == body,
        cached_hash(body, Some(cape)) == hex_of(
            sha1_digest(hashed_bytes(body, None).drop_last().push(1u8) + cape),
        ),
        cached_hash(body, None) == hex_of(sha1_digest(body.push(0u8))),
{
    let n = body.len() as int;
    let a = hashed_bytes(body, Some(cape));
    let b = hashed_bytes(body, Some(other));
    assert(hashed_bytes(body, None)[n] == 0u8);
    assert(a[n] == 1u8);
    assert(a.skip(n + 1) =~= cape);
    assert(b.skip(n + 1) =~= other);
    assert(hashed_bytes(body, None) =~= body.push(0u8));
    assert(hashed_bytes(body, None).drop_last().push(1u8) + cape =~= a);
    assert(hashed_bytes(body, None).take(n) =~= body);
    assert(a.take(n) =~= body);
}

/// A skin goes into the pack just where it is no persona, is square, fits the limits and has
/// enough bytes, and so does its cape if there is one; the cape goes with it just where it is
/// twice as wide as high.
pub proof fn law_square_skins_go_into_the_pack(skin: SkinView)
    ensures
        ({
            let has_cape = skin.cape_width > 0 && skin.cape_height > 0 && skin.cape_data.len() > 0;
            &&& planned(skin) is Some <==> {
                &&& !skin.is_persona
                &&& skin.image_width == skin.image_height
                &&& skin.image_width <= 128
                &&& skin.cape_width <= 128 && skin.cape_height <= 128
                &&& skin.skin_data.len() >= skin.image_width * skin.image_height * 4
                &&& has_cape ==> skin.cape_data.len() >= skin.cape_width * skin.cape_height * 4
            }
            &&& planned(skin) matches Some(cape) ==> (cape <==> has_cape && skin.cape_width == 2
                * skin.cape_height)
        }),
{
}

/// The cached form of a skin holds its own images, the body scaled to 64 by 64 and the cape to
/// 64 by 32, and the hash of both; a skin that is not planned for, has another model or an image
/// that cannot be written has none.
pub proof fn law_cached_skins_hold_their_own_images(skin: SkinView)
    ensures
        ({
            let body = png_file(
                resized_nearest(skin.image_width, skin.image_height, skin.skin_data, 64, 64),
                64,
                64,
            );
            let cape = png_file(
                resized_nearest(skin.cape_width, skin.cape_height, skin.cape_data, 64, 32),
                64,
                32,
            );
            let model = classic_geometry(
                json_text_at(skin.resource_patch, "geometry"@, "default"@),
            );
            &&& cached_form(skin) is Some <==> planned(skin) is Some && model is Some && body is Some
                && (planned(skin) == Some(true) ==> cape is Some)
            &&& cached_form(skin) matches Some(cached) ==> {
                &&& Some(cached.png) == body
                &&& Some(cached.slim) == model
                &&& planned(skin) == Some(true) ==> cached.cape_png == cape
                &&& planned(skin) == Some(false) ==> cached.cape_png is None
                &&& cached.hash == cached_hash(cached.png, cached.cape_png)
            }
        }),
{
}

} // verus!
