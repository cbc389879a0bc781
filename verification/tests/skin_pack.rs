use flate2::Crc;
use pumpkin::net::skin_update::{handle_player_skin, SkinUpdate, WorldPlayer};
use pumpkin::skin_pack::pack::{
    build_pack, cape_file_name, manifest_of, skin_file_name, CachedEntry, PackError, CACHE_VERSION,
};
use pumpkin::skin_pack::registry::{
    manifest_is_current, register, restore_pack, restore_skin, AcceptedSkins, EncodedSkin,
    Registration, SkinPackRegistry,
};
use pumpkin::skin_pack::skin::{
    assemble, cached_skin_hash, classic_model, fallback_skin, fallback_skin_id, image_plan,
    skin_fingerprint, valid_skin, CachedSkin, Skin,
};
use pumpkin::skin_pack::url::resource_url;
use pumpkin::skin_pack::zip::{stored_zip, ZipError};
use sha1::{Digest, Sha1};
use uuid::Uuid;

const MINUTE: u128 = 60_000_000_000;

fn steve() -> Skin {
    Skin {
        skin_id: "Standard_Steve".to_owned(),
        full_id: "Standard_Steve".to_owned(),
        resource_patch: br#"{"geometry":{"default":"geometry.humanoid.custom"}}"#.to_vec(),
        image_width: 64,
        image_height: 64,
        skin_data: vec![0x40; 64 * 64 * 4],
        animations: Vec::new(),
        cape_width: 0,
        cape_height: 0,
        cape_data: Vec::new(),
        is_persona: false,
        is_trusted: true,
    }
}

fn with_cape() -> Skin {
    let mut skin = steve();
    skin.skin_data.fill(0x7f);
    skin.cape_width = 64;
    skin.cape_height = 32;
    skin.cape_data = vec![0x7f; 64 * 32 * 4];
    skin
}

/// Registers a skin, and commits the new pack where there is one.
fn enter(registry: &mut SkinPackRegistry, id: u128, skin: &Skin) -> bool {
    match register(registry, id, skin) {
        Registration::Write(pack, _) => registry.commit(id, pack, true).is_some(),
        Registration::Known(known) => known.is_some(),
        _ => false,
    }
}

#[test]
fn an_aggregate_pack_is_reused_and_restored() {
    let mut packs = SkinPackRegistry::default();
    let player = Uuid::new_v4();
    let id = player.as_u128();
    assert!(enter(&mut packs, id, &steve()));
    let skin = packs.packed(id).unwrap();
    assert_eq!(
        skin.asset,
        format!("pumpkin:bedrock_skins/{}", player.simple())
    );
    let first = packs.current.as_ref().unwrap().id;
    assert!(matches!(
        register(&mut packs, id, &steve()),
        Registration::Known(Some(_))
    ));
    assert_eq!(packs.current.as_ref().unwrap().id, first);

    let other = Uuid::new_v4().as_u128();
    assert!(enter(&mut packs, other, &steve()));
    let second = packs.current.as_ref().unwrap();
    assert_ne!(second.id, first);
    assert!(second.skin(id).is_some());
    assert!(second.skin(other).is_some());
    assert!(second.skin(0).is_none());

    let manifest = manifest_of(&packs.skins, second);
    assert!(manifest_is_current(&manifest));
    assert_eq!(manifest.version, CACHE_VERSION);
    let mut reloaded = SkinPackRegistry::default();
    for (manifest, entry) in manifest.skins.into_iter().zip(&packs.skins) {
        assert_eq!(manifest.id, entry.id);
        assert!(!manifest.cape);
        assert!(restore_skin(
            &mut reloaded,
            manifest,
            entry.skin.png.clone(),
            entry.skin.cape_png.clone(),
        ));
    }
    let mut rebuilt = SkinPackRegistry::default();
    for entry in &packs.skins {
        let cached = CachedSkin::new(&steve()).unwrap();
        assert_eq!(cached.png, entry.skin.png);
        rebuilt.stage(entry.id, cached);
    }
    assert_eq!(
        restore_pack(
            &mut reloaded,
            &manifest.pack_hash,
            Some(second.data.clone())
        ),
        Ok(false)
    );
    let restored = reloaded.current.as_ref().unwrap();
    assert_eq!(restored.id, second.id);
    assert_eq!(restored.hash, second.hash);
    assert!(restored.skin(id).is_some());
    assert!(restored.skin(other).is_some());
    for damaged in [None, Some(vec![1, 2, 3])] {
        assert_eq!(
            restore_pack(&mut rebuilt, &manifest.pack_hash, damaged),
            Ok(true)
        );
        assert_eq!(rebuilt.current.as_ref().unwrap().hash, second.hash);
    }
}

#[test]
fn a_damaged_cache_is_refused() {
    let mut packs = SkinPackRegistry::default();
    assert!(enter(&mut packs, 7, &steve()));
    let pack = packs.current.as_ref().unwrap();
    let mut manifest = manifest_of(&packs.skins, pack);
    let mut reloaded = SkinPackRegistry::default();
    assert!(!restore_skin(
        &mut reloaded,
        manifest.skins.remove(0),
        vec![0; 8],
        None,
    ));
    assert!(reloaded.skins.is_empty());
    assert_eq!(
        restore_pack(&mut reloaded, &manifest.pack_hash, None),
        Err(PackError::Empty)
    );
    manifest.version = CACHE_VERSION - 1;
    assert!(!manifest_is_current(&manifest));
}

#[test]
fn a_classic_cape_is_a_separate_texture() {
    let mut packs = SkinPackRegistry::default();
    let player = Uuid::new_v4();
    let id = player.as_u128();
    assert!(enter(&mut packs, id, &with_cape()));
    let cape_asset = format!("pumpkin:bedrock_skins/{}_cape", player.simple());
    let skin = packs.packed(id).unwrap();
    assert_eq!(skin.cape_asset.as_deref(), Some(cape_asset.as_str()));

    let cached = &packs.skins[0].skin;
    let body = image::load_from_memory(&cached.png).unwrap();
    assert_eq!((body.width(), body.height()), (64, 64));
    let cape = image::load_from_memory(cached.cape_png.as_ref().unwrap()).unwrap();
    assert_eq!((cape.width(), cape.height()), (64, 32));
    assert_eq!(body.to_rgba8().as_raw(), &vec![0x7f; 64 * 64 * 4]);
}

#[test]
fn large_images_are_scaled_to_what_java_draws() {
    let mut skin = steve();
    skin.image_width = 128;
    skin.image_height = 128;
    skin.skin_data = (0..128 * 128)
        .flat_map(|i| {
            let shade = if (i / 2) % 2 == 0 { 10 } else { 200 };
            [shade, shade, shade, 255]
        })
        .collect();
    let cached = CachedSkin::new(&skin).unwrap();
    let body = image::load_from_memory(&cached.png).unwrap().to_rgba8();
    assert_eq!((body.width(), body.height()), (64, 64));
    assert_eq!(body.get_pixel(0, 0).0, [10, 10, 10, 255]);
    assert_eq!(body.get_pixel(1, 0).0, [200, 200, 200, 255]);
}

#[test]
fn a_substitute_does_not_replace_a_packed_skin() {
    let mut packs = SkinPackRegistry::default();
    let id = Uuid::new_v4().as_u128();
    assert!(enter(&mut packs, id, &with_cape()));
    let registered = packs.packed(id).unwrap();
    let pack_id = packs.current.as_ref().unwrap().id;

    let fallback = fallback_skin(id, steve());
    let Registration::Known(Some(preserved)) = register(&mut packs, id, &fallback) else {
        panic!("the packed skin should be preserved");
    };
    assert_eq!(preserved.asset, registered.asset);
    assert_eq!(preserved.cape_asset, registered.cape_asset);
    assert_eq!(packs.current.as_ref().unwrap().id, pack_id);
}

#[test]
fn other_geometry_is_unsuitable() {
    let mut packs = SkinPackRegistry::default();
    let mut skin = steve();
    skin.is_persona = true;
    assert!(matches!(
        register(&mut packs, 1, &skin),
        Registration::Unsuitable
    ));

    skin.is_persona = false;
    skin.resource_patch = br#"{"geometry":{"default":"geometry.custom"}}"#.to_vec();
    assert!(matches!(
        register(&mut packs, 1, &skin),
        Registration::Unsuitable
    ));

    skin.resource_patch = br#"{"geometry":{"default":"geometry.humanoid.custom"}}"#.to_vec();
    skin.image_width = 129;
    skin.image_height = 129;
    skin.skin_data = vec![0; 129 * 129 * 4];
    assert!(matches!(
        register(&mut packs, 1, &skin),
        Registration::Unsuitable
    ));
    assert!(packs.skins.is_empty());
}

#[test]
fn a_formatted_resource_patch_names_the_same_model() {
    let mut packs = SkinPackRegistry::default();
    let mut skin = steve();
    skin.resource_patch =
        br#"{ "geometry": { "default": "geometry.humanoid.customSlim" } }"#.to_vec();
    assert!(enter(&mut packs, 1, &skin));
    assert!(packs.packed(1).unwrap().slim);

    assert_eq!(classic_model(Some("geometry.humanoid.custom")), Some(false));
    assert_eq!(
        classic_model(Some("geometry.humanoid.customSlim")),
        Some(true)
    );
    assert_eq!(classic_model(Some("geometry.custom")), None);
    assert_eq!(classic_model(None), None);
    skin.resource_patch = b"not json".to_vec();
    assert!(CachedSkin::new(&skin).is_none());
}

/// A wire form that is different for different skins.
fn encoded(skin: Skin) -> EncodedSkin {
    EncodedSkin {
        encoded: skin.skin_id.as_bytes().to_vec(),
        skin,
    }
}

#[test]
fn applies_skin_trust_and_change_cooldown() {
    let mut packs = AcceptedSkins::new();
    let player_id = Uuid::new_v4().as_u128();
    let fallback = || encoded(fallback_skin(player_id, steve()));
    let (accepted, changed) =
        packs.accept(player_id, encoded(steve()), fallback(), true, 0, MINUTE);
    assert!(changed);

    let mut replacement = accepted.skin.clone();
    replacement.skin_id = "replacement".to_string();
    let (rate_limited, changed) = packs.accept(
        player_id,
        encoded(replacement.clone()),
        fallback(),
        true,
        MINUTE - 1,
        MINUTE,
    );
    assert!(!changed);
    assert_eq!(rate_limited.skin.skin_id, accepted.skin.skin_id);

    let mut untrusted = accepted.skin;
    untrusted.skin_id = "untrusted".to_string();
    untrusted.is_trusted = false;
    let (shown, changed) =
        packs.accept(player_id, encoded(untrusted), fallback(), true, 0, MINUTE);
    assert!(changed);
    assert_eq!(shown.skin.skin_id, fallback_skin_id(player_id));
    assert!(shown.skin.is_trusted);

    let (shown, changed) = packs.accept(
        player_id,
        encoded(replacement),
        fallback(),
        true,
        MINUTE,
        MINUTE,
    );
    assert!(changed);
    assert_eq!(shown.skin.skin_id, "replacement");
}

#[test]
fn a_new_skin_is_registered_and_told_to_the_others() {
    let mut accepted = AcceptedSkins::new();
    let mut packs = SkinPackRegistry::default();
    let players = vec![
        WorldPlayer { id: 7, bedrock: true },
        WorldPlayer { id: 8, bedrock: false },
        WorldPlayer { id: 9, bedrock: true },
    ];
    let mut send = |packet_id: u128, skin: Skin, now: u128| {
        handle_player_skin(
            &mut accepted,
            &mut packs,
            &players,
            7,
            packet_id,
            encoded(skin),
            encoded(fallback_skin(7, steve())),
            true,
            now,
            60,
        )
    };
    assert!(matches!(send(8, steve(), 0), SkinUpdate::Foreign));
    match send(7, steve(), 0) {
        SkinUpdate::Shown(shown, Registration::Write(pack, true), told) => {
            assert_eq!(shown.skin.skin_id, "Standard_Steve");
            assert!(pack.skin(7).is_some());
            assert_eq!(told, [2]);
        }
        _ => panic!("a first skin is shown"),
    }
    let mut other = steve();
    other.skin_id = "other".to_owned();
    assert!(matches!(
        send(7, other.clone(), MINUTE - 1),
        SkinUpdate::Unchanged
    ));
    other.is_trusted = false;
    match send(7, other, MINUTE - 1) {
        SkinUpdate::Shown(shown, Registration::Known(None), told) => {
            assert_eq!(shown.skin.skin_id, fallback_skin_id(7));
            assert_eq!(told, [2]);
        }
        _ => panic!("a substitute is shown"),
    }
}

#[test]
fn malformed_images_are_not_shown() {
    assert!(valid_skin(&steve()));
    let mut skin = steve();
    skin.skin_data.pop();
    assert!(!valid_skin(&skin));
    let mut packs = AcceptedSkins::new();
    let (shown, changed) = packs.accept(
        9,
        encoded(skin),
        encoded(fallback_skin(9, steve())),
        false,
        0,
        0,
    );
    assert!(changed);
    assert_eq!(
        shown.skin.skin_id,
        "pumpkin:fallback:00000000-0000-0000-0000-000000000009"
    );
    let mut skin = steve();
    skin.cape_width = 64;
    assert!(!valid_skin(&skin));
}

#[test]
fn resource_url_reuses_the_java_handshake_host() {
    assert_eq!(
        resource_url("example.org:25565", 19132, None, 0),
        "http://example.org:19132/v1/skin-packs/00000000-0000-0000-0000-000000000000"
    );
    assert_eq!(
        resource_url("[2001:db8::1]:25565", 19132, None, 0),
        "http://[2001:db8::1]:19132/v1/skin-packs/00000000-0000-0000-0000-000000000000"
    );
    assert_eq!(
        resource_url(
            "ignored.invalid",
            19132,
            Some("https://packs.example.org/pumpkin/"),
            0
        ),
        "https://packs.example.org/pumpkin/v1/skin-packs/00000000-0000-0000-0000-000000000000"
    );
}

#[test]
fn resource_urls_keep_odd_hosts() {
    let tail = ":1/v1/skin-packs/00000000-0000-0000-0000-000000000001";
    for (address, host) in [
        ("example.org", "example.org"),
        ("example.org:port", "example.org:port"),
        ("2001:db8::1", "[2001:db8::1]"),
        ("[2001:db8::1]", "[2001:db8::1]"),
    ] {
        assert_eq!(
            resource_url(address, 1, None, 1),
            format!("http://{host}{tail}")
        );
    }
}

fn read_u32(bytes: &[u8], at: usize) -> u32 {
    u32::from_le_bytes(bytes[at..at + 4].try_into().unwrap())
}

#[test]
fn archives_hold_their_files_as_they_are() {
    let archive = stored_zip(&[("a.txt", b"hello"), ("b/c.bin", &[])]).unwrap();
    assert_eq!(read_u32(&archive, 0), 0x0403_4b50);
    let mut crc = Crc::new();
    crc.update(b"hello");
    assert_eq!(read_u32(&archive, 14), crc.sum());
    assert_ne!(crc.sum(), 0);
    assert_eq!(read_u32(&archive, 18), 5);
    assert_eq!(&archive[30..40], b"a.txthello");
    let end = archive.len() - 22;
    assert_eq!(read_u32(&archive, end), 0x0605_4b50);
    assert_eq!(archive[end + 8..end + 12], [2, 0, 2, 0]);
    let directory = read_u32(&archive, end + 16) as usize;
    assert_eq!(directory, 30 + 10 + 30 + 7);
    assert_eq!(read_u32(&archive, directory), 0x0201_4b50);
    assert_eq!(read_u32(&archive, end + 12), (46 + 5 + 46 + 7) as u32);
}

#[test]
fn archives_have_limits() {
    let long = "x".repeat(65_536);
    assert_eq!(
        stored_zip(&[(long.as_str(), b"")]).unwrap_err(),
        ZipError::PathTooLong
    );
    let many: Vec<(&str, &[u8])> = vec![("x", &[]); 65_536];
    assert_eq!(stored_zip(&many).unwrap_err(), ZipError::TooManyEntries);
    assert!(stored_zip(&many[1..]).is_ok());
}

#[test]
fn packs_hash_their_archive() {
    let entries = vec![CachedEntry {
        id: 5,
        skin: CachedSkin::new(&with_cape()).unwrap(),
    }];
    let pack = build_pack(&entries).unwrap();
    let digest = Sha1::digest(&pack.data);
    assert_eq!(pack.hash, hex::encode(digest));
    assert_eq!(
        Uuid::from_u128(pack.id),
        Uuid::new_v3(&Uuid::nil(), &digest)
    );
    let text = String::from_utf8_lossy(&pack.data);
    assert!(text.contains("pack.mcmeta"));
    assert!(text.contains(&skin_file_name(5)));
    assert!(text.contains(&cape_file_name(5)));
    assert_eq!(build_pack(&Vec::new()).unwrap_err(), PackError::Empty);
}

#[test]
fn skins_are_hashed_with_their_capes() {
    let body = vec![1, 2, 3];
    let bare = cached_skin_hash(&body, &None);
    let caped = cached_skin_hash(&body, &Some(vec![4]));
    assert_eq!(bare.len(), 40);
    assert_ne!(bare, caped);
    assert_eq!(assemble(true, body, Some(vec![4])).hash, caped);
    assert_eq!(skin_fingerprint(b"abc"), Sha1::digest(b"abc").to_vec());
}

#[test]
fn only_drawable_skins_have_a_plan() {
    assert_eq!(image_plan(&steve()), Some(false));
    assert_eq!(image_plan(&with_cape()), Some(true));
    let mut persona = steve();
    persona.is_persona = true;
    assert_eq!(image_plan(&persona), None);
}
