use pumpkin::net::emote::{ArmSwing, EmoteState, JavaEmote, MIN_INTERVAL_TICKS};
use pumpkin::net::endpoint::{
    advertised_host, join_answer, online_players, read_offer, status_answer, HttpStatus, JoinRequest,
};
use pumpkin::net::login::{
    configured_id, continue_configuration_after_resource_packs, handle_login_acknowledged,
    offer_skin_pack, plan_login, server_links, Continuation, CustomLink, LinkLabel,
    ResourcePackConfig, ServerLinks, SkinPackConfig, SkinPackInfo,
};
use pumpkin::net::resource_pack::{
    configured_outcome, handle_play_resource_pack_response, ConfiguredOutcome,
    ResourcePackResponseResult, SkinPackReaction, SkinPackSession,
};
use pumpkin::net::skin_update::{claims_own_skin, recipients, WorldPlayer};
use pumpkin::net::version::{
    supports_configuration_state, V_1_20_2, V_1_20_3, V_1_20_5, V_1_21, V_26_1,
};
use uuid::Uuid;

const WAVE: &str = "4c8ae710-df2e-47cd-814d-cc7bf21a3d67";
const CLAP: &str = "9a469a61-c83b-4ba9-b507-bdbe64430582";

#[test]
fn recognizes_bedrock_builtin_emotes() {
    for (id, expected) in [
        (WAVE, JavaEmote::Wave),
        (CLAP, JavaEmote::Clap),
        ("ce5c0300-7f03-455d-aaf1-352e4927b54d", JavaEmote::Point),
        ("17428c4c-3813-4ea1-b3a9-d6a32f83afca", JavaEmote::FollowMe),
    ] {
        assert_eq!(
            JavaEmote::from_id(Uuid::parse_str(id).unwrap().as_u128()),
            expected
        );
    }
}

#[test]
fn unknown_emotes_have_a_bounded_fallback() {
    assert_eq!(JavaEmote::from_id(0), JavaEmote::Fallback);
    assert_eq!(JavaEmote::Fallback.frames().len(), 1);
    assert!(JavaEmote::Clap.frames().len() <= 8);
}

#[test]
fn emotes_are_limited_and_the_latest_goes_on() {
    let mut state = EmoteState {
        last_tick: 0,
        sequence: u32::MAX,
    };
    assert!(state.broadcast("not an emote", 100).is_none());
    assert_eq!(state.last_tick, 0);
    assert!(state.broadcast(WAVE, MIN_INTERVAL_TICKS - 1).is_none());
    assert_eq!(state.last_tick, MIN_INTERVAL_TICKS - 1);
    let plan = state.broadcast(CLAP, 100).unwrap();
    assert_eq!(plan.sequence, 0);
    assert_eq!(plan.frames.len(), 6);
    assert_eq!(plan.frames[1].swing, ArmSwing::Off);
    assert_eq!(plan.frames[2].delay_millis, 300);
    assert!(state.continues(plan.sequence, false));
    assert!(!state.continues(plan.sequence, true));
    let next = state.broadcast(WAVE, 200).unwrap();
    assert_eq!(next.sequence, 1);
    assert_eq!(
        next.frames
            .iter()
            .map(|f| f.delay_millis)
            .collect::<Vec<_>>(),
        [0, 250, 250, 250]
    );
    assert!(!state.continues(plan.sequence, false));
    assert!(state.start(None, 300).is_none());
}

#[test]
fn join_requests_need_a_text() {
    assert!(matches!(
        read_offer(b""),
        JoinRequest::Refused("Missing SDP offer")
    ));
    assert!(matches!(
        read_offer(&[0xff]),
        JoinRequest::Refused("SDP offer must be UTF-8")
    ));
    let JoinRequest::Offer(offer) = read_offer("v=0 hráč".as_bytes()) else {
        panic!("expected an offer");
    };
    assert_eq!(offer, "v=0 hráč");
}

#[test]
fn the_host_header_names_the_host() {
    let host = |header: &str| advertised_host(Some(header));
    assert_eq!(host("127.0.0.1:8080").as_deref(), Some("127.0.0.1"));
    assert_eq!(host("192.168.0.7").as_deref(), Some("192.168.0.7"));
    assert_eq!(host("example.org:80").as_deref(), Some("example.org"));
    assert_eq!(host("user@[::1]:7").as_deref(), Some("[::1]"));
    assert_eq!(host(""), None);
    assert_eq!(host("not a host"), None);
    assert_eq!(host("example.org/join"), None);
    assert_eq!(advertised_host(None), None);
}

#[test]
fn the_endpoint_answers_with_a_status() {
    let answer = join_answer(Ok("v=0".to_owned()));
    assert_eq!(answer.status, HttpStatus::Success);
    assert_eq!(answer.content_type, Some("application/sdp"));
    assert_eq!(answer.body, "v=0");
    let answer = join_answer(Err("bad offer".to_owned()));
    assert_eq!(answer.status, HttpStatus::BadRequest);
    assert_eq!(answer.content_type, None);
    assert_eq!(answer.body, "bad offer");
    let answer = status_answer(true, Some("{}".to_owned()));
    assert_eq!(answer.status, HttpStatus::Success);
    assert_eq!(answer.content_type, Some("application/json"));
    assert_eq!(answer.body, "{}");
    assert_eq!(
        status_answer(true, None).status,
        HttpStatus::InternalServerError
    );
    let answer = status_answer(false, Some("{}".to_owned()));
    assert_eq!(answer.status, HttpStatus::ServiceUnavailable);
    assert_eq!(answer.body, "");
    assert_eq!(online_players(Some(3)), 3);
    assert_eq!(online_players(None), 0);
}

fn links() -> ServerLinks {
    ServerLinks {
        enabled: true,
        bug_report: "https://bugs".to_owned(),
        support: String::new(),
        status: String::new(),
        feedback: String::new(),
        community: String::new(),
        website: "https://site".to_owned(),
        forums: String::new(),
        news: String::new(),
        announcements: String::new(),
        custom: vec![CustomLink {
            name: "Wiki".to_owned(),
            url: "https://wiki".to_owned(),
        }],
    }
}

fn pack() -> ResourcePackConfig {
    ResourcePackConfig {
        enabled: true,
        url: "https://pack".to_owned(),
        sha1: "abcd".to_owned(),
        force: true,
        prompt_message: "Please".to_owned(),
    }
}

fn skins() -> SkinPackConfig {
    SkinPackConfig {
        java_resource_pack: true,
        endpoint_ready: true,
        port: 19132,
        public_url: None,
        pack: Some(SkinPackInfo {
            id: 5,
            hash: "ef01".to_owned(),
        }),
    }
}

#[test]
fn the_configured_pack_is_known_by_its_address() {
    assert_eq!(
        Uuid::from_u128(configured_id(&pack().url)),
        Uuid::new_v3(&Uuid::NAMESPACE_DNS, b"https://pack")
    );
}

#[test]
fn logins_get_links_and_packs() {
    let plan =
        handle_login_acknowledged(V_26_1, &links(), &pack(), &skins(), "example.org:25565")
            .unwrap();
    let shown = plan.links.unwrap();
    assert_eq!(shown.len(), 3);
    assert!(matches!(shown[0].label, LinkLabel::BugReport));
    assert!(matches!(shown[1].label, LinkLabel::Website));
    let LinkLabel::Custom(name) = &shown[2].label else {
        panic!("expected the custom link");
    };
    assert_eq!(name, "Wiki");
    assert_eq!(shown[2].url, "https://wiki");
    assert_eq!(plan.offers.len(), 2);
    assert_eq!(plan.offers[0].id, configured_id(&pack().url));
    assert_eq!(plan.offers[0].hash, "abcd");
    assert!(plan.offers[0].forced);
    assert_eq!(plan.offers[0].prompt.as_deref(), Some("Please"));
    assert_eq!(
        plan.offers[1].url,
        "http://example.org:19132/v1/skin-packs/00000000-0000-0000-0000-000000000005"
    );
    assert!(!plan.offers[1].forced);
    assert_eq!(plan.continuation, None);
}

#[test]
fn old_versions_get_less() {
    assert!(!supports_configuration_state(V_1_20_2 - 1));
    assert!(handle_login_acknowledged(
        V_1_20_2 - 1,
        &links(),
        &pack(),
        &skins(),
        "example.org"
    )
    .is_err());
    let mut none = pack();
    none.enabled = false;
    let plan = plan_login(V_1_20_5, &links(), &none, 1, &skins(), "example.org").unwrap();
    assert!(plan.links.is_none());
    assert!(plan.offers.is_empty());
    assert_eq!(plan.continuation, Some(Continuation::SendKnownPacks));
    let plan = plan_login(V_1_20_2, &links(), &none, 1, &skins(), "example.org").unwrap();
    assert_eq!(plan.continuation, Some(Continuation::HandleKnownPacks));
    let plan = plan_login(V_1_21, &links(), &pack(), 1, &skins(), "example.org").unwrap();
    assert!(plan.links.is_some());
    assert_eq!(plan.offers.len(), 1);
    assert_eq!(plan.offers[0].id, 1);
    assert_eq!(
        continue_configuration_after_resource_packs(V_1_20_5),
        Continuation::SendKnownPacks
    );
    assert!(server_links(&links()).len() == 3);
}

#[test]
fn skin_packs_are_offered_where_they_can_be_fetched() {
    assert!(offer_skin_pack(&skins(), V_26_1, "host").is_some());
    assert!(offer_skin_pack(&skins(), V_26_1 - 1, "host").is_none());
    for spoil in [0, 1, 2] {
        let mut config = skins();
        match spoil {
            0 => config.java_resource_pack = false,
            1 => config.endpoint_ready = false,
            _ => config.pack = None,
        }
        assert!(offer_skin_pack(&config, V_26_1, "host").is_none());
    }
}

#[test]
fn refusing_a_required_pack_is_a_kick() {
    let id = configured_id(&pack().url);
    let outcome = |id, version, result| {
        handle_play_resource_pack_response(&pack(), version, id, result)
    };
    assert_eq!(
        outcome(id, V_26_1, ResourcePackResponseResult::Declined),
        ConfiguredOutcome::Kick
    );
    assert_eq!(
        outcome(id, V_26_1, ResourcePackResponseResult::DownloadFail),
        ConfiguredOutcome::Kick
    );
    assert_eq!(
        outcome(id, V_26_1, ResourcePackResponseResult::Accepted),
        ConfiguredOutcome::Noted
    );
    assert_eq!(
        outcome(0, V_26_1, ResourcePackResponseResult::Declined),
        ConfiguredOutcome::OtherPack
    );
    assert_eq!(
        outcome(0, V_1_20_3 - 1, ResourcePackResponseResult::Declined),
        ConfiguredOutcome::Kick
    );
    let mut optional = pack();
    optional.force = false;
    assert_eq!(
        configured_outcome(
            &optional,
            3,
            V_26_1,
            3,
            ResourcePackResponseResult::Declined
        ),
        ConfiguredOutcome::Noted
    );
}

#[test]
fn a_client_takes_up_the_offered_skin_pack() {
    let mut session = SkinPackSession {
        pending: Some(2),
        current: Some(1),
    };
    let nothing = SkinPackReaction {
        remove: None,
        refresh: false,
        offer: None,
    };
    let success = ResourcePackResponseResult::DownloadSuccess;
    assert_eq!(session.handle_response(true, 2, success, Some(2)), nothing);
    assert_eq!(session.handle_response(false, 9, success, Some(2)), nothing);
    assert_eq!(
        session.handle_response(false, 2, ResourcePackResponseResult::Accepted, Some(2)),
        nothing
    );
    assert_eq!(
        session.handle_response(false, 2, success, Some(3)),
        SkinPackReaction {
            remove: Some(1),
            refresh: true,
            offer: Some(3),
        }
    );
    assert_eq!(
        session,
        SkinPackSession {
            pending: None,
            current: Some(2),
        }
    );
    assert_eq!(session.handle_response(false, 2, success, Some(3)), nothing);
    assert_eq!(
        session.handle_response(false, 2, ResourcePackResponseResult::Discarded, Some(3)),
        SkinPackReaction {
            remove: None,
            refresh: true,
            offer: None,
        }
    );
    assert_eq!(session.current, None);
    session.pending = Some(3);
    assert_eq!(
        session.handle_response(false, 3, ResourcePackResponseResult::Declined, Some(4)),
        SkinPackReaction {
            remove: None,
            refresh: false,
            offer: Some(4),
        }
    );
}

#[test]
fn new_skins_are_sent_to_the_other_bedrock_players() {
    assert!(claims_own_skin(3, 3));
    assert!(!claims_own_skin(3, 4));
    let players = [(1, true), (2, false), (3, true), (4, true)]
        .into_iter()
        .map(|(id, bedrock)| WorldPlayer { id, bedrock })
        .collect();
    assert_eq!(recipients(&players, 3), [0, 3]);
}
