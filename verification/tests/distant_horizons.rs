use pumpkin::distant_horizons::codec::{Reader, Writer};
use pumpkin::distant_horizons::handshake::{handle, handle_payload, PayloadOutcome};
use pumpkin::distant_horizons::messages::{
    encode_session_config_body, frame, skip_session_config, ServerSessionConfig, CHANNEL, PROTOCOL_VERSION,
    REQUEST_LEVEL_INIT_ID, SESSION_CONFIG_ID, SESSION_CONFIG_LEN,
};

fn request(dimension: &str) -> Vec<u8> {
    let mut writer = Writer::new();
    writer.write_string(dimension);
    frame(REQUEST_LEVEL_INIT_ID, &writer.into_vec())
}

#[test]
fn level_requests_are_answered_with_the_level() {
    let PayloadOutcome::LevelInit(dimension, reply) =
        handle(CHANNEL, &request("minecraft:overworld"), 77)
    else {
        panic!("expected a level announcement");
    };
    assert_eq!(dimension, "minecraft:overworld");
    let mut reader = Reader::new(&reply);
    assert_eq!(reader.read_u16(), Some(PROTOCOL_VERSION));
    assert_eq!(reader.read_u16(), Some(2));
    assert_eq!(reader.read_string().unwrap(), "minecraft:overworld");
    assert_eq!(reader.read_string().unwrap(), "pumpkin");
    assert_eq!(reader.read_string().unwrap(), "minecraft:overworld");
    assert_eq!(&reply[reply.len() - 8..], 77i64.to_be_bytes());
}

#[test]
fn session_configurations_are_answered_with_everything_off() {
    for body in [vec![], vec![0; SESSION_CONFIG_LEN]] {
        let PayloadOutcome::SessionConfig(reply) =
            handle_payload(&frame(SESSION_CONFIG_ID, &body), 0)
        else {
            panic!("expected a configuration");
        };
        assert_eq!(reply, frame(SESSION_CONFIG_ID, &[0; SESSION_CONFIG_LEN]));
    }
    let mut config = ServerSessionConfig::default();
    config.enable_distant_generation = true;
    config.player_bandwidth_limit = -2;
    let body = encode_session_config_body(&config);
    assert_eq!(body.len(), SESSION_CONFIG_LEN);
    assert_eq!(body[0], 1);
    assert_eq!(&body[35..], (-2i32).to_be_bytes());
}

#[test]
fn other_payloads_are_told_apart() {
    assert!(matches!(
        handle("minecraft:brand", &request("x"), 0),
        PayloadOutcome::OtherChannel
    ));
    assert!(matches!(
        handle_payload(&[0], 0),
        PayloadOutcome::Truncated
    ));
    assert!(matches!(
        handle_payload(&[0, 14, 0, 3], 0),
        PayloadOutcome::VersionMismatch(14)
    ));
    assert!(matches!(
        handle_payload(&[0, 15, 0], 0),
        PayloadOutcome::MissingMessageId
    ));
    assert!(matches!(
        handle_payload(&[0, 15, 0, 3, 0, 9, 1], 0),
        PayloadOutcome::MalformedRequest
    ));
    assert!(matches!(
        handle_payload(&[0, 15, 1, 0], 0),
        PayloadOutcome::Ignored(256)
    ));
}

#[test]
fn values_round_trip() {
    let mut writer = Writer::new();
    writer.write_bool(true);
    writer.write_i32(-5);
    writer.write_string("hráč");
    writer.write_i64(-1);
    let bytes = writer.into_vec();
    let mut reader = Reader::new(&bytes);
    assert_eq!(reader.read_bool(), Some(true));
    assert_eq!(reader.read_i32(), Some(-5));
    assert_eq!(reader.read_string().as_deref(), Some("hráč"));
    assert_eq!(reader.read_i32(), Some(-1));
    assert_eq!(reader.read_i32(), Some(-1));
    assert_eq!(reader.read_i32(), None);
    assert_eq!(Reader::new(&[0, 1, 0xff]).read_string(), None);
}

#[test]
fn a_cut_configuration_is_read_field_by_field() {
    let ends = [1, 5, 9, 13, 17, 21, 22, 26, 27, 31, 35, 39];
    let bytes = [0u8; 50];
    for available in 0..bytes.len() {
        let mut reader = Reader::new(&bytes[..available]);
        let done = skip_session_config(&mut reader);
        assert_eq!(done.is_some(), available >= SESSION_CONFIG_LEN);
        let consumed = ends.iter().rev().find(|end| **end <= available);
        let mut left = 0;
        while reader.read_bool().is_some() {
            left += 1;
        }
        assert_eq!(left, available - consumed.copied().unwrap_or(0));
    }
}
