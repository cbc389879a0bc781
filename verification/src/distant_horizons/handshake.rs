//! What the server does with a payload on the Distant Horizons channel.

use super::codec::{string_read, Reader};
use super::messages::{
    decode_request_level_init, disabled_session_config, encode_level_init_body,
    encode_session_config_body, frame, framed, level_init_body, session_config_body,
    skip_session_config, ServerSessionConfig, CHANNEL, LEVEL_INIT_ID, PROTOCOL_VERSION,
    REQUEST_LEVEL_INIT_ID, SESSION_CONFIG_ID,
};
use crate::bytes::{be_value, lemma_be_bound, lemma_pow256_values};
use crate::text::str_eq;
use vstd::prelude::*;
use vstd::utf8::{decode_utf8_encode_utf8, encode_utf8};

verus! {

/// What came of a payload. A reply carries the framed bytes to send back.
pub enum PayloadOutcome {
    /// The payload is on another channel.
    OtherChannel,
    /// The protocol version is missing.
    Truncated,
    /// The client speaks another protocol version.
    VersionMismatch(u16),
    /// The message id is missing.
    MissingMessageId,
    /// A level request without a readable dimension.
    MalformedRequest,
    /// A level request: the dimension, and the level announcement to send.
    LevelInit(String, Vec<u8>),
    /// A session configuration: the server's configuration to send.
    SessionConfig(Vec<u8>),
    /// A message that the server does not answer.
    Ignored(u16),
}

/// The same as [`PayloadOutcome`], over mathematical sequences.
pub enum PayloadView {
    OtherChannel,
    Truncated,
    VersionMismatch(u16),
    MissingMessageId,
    MalformedRequest,
    LevelInit(Seq<char>, Seq<u8>),
    SessionConfig(Seq<u8>),
    Ignored(u16),
}

impl View for PayloadOutcome {
    type V = PayloadView;

    open spec fn view(&self) -> PayloadView {
        match self {
            PayloadOutcome::OtherChannel => PayloadView::OtherChannel,
            PayloadOutcome::Truncated => PayloadView::Truncated,
            PayloadOutcome::VersionMismatch(v) => PayloadView::VersionMismatch(*v),
            PayloadOutcome::MissingMessageId => PayloadView::MissingMessageId,
            PayloadOutcome::MalformedRequest => PayloadView::MalformedRequest,
            PayloadOutcome::LevelInit(d, p) => PayloadView::LevelInit(d@, p@),
            PayloadOutcome::SessionConfig(p) => PayloadView::SessionConfig(p@),
            PayloadOutcome::Ignored(id) => PayloadView::Ignored(*id),
        }
    }
}

/// The outcome that a payload on the channel has at a given time.
pub open spec fn payload_outcome(data: Seq<u8>, now_millis: i64) -> PayloadView {
    if data.len() < 2 {
        PayloadView::Truncated
    } else if be_value(data.take(2)) != PROTOCOL_VERSION {
        PayloadView::VersionMismatch(be_value(data.take(2)) as u16)
    } else if data.len() < 4 {
        PayloadView::MissingMessageId
    } else {
        let id = be_value(data.skip(2).take(2)) as u16;
        if id == REQUEST_LEVEL_INIT_ID {
            match string_read(data.skip(4)).0 {
                None => PayloadView::MalformedRequest,
                Some(dimension) => PayloadView::LevelInit(
                    dimension,
                    framed(
                        LEVEL_INIT_ID,
                        level_init_body(dimension, "pumpkin"@, dimension, now_millis),
                    ),
                ),
            }
        } else if id == SESSION_CONFIG_ID {
            PayloadView::SessionConfig(
                framed(SESSION_CONFIG_ID, session_config_body(disabled_session_config())),
            )
        } else {
            PayloadView::Ignored(id)
        }
    }
}

/// A text that was read fits the length prefix that it came with.
proof fn lemma_read_text_is_short(input: Seq<u8>)
    ensures
        string_read(input).0 matches Some(text) ==> encode_utf8(text).len() <= u16::MAX,
{
    if let Some(text) = string_read(input).0 {
        let len = be_value(input.take(2)) as int;
        lemma_be_bound(input.take(2));
        lemma_pow256_values();
        decode_utf8_encode_utf8(input.skip(2).take(len));
    }
}

/// Answers a payload. A level request is answered with the level's announcement,
/// whose keys reuse the dimension; a session configuration is answered with the
/// server's own, whether or not the client's is complete.
pub fn handle_payload(data: &[u8], now_millis: i64) -> (r: PayloadOutcome)
    ensures
        r@ == payload_outcome(data@, now_millis),
{
    let mut reader = Reader::new(data);
    proof {
        lemma_be_bound(data@.take(2));
        lemma_be_bound(data@.skip(2).take(2));
        lemma_pow256_values();
        reveal_strlit("pumpkin");
        vstd::utf8::is_ascii_chars_encode_utf8("pumpkin"@);
    }
    let version: u16 = match reader.read_u16() {
        Some(version) => version,
        None => return PayloadOutcome::Truncated,
    };
    if version != PROTOCOL_VERSION {
        return PayloadOutcome::VersionMismatch(version);
    }
    let message_id: u16 = match reader.read_u16() {
        Some(id) => id,
        None => return PayloadOutcome::MissingMessageId,
    };
    assert(reader@ =~= data@.skip(4));
    if message_id == REQUEST_LEVEL_INIT_ID {
        proof {
            lemma_read_text_is_short(reader@);
        }
        match decode_request_level_init(&mut reader) {
            None => PayloadOutcome::MalformedRequest,
            Some(dimension) => {
                let body = encode_level_init_body(
                    dimension.as_str(),
                    "pumpkin",
                    dimension.as_str(),
                    now_millis,
                );
                let payload = frame(LEVEL_INIT_ID, body.as_slice());
                PayloadOutcome::LevelInit(dimension, payload)
            },
        }
    } else if message_id == SESSION_CONFIG_ID {
        let _ = skip_session_config(&mut reader);
        let body = encode_session_config_body(&ServerSessionConfig::default());
        PayloadOutcome::SessionConfig(frame(SESSION_CONFIG_ID, body.as_slice()))
    } else {
        PayloadOutcome::Ignored(message_id)
    }
}

/// Answers a custom payload of any channel: those of other channels are left alone.
pub fn handle(channel: &str, data: &[u8], now_millis: i64) -> (r: PayloadOutcome)
    ensures
        r@ == (if channel@ == CHANNEL@ {
            payload_outcome(data@, now_millis)
        } else {
            PayloadView::OtherChannel
        }),
{
    if str_eq(channel, CHANNEL) {
        handle_payload(data, now_millis)
    } else {
        PayloadOutcome::OtherChannel
    }
}

/// A well-formed level request for any dimension is answered with the announcement
/// of that dimension.
pub proof fn law_level_request_is_answered(dimension: Seq<char>, now_millis: i64)
    requires
        encode_utf8(dimension).len() <= u16::MAX,
    ensures
        payload_outcome(
            framed(REQUEST_LEVEL_INIT_ID, super::codec::string_bytes(dimension)),
            now_millis,
        ) == PayloadView::LevelInit(
            dimension,
            framed(LEVEL_INIT_ID, level_init_body(dimension, "pumpkin"@, dimension, now_millis)),
        ),
{
    let body = super::codec::string_bytes(dimension);
    let data = framed(REQUEST_LEVEL_INIT_ID, body);
    lemma_pow256_values();
    crate::bytes::lemma_be_len(PROTOCOL_VERSION as nat, 2);
    crate::bytes::lemma_be_len(REQUEST_LEVEL_INIT_ID as nat, 2);
    crate::bytes::lemma_be_round_trip(PROTOCOL_VERSION as nat, 2);
    crate::bytes::lemma_be_round_trip(REQUEST_LEVEL_INIT_ID as nat, 2);
    assert(data.take(2) =~= crate::bytes::be_bytes(PROTOCOL_VERSION as nat, 2));
    assert(data.skip(2).take(2) =~= crate::bytes::be_bytes(REQUEST_LEVEL_INIT_ID as nat, 2));
    assert(data.skip(4) =~= body + Seq::<u8>::empty());
    super::codec::law_string_round_trip(dimension, Seq::empty());
}

/// A payload is answered by its version and its number: another version is named back, a session
/// configuration is answered with one in which everything is off, and any other message is left
/// alone.
pub proof fn law_messages_are_answered_by_number(version: u16, id: u16, body: Seq<u8>, now: i64)
    ensures
        ({
            let data = crate::bytes::be_bytes(version as nat, 2) + crate::bytes::be_bytes(
                id as nat,
                2,
            ) + body;
            let outcome = payload_outcome(data, now);
            &&& version != 15 ==> outcome == PayloadView::VersionMismatch(version)
            &&& version == 15 && id == 4 ==> outcome == PayloadView::SessionConfig(
                framed(4, session_config_body(disabled_session_config())),
            )
            &&& version == 15 && id != 3 && id != 4 ==> outcome == PayloadView::Ignored(id)
            &&& version == 15 && id == 3 && string_read(body).0 is None ==> outcome
                == PayloadView::MalformedRequest
            &&& version == 15 && id == 3 && string_read(body).0 is Some ==> outcome
                == PayloadView::LevelInit(
                string_read(body).0->0,
                framed(
                    2,
                    level_init_body(
                        string_read(body).0->0,
                        "pumpkin"@,
                        string_read(body).0->0,
                        now,
                    ),
                ),
            )
        }),
        body.len() < 2 ==> payload_outcome(body, now) == PayloadView::Truncated,
{
    let v = crate::bytes::be_bytes(version as nat, 2);
    let i = crate::bytes::be_bytes(id as nat, 2);
    let data = v + i + body;
    crate::bytes::lemma_pow256_values();
    crate::bytes::lemma_be_len(version as nat, 2);
    crate::bytes::lemma_be_len(id as nat, 2);
    crate::bytes::lemma_be_round_trip(version as nat, 2);
    crate::bytes::lemma_be_round_trip(id as nat, 2);
    assert(data.take(2) =~= v);
    assert(data.skip(2).take(2) =~= i);
    assert(data.skip(4) =~= body);
}

} // verus!
