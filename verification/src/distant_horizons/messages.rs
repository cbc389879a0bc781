//! Protocol constants and message bodies.

use super::codec::{
    bool_bytes, i32_bytes, i64_bytes, string_bytes, string_read, Reader, Writer,
};
use crate::bytes::{be_bytes, push_be, push_slice};
use vstd::prelude::*;
use vstd::utf8::encode_utf8;

verus! {

/// The protocol version that prefixes every payload.
pub const PROTOCOL_VERSION: u16 = 15;

/// The custom-payload channel of the play phase.
pub const CHANNEL: &'static str = "distant_horizons:msg";

pub const LEVEL_INIT_ID: u16 = 2;

pub const REQUEST_LEVEL_INIT_ID: u16 = 3;

pub const SESSION_CONFIG_ID: u16 = 4;

/// The outer frame of a message: protocol version, message id, body.
pub open spec fn framed(message_id: u16, body: Seq<u8>) -> Seq<u8> {
    be_bytes(PROTOCOL_VERSION as nat, 2) + be_bytes(message_id as nat, 2) + body
}

/// Wraps a message body in its outer frame.
pub fn frame(message_id: u16, body: &[u8]) -> (out: Vec<u8>)
    ensures
        out@ == framed(message_id, body@),
{
    let mut out: Vec<u8> = Vec::new();
    push_be(&mut out, PROTOCOL_VERSION as u128, 2);
    push_be(&mut out, message_id as u128, 2);
    push_slice(&mut out, body);
    assert(out@ =~= framed(message_id, body@));
    out
}

/// What the server offers. The field order is the wire order: the message has no
/// count prefix.
pub struct ServerSessionConfig {
    pub enable_distant_generation: bool,
    pub max_generation_request_distance: i32,
    pub generation_center_chunk_x: i32,
    pub generation_center_chunk_z: i32,
    pub generation_max_chunk_radius: i32,
    pub generation_request_rate_limit: i32,
    pub enable_real_time_updates: bool,
    pub real_time_update_distance_radius_in_chunks: i32,
    pub synchronize_on_load: bool,
    pub max_sync_on_load_request_distance: i32,
    pub sync_on_load_rate_limit: i32,
    pub player_bandwidth_limit: i32,
}

/// The configuration in which everything is off.
pub open spec fn disabled_session_config() -> ServerSessionConfig {
    ServerSessionConfig {
        enable_distant_generation: false,
        max_generation_request_distance: 0,
        generation_center_chunk_x: 0,
        generation_center_chunk_z: 0,
        generation_max_chunk_radius: 0,
        generation_request_rate_limit: 0,
        enable_real_time_updates: false,
        real_time_update_distance_radius_in_chunks: 0,
        synchronize_on_load: false,
        max_sync_on_load_request_distance: 0,
        sync_on_load_rate_limit: 0,
        player_bandwidth_limit: 0,
    }
}

impl Default for ServerSessionConfig {
    /// Completes the handshake with every feature disabled.
    fn default() -> (config: Self)
        ensures
            config == disabled_session_config(),
    {
        ServerSessionConfig {
            enable_distant_generation: false,
            max_generation_request_distance: 0,
            generation_center_chunk_x: 0,
            generation_center_chunk_z: 0,
            generation_max_chunk_radius: 0,
            generation_request_rate_limit: 0,
            enable_real_time_updates: false,
            real_time_update_distance_radius_in_chunks: 0,
            synchronize_on_load: false,
            max_sync_on_load_request_distance: 0,
            sync_on_load_rate_limit: 0,
            player_bandwidth_limit: 0,
        }
    }
}

/// Decodes the body of a level request: one dimension text.
pub fn decode_request_level_init(reader: &mut Reader) -> (r: Option<String>)
    ensures
        (match r {
            Some(s) => Some(s@),
            None => None::<Seq<char>>,
        }, final(reader)@) == string_read(old(reader)@),
{
    reader.read_string()
}

/// The body of a level announcement.
pub open spec fn level_init_body(
    dimension: Seq<char>,
    server_key: Seq<char>,
    level_key: Seq<char>,
    server_time: i64,
) -> Seq<u8> {
    string_bytes(dimension) + string_bytes(server_key) + string_bytes(level_key) + i64_bytes(
        server_time,
    )
}

/// Encodes the body of a level announcement.
pub fn encode_level_init_body(
    dimension: &str,
    server_key: &str,
    level_key: &str,
    server_time: i64,
) -> (body: Vec<u8>)
    requires
        encode_utf8(dimension@).len() <= u16::MAX,
        encode_utf8(server_key@).len() <= u16::MAX,
        encode_utf8(level_key@).len() <= u16::MAX,
    ensures
        body@ == level_init_body(dimension@, server_key@, level_key@, server_time),
{
    let mut writer = Writer::new();
    writer.write_string(dimension);
    writer.write_string(server_key);
    writer.write_string(level_key);
    writer.write_i64(server_time);
    assert(writer@ =~= level_init_body(dimension@, server_key@, level_key@, server_time));
    writer.into_vec()
}

/// The body of a session configuration.
pub open spec fn session_config_body(c: ServerSessionConfig) -> Seq<u8> {
    bool_bytes(c.enable_distant_generation) + i32_bytes(c.max_generation_request_distance)
        + i32_bytes(c.generation_center_chunk_x) + i32_bytes(c.generation_center_chunk_z)
        + i32_bytes(c.generation_max_chunk_radius) + i32_bytes(c.generation_request_rate_limit)
        + bool_bytes(c.enable_real_time_updates) + i32_bytes(
        c.real_time_update_distance_radius_in_chunks,
    ) + bool_bytes(c.synchronize_on_load) + i32_bytes(c.max_sync_on_load_request_distance)
        + i32_bytes(c.sync_on_load_rate_limit) + i32_bytes(c.player_bandwidth_limit)
}

/// Encodes the body of a session configuration.
pub fn encode_session_config_body(config: &ServerSessionConfig) -> (body: Vec<u8>)
    ensures
        body@ == session_config_body(*config),
{
    let mut writer = Writer::new();
    writer.write_bool(config.enable_distant_generation);
    writer.write_i32(config.max_generation_request_distance);
    writer.write_i32(config.generation_center_chunk_x);
    writer.write_i32(config.generation_center_chunk_z);
    writer.write_i32(config.generation_max_chunk_radius);
    writer.write_i32(config.generation_request_rate_limit);
    writer.write_bool(config.enable_real_time_updates);
    writer.write_i32(config.real_time_update_distance_radius_in_chunks);
    writer.write_bool(config.synchronize_on_load);
    writer.write_i32(config.max_sync_on_load_request_distance);
    writer.write_i32(config.sync_on_load_rate_limit);
    writer.write_i32(config.player_bandwidth_limit);
    assert(Seq::<u8>::empty() + bool_bytes(config.enable_distant_generation) =~= bool_bytes(
        config.enable_distant_generation,
    ));
    writer.into_vec()
}

/// How many bytes a session configuration takes: three booleans and nine integers.
pub const SESSION_CONFIG_LEN: usize = 39;

/// How much of `available` bytes a reading of a session configuration consumes: all fields
/// up to the first that is not there whole.
pub open spec fn session_config_consumed(available: nat) -> int {
    if available >= 39 {
        39
    } else if available >= 35 {
        35
    } else if available >= 31 {
        31
    } else if available >= 27 {
        27
    } else if available >= 26 {
        26
    } else if available >= 22 {
        22
    } else if available >= 21 {
        21
    } else if available >= 17 {
        17
    } else if available >= 13 {
        13
    } else if available >= 9 {
        9
    } else if available >= 5 {
        5
    } else if available >= 1 {
        1
    } else {
        0
    }
}

/// Reads a session configuration and discards it. It succeeds where the whole
/// configuration is there.
pub fn skip_session_config(reader: &mut Reader) -> (r: Option<()>)
    ensures
        r is Some <==> old(reader)@.len() >= SESSION_CONFIG_LEN,
        final(reader)@ == old(reader)@.skip(session_config_consumed(old(reader)@.len())),
{
    let ghost start = reader@;
    assert(start.skip(0) =~= start);
    reader.read_bool()?;
    reader.read_i32()?;
    assert(reader@ =~= start.skip(5));
    reader.read_i32()?;
    assert(reader@ =~= start.skip(9));
    reader.read_i32()?;
    assert(reader@ =~= start.skip(13));
    reader.read_i32()?;
    assert(reader@ =~= start.skip(17));
    reader.read_i32()?;
    assert(reader@ =~= start.skip(21));
    reader.read_bool()?;
    assert(reader@ =~= start.skip(22));
    reader.read_i32()?;
    assert(reader@ =~= start.skip(26));
    reader.read_bool()?;
    assert(reader@ =~= start.skip(27));
    reader.read_i32()?;
    assert(reader@ =~= start.skip(31));
    reader.read_i32()?;
    assert(reader@ =~= start.skip(35));
    reader.read_i32()?;
    assert(reader@ =~= start.skip(39));
    Some(())
}

/// An encoded session configuration is exactly as long as what is skipped for one.
pub proof fn law_session_config_len(c: ServerSessionConfig)
    ensures
        session_config_body(c).len() == SESSION_CONFIG_LEN,
{
    assert forall|v: i32| #[trigger] i32_bytes(v).len() == 4 by {
        crate::bytes::lemma_be_len(crate::bytes::twos_complement_32(v as int), 4);
    }
}

/// A message begins with version fifteen and its own number, in two bytes each, and the rest is
/// its body.
pub proof fn law_messages_tell_their_version_and_number(message_id: u16, body: Seq<u8>)
    ensures
        framed(message_id, body).len() == body.len() + 4,
        crate::bytes::be_value(framed(message_id, body).take(2)) == 15,
        crate::bytes::be_value(framed(message_id, body).subrange(2, 4)) == message_id,
        framed(message_id, body).skip(4) == body,
{
    crate::bytes::lemma_pow256_values();
    crate::bytes::lemma_be_len(15, 2);
    crate::bytes::lemma_be_len(message_id as nat, 2);
    crate::bytes::lemma_be_round_trip(15, 2);
    crate::bytes::lemma_be_round_trip(message_id as nat, 2);
    let s = framed(message_id, body);
    assert(s.take(2) =~= be_bytes(15, 2));
    assert(s.subrange(2, 4) =~= be_bytes(message_id as nat, 2));
    assert(s.skip(4) =~= body);
}

/// A level's announcement is read back: the dimension, the server's key, the level's key, and
/// then the time.
pub proof fn law_announcements_are_read_back(
    dimension: Seq<char>,
    server_key: Seq<char>,
    level_key: Seq<char>,
    server_time: i64,
)
    requires
        encode_utf8(dimension).len() <= u16::MAX,
        encode_utf8(server_key).len() <= u16::MAX,
        encode_utf8(level_key).len() <= u16::MAX,
    ensures
        ({
            let body = level_init_body(dimension, server_key, level_key, server_time);
            let (first, a) = string_read(body);
            let (second, b) = string_read(a);
            let (third, c) = string_read(b);
            &&& first == Some(dimension)
            &&& second == Some(server_key)
            &&& third == Some(level_key)
            &&& c == i64_bytes(server_time)
        }),
{
    let d = string_bytes(dimension);
    let s = string_bytes(server_key);
    let l = string_bytes(level_key);
    let t = i64_bytes(server_time);
    super::codec::law_string_round_trip(dimension, s + l + t);
    super::codec::law_string_round_trip(server_key, l + t);
    super::codec::law_string_round_trip(level_key, t);
    let body = level_init_body(dimension, server_key, level_key, server_time);
    assert(body =~= d + (s + l + t));
    assert(s + l + t =~= s + (l + t));
}

/// The fields of a session configuration lie one behind the other in their order, a byte for
/// each flag and four for each number.
pub proof fn law_configurations_are_laid_out_in_order(c: ServerSessionConfig)
    ensures
        ({
            let b = session_config_body(c);
            &&& b[0] != 0 <==> c.enable_distant_generation
            &&& b.subrange(1, 5) == i32_bytes(c.max_generation_request_distance)
            &&& b.subrange(5, 9) == i32_bytes(c.generation_center_chunk_x)
            &&& b.subrange(9, 13) == i32_bytes(c.generation_center_chunk_z)
            &&& b.subrange(13, 17) == i32_bytes(c.generation_max_chunk_radius)
            &&& b.subrange(17, 21) == i32_bytes(c.generation_request_rate_limit)
            &&& b[21] != 0 <==> c.enable_real_time_updates
            &&& b.subrange(22, 26) == i32_bytes(c.real_time_update_distance_radius_in_chunks)
            &&& b[26] != 0 <==> c.synchronize_on_load
            &&& b.subrange(27, 31) == i32_bytes(c.max_sync_on_load_request_distance)
            &&& b.subrange(31, 35) == i32_bytes(c.sync_on_load_rate_limit)
            &&& b.subrange(35, 39) == i32_bytes(c.player_bandwidth_limit)
        }),
{
    let b = session_config_body(c);
    law_session_config_len(c);
    super::codec::law_numbers_are_in_network_order(true, c.max_generation_request_distance, 0);
    super::codec::law_numbers_are_in_network_order(true, c.generation_center_chunk_x, 0);
    super::codec::law_numbers_are_in_network_order(true, c.generation_center_chunk_z, 0);
    super::codec::law_numbers_are_in_network_order(true, c.generation_max_chunk_radius, 0);
    super::codec::law_numbers_are_in_network_order(true, c.generation_request_rate_limit, 0);
    super::codec::law_numbers_are_in_network_order(
        true,
        c.real_time_update_distance_radius_in_chunks,
        0,
    );
    super::codec::law_numbers_are_in_network_order(true, c.max_sync_on_load_request_distance, 0);
    super::codec::law_numbers_are_in_network_order(true, c.sync_on_load_rate_limit, 0);
    super::codec::law_numbers_are_in_network_order(true, c.player_bandwidth_limit, 0);
    assert(b.subrange(1, 5) =~= i32_bytes(c.max_generation_request_distance));
    assert(b.subrange(5, 9) =~= i32_bytes(c.generation_center_chunk_x));
    assert(b.subrange(9, 13) =~= i32_bytes(c.generation_center_chunk_z));
    assert(b.subrange(13, 17) =~= i32_bytes(c.generation_max_chunk_radius));
    assert(b.subrange(17, 21) =~= i32_bytes(c.generation_request_rate_limit));
    assert(b.subrange(22, 26) =~= i32_bytes(c.real_time_update_distance_radius_in_chunks));
    assert(b.subrange(27, 31) =~= i32_bytes(c.max_sync_on_load_request_distance));
    assert(b.subrange(31, 35) =~= i32_bytes(c.sync_on_load_rate_limit));
    assert(b.subrange(35, 39) =~= i32_bytes(c.player_bandwidth_limit));
}

/// The configuration in which everything is off offers nothing and allows nothing.
pub proof fn law_everything_is_off()
    ensures
        !disabled_session_config().enable_distant_generation,
        !disabled_session_config().enable_real_time_updates,
        !disabled_session_config().synchronize_on_load,
        forall|i: int|
            0 <= i < 39 ==> #[trigger] session_config_body(disabled_session_config())[i] == 0,
{
    let c = disabled_session_config();
    let b = session_config_body(c);
    law_session_config_len(c);
    let z = i32_bytes(0);
    reveal_with_fuel(be_bytes, 5);
    assert(z =~= seq![0u8, 0, 0, 0]);
    assert(b =~= seq![0u8] + z + z + z + z + z + seq![0u8] + z + seq![0u8] + z + z + z);
}

/// Reading a session configuration that is cut off takes the fields that are there whole: never
/// more than there is, less than a number more is left, and what was taken is taken again.
pub proof fn law_whole_fields_are_taken(available: nat)
    ensures
        0 <= session_config_consumed(available) <= available,
        available >= 39 ==> session_config_consumed(available) == 39,
        available < 39 ==> available - session_config_consumed(available) < 4,
        session_config_consumed(session_config_consumed(available) as nat)
            == session_config_consumed(available),
        available == 1 || available == 5 || available == 9 || available == 13 || available == 17
            || available == 21 || available == 22 || available == 26 || available == 27 || available
            == 31 || available == 35 ==> session_config_consumed(available) == available,
        available == 2 || available == 3 || available == 4 ==> session_config_consumed(available)
            == 1,
        available == 25 ==> session_config_consumed(available) == 22,
        available == 30 ==> session_config_consumed(available) == 27,
{
}

} // verus!
