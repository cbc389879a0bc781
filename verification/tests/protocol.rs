use pumpkin::net::resource_pack::ResourcePackResponseResult;
use pumpkin::net::version::{V_1_10, V_1_20_2, V_26_2};
use pumpkin::protocol::inventory_transaction::{
    error_text, InventoryActionSource, SInventoryTransaction, TransactionData, FIELD_ACTIONS,
    FIELD_FLAGS, FIELD_TYPE, FIELD_WINDOW,
};
use pumpkin::protocol::open_connection::{
    raknet_magic_bytes, COpenConnectionReply1, COpenConnectionReply2, ClientAddress,
};
use pumpkin::protocol::player_skin::{CPlayerSkin, SPlayerSkin};
use pumpkin::protocol::remove_resource_pack::CRemoveResourcePack;
use pumpkin::protocol::resource_pack_response::SConfigResourcePack;
use pumpkin::protocol::serial::{
    push_java_var_int, push_text, read_java_var_int, ByteReader, PacketRead, ReadError, VarInt,
    VarUInt, VarULong, Vector3Bits,
};
use pumpkin::protocol::uuid;

const UUID: u128 = 0x0011_2233_4455_4677_8899_aabb_ccdd_eeff;
const BEDROCK_BYTES: [u8; 16] = [
    0x77, 0x46, 0x55, 0x44, 0x33, 0x22, 0x11, 0x00, 0xff, 0xee, 0xdd, 0xcc, 0xbb, 0xaa, 0x99, 0x88,
];
const JAVA_BYTES: [u8; 16] = [
    0x00, 0x11, 0x22, 0x33, 0x44, 0x55, 0x46, 0x77, 0x88, 0x99, 0xaa, 0xbb, 0xcc, 0xdd, 0xee, 0xff,
];
const SERVER_GUID: u64 = 0x0102_0304_0506_0708;
const MTU: u16 = 1492;

#[test]
fn bedrock_uuid_write_uses_little_endian_halves() {
    let mut encoded = Vec::new();
    uuid::write_bedrock(UUID, &mut encoded);
    assert_eq!(encoded, BEDROCK_BYTES);
}

#[test]
fn bedrock_uuid_read_accepts_known_wire_bytes() {
    let mut reader = ByteReader::new(&BEDROCK_BYTES);
    assert_eq!(uuid::read(&mut reader).unwrap(), UUID);
}

#[test]
fn bedrock_uuid_read_slice_accepts_known_wire_bytes() {
    let bytes = [BEDROCK_BYTES.as_slice(), &[0xaa]].concat();
    let mut remaining = bytes.as_slice();
    assert_eq!(uuid::read_slice(&mut remaining).unwrap(), UUID);
    assert_eq!(remaining, &[0xaa]);
}

#[test]
fn bedrock_uuid_rejects_truncated_input() {
    for length in 0..BEDROCK_BYTES.len() {
        let bytes = &BEDROCK_BYTES[..length];
        let mut reader = ByteReader::new(bytes);
        let error = uuid::read(&mut reader).unwrap_err();
        assert_eq!(error, ReadError::UnexpectedEof);

        let mut remaining = bytes;
        let error = uuid::read_slice(&mut remaining).unwrap_err();
        assert_eq!(error, ReadError::UnexpectedEof);
        assert_eq!(remaining, bytes);
    }
}

#[test]
fn java_uuid_keeps_big_endian_halves() {
    let mut encoded = Vec::new();
    uuid::write_uuid(UUID, &mut encoded);
    assert_eq!(encoded, JAVA_BYTES);
    let mut reader = ByteReader::new(&JAVA_BYTES);
    assert_eq!(uuid::get_uuid(&mut reader).unwrap(), UUID);
}

#[test]
fn bedrock_player_skin_uses_known_uuid_bytes_in_both_directions() {
    let mut skin = Vec::new();
    VarUInt(300).write(&mut skin);
    let packet = CPlayerSkin {
        uuid: UUID,
        skin: &skin,
        new_skin_name: "new",
        old_skin_name: "old",
    };
    let mut encoded = Vec::new();
    packet.write(&mut encoded);
    assert_eq!(&encoded[..16], &BEDROCK_BYTES);

    let mut incoming = BEDROCK_BYTES.to_vec();
    VarUInt(300).write(&mut incoming);
    push_text(&mut incoming, "new");
    push_text(&mut incoming, "old");
    assert_eq!(encoded, incoming);
    let mut reader = ByteReader::new(&incoming);
    let decoded = SPlayerSkin::<VarUInt>::read(&mut reader).unwrap();
    assert_eq!(decoded.uuid, UUID);
    assert_eq!(decoded.skin, VarUInt(300));
    assert_eq!(decoded.new_skin_name, "new");
    assert_eq!(decoded.old_skin_name, "old");
    assert!(reader.rest().is_empty());
}

#[test]
fn removes_only_the_superseded_skin_pack() {
    let id: u128 = 0x0011_2233_4455_6677_8899_aabb_ccdd_eeff;
    let mut encoded = Vec::new();
    CRemoveResourcePack::new(Some(&id)).write_packet_data(&mut encoded);
    let mut expected = vec![1];
    expected.extend_from_slice(&id.to_be_bytes());
    assert_eq!(encoded, expected);

    let mut all_packs = Vec::new();
    CRemoveResourcePack::new(None).write_packet_data(&mut all_packs);
    assert_eq!(all_packs, [0]);
}

#[test]
fn configuration_responses_omit_pack_uuid_before_1_20_3() {
    let mut payload = ByteReader::new(&[0]);
    let response = SConfigResourcePack::read(&mut payload, V_1_20_2).unwrap();
    assert_eq!(response.uuid, 0);
    assert_eq!(
        response.response_result(),
        ResourcePackResponseResult::DownloadSuccess
    );
    assert!(payload.rest().is_empty());
}

#[test]
fn configuration_responses_identify_each_modern_pack() {
    let id: u128 = 1;
    let mut bytes = id.to_be_bytes().to_vec();
    bytes.push(1);
    let mut payload = ByteReader::new(&bytes);
    let response = SConfigResourcePack::read(&mut payload, V_26_2).unwrap();
    assert_eq!(response.uuid, id);
    assert_eq!(
        response.response_result(),
        ResourcePackResponseResult::Declined
    );
    assert!(payload.rest().is_empty());
}

#[test]
fn old_configuration_responses_carry_a_hash_of_bounded_length() {
    let mut bytes = Vec::new();
    push_java_var_int(&mut bytes, 40);
    bytes.extend_from_slice("a".repeat(40).as_bytes());
    push_java_var_int(&mut bytes, 2);
    let before = V_1_10 - 1;
    let mut payload = ByteReader::new(&bytes);
    let response = SConfigResourcePack::read(&mut payload, before).unwrap();
    assert_eq!(response.uuid, 0);
    assert_eq!(response.result, 2);
    assert!(payload.rest().is_empty());
}

#[test]
fn every_response_result_has_its_number() {
    let expected = [
        ResourcePackResponseResult::DownloadSuccess,
        ResourcePackResponseResult::Declined,
        ResourcePackResponseResult::DownloadFail,
        ResourcePackResponseResult::Accepted,
        ResourcePackResponseResult::Downloaded,
        ResourcePackResponseResult::InvalidUrl,
        ResourcePackResponseResult::ReloadFailed,
        ResourcePackResponseResult::Discarded,
        ResourcePackResponseResult::Unknown(8),
    ];
    for (id, result) in expected.into_iter().enumerate() {
        assert_eq!(ResourcePackResponseResult::from_id(id as i32), result);
    }
    assert_eq!(
        ResourcePackResponseResult::from_id(-1),
        ResourcePackResponseResult::Unknown(-1)
    );
}

#[test]
fn open_connection_reply_1_uses_raknet_byte_order() {
    let mut bytes = Vec::new();
    COpenConnectionReply1::new(SERVER_GUID, false, MTU).write(&mut bytes);

    let mut expected = raknet_magic_bytes().to_vec();
    expected.extend_from_slice(&SERVER_GUID.to_be_bytes());
    expected.push(0);
    expected.extend_from_slice(&MTU.to_be_bytes());
    assert_eq!(bytes, expected);
}

#[test]
fn open_connection_reply_2_uses_raknet_address_and_byte_order() {
    let mut bytes = Vec::new();
    COpenConnectionReply2::new(
        SERVER_GUID,
        ClientAddress {
            a: 192,
            b: 168,
            c: 0,
            d: 17,
            port: 19132,
        },
        MTU,
        false,
    )
    .write(&mut bytes);

    let mut expected = raknet_magic_bytes().to_vec();
    expected.extend_from_slice(&SERVER_GUID.to_be_bytes());
    expected.extend_from_slice(&[4, !192, !168, !0, !17]);
    expected.extend_from_slice(&19132u16.to_be_bytes());
    expected.extend_from_slice(&MTU.to_be_bytes());
    expected.push(0);
    assert_eq!(bytes, expected);
}

fn push_vector(bytes: &mut Vec<u8>, x: f32, y: f32, z: f32) {
    for value in [x, y, z] {
        bytes.extend_from_slice(&value.to_le_bytes());
    }
}

/// The head of a transaction of a type with one action.
fn transaction_head(kind: u32) -> Vec<u8> {
    let mut input = Vec::new();
    VarInt(0).write(&mut input);
    input.push(0);
    input.push(1);
    VarUInt(kind).write(&mut input);
    input.push(1);
    VarUInt(1).write(&mut input);

    VarUInt(0).write(&mut input);
    input.push(1);
    input.push(1);
    input.push(0);
    input.push(1);
    input.push(0);
    VarUInt(0).write(&mut input);
    VarInt(0).write(&mut input);
    VarInt(0).write(&mut input);
    input
}

#[test]
fn decodes_entity_attack_transaction() {
    let mut input = transaction_head(3);
    VarULong(42).write(&mut input);
    VarInt(1).write(&mut input);
    VarInt(0).write(&mut input);
    VarInt(0).write(&mut input);
    push_vector(&mut input, 1.0, 2.0, 3.0);
    push_vector(&mut input, 0.0, 1.0, 0.0);

    let mut reader = ByteReader::new(&input);
    let packet = SInventoryTransaction::<VarInt, VarInt>::read(&mut reader).unwrap();

    assert_eq!(packet.actions.len(), 1);
    assert_eq!(packet.actions[0].window_id, Some(0));
    assert_eq!(packet.actions[0].source_flags, None);
    let TransactionData::UseItemOnEntity(data) = packet.transaction_data else {
        panic!("expected entity transaction");
    };
    assert_eq!(data.target_entity_runtime_id.0, 42);
    assert_eq!(data.action_type.0, 1);
    assert_eq!(
        data.player_position,
        Vector3Bits {
            x: 1.0f32.to_bits(),
            y: 2.0f32.to_bits(),
            z: 3.0f32.to_bits(),
        }
    );
    assert!(reader.rest().is_empty());
}

#[test]
fn the_other_transactions_have_their_own_data() {
    let mut input = transaction_head(2);
    VarUInt(7).write(&mut input);
    input.push(9);
    VarInt(-5).write(&mut input);
    input.push(3);
    VarInt(4).write(&mut input);
    VarInt(11).write(&mut input);
    push_vector(&mut input, 1.0, 2.0, 3.0);
    push_vector(&mut input, 0.0, 1.0, 0.0);
    VarUInt(77).write(&mut input);
    input.push(1);
    input.push(2);
    let packet =
        SInventoryTransaction::<VarInt, VarInt>::read(&mut ByteReader::new(&input)).unwrap();
    let TransactionData::UseItem(data) = packet.transaction_data else {
        panic!("expected item use");
    };
    assert_eq!(data.action_type, VarUInt(7));
    assert_eq!(data.trigger_type, 9);
    assert_eq!(data.block_position, VarInt(-5));
    assert_eq!(data.block_face, 3);
    assert_eq!(data.hot_bar_slot, VarInt(4));
    assert_eq!(data.item_in_hand, VarInt(11));
    assert_eq!(data.block_runtime_id, VarUInt(77));
    assert_eq!(data.client_prediction, 1);
    assert_eq!(data.client_cooldown_state, 2);

    let mut input = transaction_head(4);
    VarInt(1).write(&mut input);
    VarInt(2).write(&mut input);
    VarInt(3).write(&mut input);
    push_vector(&mut input, 1.0, 2.0, 3.0);
    let packet =
        SInventoryTransaction::<VarInt, VarInt>::read(&mut ByteReader::new(&input)).unwrap();
    assert!(matches!(
        packet.transaction_data,
        TransactionData::ReleaseItem(_)
    ));

    for kind in [0, 1] {
        let input = transaction_head(kind);
        let packet =
            SInventoryTransaction::<VarInt, VarInt>::read(&mut ByteReader::new(&input)).unwrap();
        assert_eq!(
            matches!(packet.transaction_data, TransactionData::Normal(_)),
            kind == 0
        );
        assert_eq!(
            matches!(packet.transaction_data, TransactionData::Mismatch(_)),
            kind == 1
        );
    }
}

fn transaction_error(input: &[u8]) -> ReadError {
    SInventoryTransaction::<VarInt, VarInt>::read(&mut ByteReader::new(input))
        .err()
        .unwrap()
}

#[test]
fn transactions_name_what_is_wrong_with_them() {
    let error = transaction_error(&transaction_head(5));
    assert_eq!(error, ReadError::UnknownTransaction(5));
    assert_eq!(error_text(error), "Unknown inventory transaction type: 5");

    let error = transaction_error(&[0, 0, 0]);
    assert_eq!(error, ReadError::Missing(FIELD_TYPE));
    assert_eq!(error_text(error), "inventory transaction type is missing");

    let error = transaction_error(&[0, 0, 1, 0, 0]);
    assert_eq!(error, ReadError::Missing(FIELD_ACTIONS));
    assert_eq!(error_text(error), "inventory transaction actions is missing");

    let error = transaction_error(&[0, 0, 1, 0, 1, 1, 0, 0]);
    assert_eq!(error, ReadError::Missing(FIELD_WINDOW));
    assert_eq!(error_text(error), "inventory action window ID is missing");

    let error = transaction_error(&[0, 0, 1, 0, 1, 1, 0, 1, 0, 0]);
    assert_eq!(error, ReadError::Missing(FIELD_FLAGS));
    assert_eq!(
        error_text(error),
        "inventory action source flags is missing"
    );

    assert_eq!(transaction_error(&[]), ReadError::UnexpectedEof);
    assert_eq!(
        transaction_error(&[0xff, 0xff, 0xff, 0xff, 0xff, 0xff]),
        ReadError::NumberTooLong
    );
}

#[test]
fn legacy_slots_follow_their_flag() {
    let mut input = Vec::new();
    VarInt(-2).write(&mut input);
    input.push(1);
    VarUInt(1).write(&mut input);
    input.push(28);
    VarUInt(2).write(&mut input);
    input.extend_from_slice(&[5, 6]);
    input.extend_from_slice(&[1, 0, 1, 0]);
    let packet =
        SInventoryTransaction::<VarInt, VarInt>::read(&mut ByteReader::new(&input)).unwrap();
    assert_eq!(packet.legacy_request_id, VarInt(-2));
    assert_eq!(packet.legacy_set_item_slots.len(), 1);
    assert_eq!(packet.legacy_set_item_slots[0].container_id, 28);
    assert_eq!(packet.legacy_set_item_slots[0].slots, [5, 6]);
    assert!(packet.actions.is_empty());
}

#[test]
fn action_sources_have_their_numbers() {
    assert_eq!(
        InventoryActionSource::from(0),
        InventoryActionSource::Container
    );
    assert_eq!(InventoryActionSource::from(2), InventoryActionSource::World);
    assert_eq!(
        InventoryActionSource::from(3),
        InventoryActionSource::Creative
    );
    assert_eq!(
        InventoryActionSource::from(99999),
        InventoryActionSource::Todo
    );
    assert_eq!(
        InventoryActionSource::from(1),
        InventoryActionSource::Unknown(1)
    );
}

#[test]
fn variable_length_numbers_round_trip() {
    for value in [0u32, 1, 127, 128, 300, u32::MAX] {
        let mut bytes = Vec::new();
        VarUInt(value).write(&mut bytes);
        assert_eq!(
            VarUInt::read(&mut ByteReader::new(&bytes)).unwrap(),
            VarUInt(value)
        );
    }
    for value in [0u64, 127, 128, u64::MAX] {
        let mut bytes = Vec::new();
        VarULong(value).write(&mut bytes);
        assert_eq!(
            VarULong::read(&mut ByteReader::new(&bytes)).unwrap(),
            VarULong(value)
        );
    }
    for (value, first) in [(0i32, 0u8), (-1, 1), (1, 2), (-2, 3), (63, 126), (-64, 127)] {
        let mut bytes = Vec::new();
        VarInt(value).write(&mut bytes);
        assert_eq!(bytes, [first]);
        assert_eq!(
            VarInt::read(&mut ByteReader::new(&bytes)).unwrap(),
            VarInt(value)
        );
    }
    for value in [i32::MIN, i32::MAX] {
        let mut bytes = Vec::new();
        VarInt(value).write(&mut bytes);
        assert_eq!(
            VarInt::read(&mut ByteReader::new(&bytes)).unwrap(),
            VarInt(value)
        );
        let mut bytes = Vec::new();
        push_java_var_int(&mut bytes, value);
        assert_eq!(bytes.len(), 5);
        assert_eq!(
            read_java_var_int(&mut ByteReader::new(&bytes)).unwrap(),
            value
        );
    }
}

#[test]
fn texts_are_read_as_utf_8() {
    let mut bytes = Vec::new();
    push_text(&mut bytes, "hráč");
    assert_eq!(bytes, [6, b'h', b'r', 0xc3, 0xa1, 0xc4, 0x8d]);
    assert_eq!(String::read(&mut ByteReader::new(&bytes)).unwrap(), "hráč");
    assert_eq!(
        String::read(&mut ByteReader::new(&[2, 0xc3, 0x28])).unwrap_err(),
        ReadError::InvalidText
    );
    assert_eq!(
        String::read(&mut ByteReader::new(&[2, b'h'])).unwrap_err(),
        ReadError::UnexpectedEof
    );
}
