use bevy_spicy_networking::ConnectionId;

fn fresh_id() -> ConnectionId {
    ConnectionId::from_random(bevy::utils::Uuid::new_v4().as_u128())
}

#[test]
fn server_id_is_server() {
    let id = ConnectionId::server();
    assert!(id.is_server());
    assert_eq!(id.as_u128(), 0);
}

#[test]
fn client_ids_are_fresh_version_four_uuids() {
    let a = fresh_id();
    let b = fresh_id();
    assert!(!a.is_server());
    assert!(!b.is_server());
    assert_ne!(a, b);
    assert_eq!((a.as_u128() >> 76) & 0xf, 4);
    assert_eq!((a.as_u128() >> 62) & 0x3, 2);
}

#[test]
fn text_of_server_id() {
    assert_eq!(
        ConnectionId::server().to_string(),
        "Connection with ID=00000000-0000-0000-0000-000000000000"
    );
}

#[test]
fn text_of_client_id_is_hyphenated_lower_hex() {
    let id = fresh_id();
    let text = id.to_string();
    let expected = format!("{:032x}", id.as_u128());
    let uuid = text.strip_prefix("Connection with ID=").unwrap();
    assert_eq!(uuid.len(), 36);
    assert_eq!(uuid.replace('-', ""), expected);
    for p in [8, 13, 18, 23] {
        assert_eq!(uuid.as_bytes()[p], b'-');
    }
}

#[test]
fn from_random_sets_version_and_variant_and_keeps_other_bits() {
    let zero = ConnectionId::from_random(0);
    assert_eq!(zero.as_u128(), (4u128 << 76) | (2u128 << 62));
    assert!(!zero.is_server());
    let ones = ConnectionId::from_random(u128::MAX);
    assert_eq!(ones.as_u128(), u128::MAX & !(0xbu128 << 76) & !(0x1u128 << 62));
    assert_eq!(
        ConnectionId::from_random(0x1234_5678_9abc_def0_1234_5678_9abc_def0).to_string(),
        "Connection with ID=12345678-9abc-4ef0-9234-56789abcdef0"
    );
}
