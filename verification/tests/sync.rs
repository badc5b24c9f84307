use stoolap::sync_adapter::{table_id_for_name, MissionId, NodeId, SyncConfig};

fn mission_id() -> MissionId {
    let mut m = [0u8; 32];
    m[0] = 0xAB;
    m
}

fn node_id() -> NodeId {
    let mut n = [0u8; 32];
    n[0] = 0xCD;
    n
}

#[test]
fn table_id_for_name_is_deterministic() {
    let id1 = table_id_for_name("users");
    let id2 = table_id_for_name("users");
    assert_eq!(id1, id2);
}

#[test]
fn table_id_for_name_is_case_insensitive() {
    let id1 = table_id_for_name("Users");
    let id2 = table_id_for_name("users");
    assert_eq!(id1, id2);
}

#[test]
fn different_names_have_different_ids() {
    let id1 = table_id_for_name("users");
    let id2 = table_id_for_name("orders");
    assert_ne!(id1, id2);
}

#[test]
fn sync_config_construction() {
    let cfg = SyncConfig::new(mission_id(), node_id());
    assert_eq!(cfg.mission_id, mission_id());
    assert_eq!(cfg.node_id, node_id());
    assert!(cfg.public_key.is_none());
}

#[test]
fn sync_config_with_public_key() {
    let key = [0xAB; 32];
    let cfg = SyncConfig::new(mission_id(), node_id()).with_public_key(key);
    assert_eq!(cfg.public_key, Some(key));
}

#[test]
fn table_id_is_first_four_digest_bytes_of_lowercase_name() {
    let digest = blake3::hash(b"users");
    let b = digest.as_bytes();
    let expected = u32::from_le_bytes([b[0], b[1], b[2], b[3]]);
    assert_eq!(table_id_for_name("USERS"), expected);
}

#[test]
fn table_id_lowercases_beyond_ascii() {
    assert_eq!(table_id_for_name("ÄRGER"), table_id_for_name("ärger"));
    let digest = blake3::hash("ärger".as_bytes());
    let b = digest.as_bytes();
    assert_eq!(table_id_for_name("Ärger"), u32::from_le_bytes([b[0], b[1], b[2], b[3]]));
}
