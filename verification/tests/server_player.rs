//! The player registry and offline identities.

use std::sync::{Arc, Mutex};

use rukkit::server::player::{offline_uuid, JoinError, PlayerInfo, PlayerRegistry};

fn info(name: &str) -> PlayerInfo {
    PlayerInfo {
        uuid: offline_uuid(name),
        name: name.to_owned(),
        addr: "127.0.0.1:1234".to_owned(),
    }
}

#[test]
fn offline_uuid_matches_javas_name_uuid_from_bytes() {
    // Cross-checked against Java's UUID.nameUUIDFromBytes on JDK 25, the
    // same values vanilla and Paper assign in offline mode.
    assert_eq!(
        offline_uuid("Notch").to_string(),
        "b50ad385-829d-3141-a216-7e7d7539ba7f"
    );
    assert_eq!(
        offline_uuid("jeb_").to_string(),
        "a762f560-4fce-3236-812a-b80efff0b62b"
    );
    assert_eq!(
        offline_uuid("anyone").to_string(),
        "7e17b10e-96f1-3ec0-997a-039cf5eb65a5"
    );
}

#[test]
fn offline_uuid_has_version_three_and_the_ietf_variant() {
    let uuid = offline_uuid("anyone");
    assert_eq!(uuid.get_version_num(), 3);
    let bytes = uuid.as_bytes();
    assert_eq!(bytes[8] & 0xC0, 0x80, "variant bits");
}

#[test]
fn offline_uuid_is_stable_and_name_specific() {
    assert_eq!(offline_uuid("player"), offline_uuid("player"));
    assert_ne!(offline_uuid("player"), offline_uuid("Player"));
}

#[test]
fn players_can_join_and_leave() {
    let mut registry = PlayerRegistry::new();
    assert!(registry.is_empty());

    registry.try_insert(info("alice"), 10).unwrap();
    assert_eq!(registry.count(), 1);
    assert!(registry.contains_name("alice"));

    let removed = registry.remove(offline_uuid("alice")).unwrap();
    assert_eq!(removed.name, "alice");
    assert!(registry.is_empty());
}

#[test]
fn a_full_server_refuses_new_players() {
    let mut registry = PlayerRegistry::new();
    registry.try_insert(info("alice"), 2).unwrap();
    registry.try_insert(info("bob"), 2).unwrap();
    assert_eq!(
        registry.try_insert(info("carol"), 2).unwrap_err(),
        JoinError::Full
    );
    assert_eq!(registry.count(), 2);
}

#[test]
fn duplicate_names_are_refused() {
    let mut registry = PlayerRegistry::new();
    registry.try_insert(info("alice"), 10).unwrap();
    assert_eq!(
        registry.try_insert(info("alice"), 10).unwrap_err(),
        JoinError::NameTaken
    );
    assert_eq!(registry.count(), 1);
}

#[test]
fn capacity_of_zero_admits_nobody() {
    let mut registry = PlayerRegistry::new();
    assert_eq!(
        registry.try_insert(info("alice"), 0).unwrap_err(),
        JoinError::Full
    );
}

#[test]
fn removing_someone_absent_is_harmless() {
    let mut registry = PlayerRegistry::new();
    assert!(registry.remove(offline_uuid("ghost")).is_none());
}

#[test]
fn sample_is_bounded_by_the_limit() {
    let mut registry = PlayerRegistry::new();
    for i in 0..10 {
        registry.try_insert(info(&format!("p{i}")), 20).unwrap();
    }
    assert_eq!(registry.sample_names(3).len(), 3);
    assert_eq!(registry.sample_names(100).len(), 10);
}

#[test]
fn concurrent_joins_cannot_exceed_capacity() {
    let registry = Arc::new(Mutex::new(PlayerRegistry::new()));
    let max = 8usize;
    let runtime = tokio::runtime::Builder::new_multi_thread().build().unwrap();
    let mut handles = Vec::new();

    for i in 0..64 {
        let registry = Arc::clone(&registry);
        handles.push(runtime.spawn(async move {
            let mut registry = registry.lock().unwrap();
            registry.try_insert(info(&format!("p{i}")), max).is_ok()
        }));
    }

    let admitted = handles
        .into_iter()
        .map(|handle| runtime.block_on(handle).unwrap())
        .filter(|ok| *ok)
        .count();

    assert_eq!(admitted, max);
    assert_eq!(registry.lock().unwrap().count(), max);
}
