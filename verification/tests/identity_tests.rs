use aira_core::identity::{
    bool_to_byte, byte_to_bool, get_database_path, Identity, LoadError, Message,
};
use aira_core::key_value_table::{KeyValueTable, StoreError};
use aira_core::store::Store;
use ed25519_dalek::{Signature, Verifier, VerifyingKey};

fn fresh_identity(store: &mut Store, password: Option<&[u8]>) -> Identity {
    Identity::create_identidy(store, "alice", password).unwrap()
}

#[test]
fn boolean_encoding() {
    assert_eq!(bool_to_byte(true), 0x4b);
    assert_eq!(bool_to_byte(false), 0x1e);
    assert_eq!(byte_to_bool(0x4b), Ok(true));
    assert_eq!(byte_to_bool(0x1e), Ok(false));
    assert_eq!(byte_to_bool(0x00), Err(()));
    assert_eq!(byte_to_bool(0x4c), Err(()));
    assert_eq!(byte_to_bool(0x01), Err(()));
}

#[test]
fn database_path_is_joined() {
    assert_eq!(get_database_path("/data/alice"), "/data/alice/AIRA.db");
}

#[test]
fn key_value_table_semantics() {
    let mut table = KeyValueTable::new();
    assert_eq!(table.get("k"), Err(StoreError::NotFound));
    assert_eq!(table.set("k", b"v1"), Ok(1));
    assert_eq!(table.set("k", b"v2"), Err(StoreError::KeyExists));
    assert_eq!(table.get("k").unwrap(), b"v1".to_vec());
    assert_eq!(table.update("k", b"v2"), Ok(1));
    assert_eq!(table.get("k").unwrap(), b"v2".to_vec());
    assert_eq!(table.update("missing", b"x"), Ok(0));
    assert_eq!(table.upsert("k", b"v3"), Ok(1));
    assert_eq!(table.upsert("fresh", b"f"), Ok(1));
    assert_eq!(table.get("fresh").unwrap(), b"f".to_vec());
    assert_eq!(table.get("k").unwrap(), b"v3".to_vec());
    assert_eq!(table.del("k"), Ok(1));
    assert_eq!(table.del("k"), Ok(0));
    assert_eq!(table.get("k"), Err(StoreError::NotFound));
}

#[test]
fn create_unprotected_identity() {
    // Scenario: a fresh identity without a password in an empty folder.
    let mut store = Store::new();
    let identity = fresh_identity(&mut store, None);
    assert_eq!(identity.name, "alice");
    assert!(identity.use_padding);
    assert_eq!(Identity::is_protected(&store), Ok(false));
    assert_eq!(Identity::get_identity_name(&store).unwrap(), "alice");
    let loaded = Identity::load_identity(&store, None).unwrap();
    assert_eq!(loaded.get_public_key(), identity.get_public_key());
    assert_eq!(loaded.get_public_key().len(), 32);
    assert_eq!(loaded.name, "alice");
    assert!(loaded.use_padding);
}

#[test]
fn create_refuses_second_identity() {
    let mut store = Store::new();
    fresh_identity(&mut store, None);
    assert!(Identity::create_identidy(&mut store, "mallory", None).is_err());
}

#[test]
fn create_protected_is_flagged_and_needs_a_password() {
    // Scenario: a password-protected identity cannot be opened without one.
    let mut store = Store::new();
    fresh_identity(&mut store, Some(b"hunter2"));
    assert_eq!(Identity::is_protected(&store), Ok(true));
    let no_password = match Identity::load_identity(&store, None) {
        Err(e) => e,
        Ok(_) => panic!("loading without a password must fail"),
    };
    assert_eq!(no_password, LoadError::Corrupted);
    assert_eq!(no_password.message(), "Database corrupted");
}

#[test]
fn create_protected_rejects_wrong_password() {
    let mut store = Store::new();
    fresh_identity(&mut store, Some(b"hunter2"));
    let wrong = match Identity::load_identity(&store, Some(b"wrong")) {
        Err(e) => e,
        Ok(_) => panic!("loading with a wrong password must fail"),
    };
    assert_eq!(wrong, LoadError::BadPassword);
    assert_eq!(wrong.message(), "Bad password");
}

#[test]
fn create_protected_loads_with_password() {
    let mut store = Store::new();
    let identity = fresh_identity(&mut store, Some(b"hunter2"));
    let loaded = Identity::load_identity(&store, Some(b"hunter2")).unwrap();
    assert_eq!(loaded.get_public_key(), identity.get_public_key());
    assert_eq!(loaded.master_key, identity.master_key);
}

#[test]
fn contacts_round_trip_and_verified_flag() {
    // Scenario: one contact, stored encrypted, read back, then marked
    // verified.
    let mut store = Store::new();
    let identity = fresh_identity(&mut store, None);
    let contact = identity
        .add_contact(&mut store, "bob".to_string(), None, &[0x02u8; 32])
        .unwrap();
    assert_eq!(contact.name, "bob");
    assert!(!contact.verified);
    assert!(contact.seen);

    let contacts = identity.load_contacts(&store).unwrap();
    assert_eq!(contacts.len(), 1);
    assert_eq!(contacts[0].name, "bob");
    assert_eq!(contacts[0].public_key, vec![0x02u8; 32]);
    assert_eq!(contacts[0].uuid, contact.uuid);
    assert!(!contacts[0].verified);
    assert!(contacts[0].seen);

    assert_eq!(identity.set_verified(&mut store, &contact.uuid), Ok(1));
    let contacts = identity.load_contacts(&store).unwrap();
    assert!(contacts[0].verified);
}

#[test]
fn contact_name_and_seen_updates() {
    let mut store = Store::new();
    let identity = fresh_identity(&mut store, None);
    let contact = identity
        .add_contact(&mut store, "bob".to_string(), None, &[0x02u8; 32])
        .unwrap();
    assert_eq!(
        identity.change_contact_name(&mut store, &contact.uuid, "robert"),
        Ok(1)
    );
    assert_eq!(
        identity.set_contact_seen(&mut store, &contact.uuid, false),
        Ok(1)
    );
    let contacts = identity.load_contacts(&store).unwrap();
    assert_eq!(contacts[0].name, "robert");
    assert!(!contacts[0].seen);
}

#[test]
fn contact_updates_without_table_fail() {
    let mut store = Store::new();
    let identity = fresh_identity(&mut store, None);
    assert_eq!(
        identity.set_verified(&mut store, &[0u8; 16]),
        Err(StoreError::NotFound)
    );
    assert!(identity.load_contacts(&store).is_none());
}

#[test]
fn message_window() {
    // Scenario: three messages; the window counts back from the newest.
    let mut store = Store::new();
    let identity = fresh_identity(&mut store, None);
    let contact_uuid = [9u8; 16];
    for (outgoing, timestamp, data) in
        [(true, 100u64, b"a".to_vec()), (false, 200, b"b".to_vec()), (true, 300, b"c".to_vec())]
    {
        let message = Message { outgoing, timestamp, data };
        assert_eq!(identity.store_msg(&mut store, &contact_uuid, message), Ok(1));
    }

    let window = identity.load_msgs(&store, &contact_uuid, 0, 2).unwrap();
    assert_eq!(window.len(), 2);
    assert_eq!(
        (window[0].outgoing, window[0].timestamp, window[0].data.clone()),
        (false, 200, b"b".to_vec())
    );
    assert_eq!(
        (window[1].outgoing, window[1].timestamp, window[1].data.clone()),
        (true, 300, b"c".to_vec())
    );

    let oldest = identity.load_msgs(&store, &contact_uuid, 2, 1).unwrap();
    assert_eq!(oldest.len(), 1);
    assert_eq!(
        (oldest[0].outgoing, oldest[0].timestamp, oldest[0].data.clone()),
        (true, 100, b"a".to_vec())
    );

    // A count that overruns is clamped; an offset that overruns fails.
    let all = identity.load_msgs(&store, &contact_uuid, 0, 10).unwrap();
    assert_eq!(all.len(), 3);
    assert_eq!(all[0].data, b"a".to_vec());
    assert!(identity.load_msgs(&store, &contact_uuid, 3, 1).is_none());
    assert!(identity.load_msgs(&store, &[1u8; 16], 0, 1).is_none());
}

#[test]
fn delete_conversation_drops_log_and_files() {
    let mut store = Store::new();
    let identity = fresh_identity(&mut store, None);
    let contact_uuid = [9u8; 16];
    let other_uuid = [8u8; 16];
    let message = Message { outgoing: true, timestamp: 1, data: b"hi".to_vec() };
    identity.store_msg(&mut store, &contact_uuid, message.clone()).unwrap();
    identity.store_msg(&mut store, &other_uuid, message).unwrap();
    identity
        .store_file(&mut store, Some(contact_uuid.to_vec()), b"owned")
        .unwrap();
    let kept_file = identity
        .store_file(&mut store, Some(other_uuid.to_vec()), b"kept")
        .unwrap();

    assert_eq!(identity.delete_conversation(&mut store, &contact_uuid), Ok(0));
    assert!(identity.load_msgs(&store, &contact_uuid, 0, 1).is_none());
    assert_eq!(identity.load_msgs(&store, &other_uuid, 0, 1).unwrap().len(), 1);
    assert_eq!(identity.load_file(&store, &kept_file).unwrap(), b"kept".to_vec());
}

#[test]
fn remove_contact_removes_everything() {
    let mut store = Store::new();
    let identity = fresh_identity(&mut store, None);
    let contact = identity
        .add_contact(&mut store, "bob".to_string(), None, &[0x02u8; 32])
        .unwrap();
    let message = Message { outgoing: false, timestamp: 7, data: b"yo".to_vec() };
    identity.store_msg(&mut store, &contact.uuid, message).unwrap();
    let file_uuid = identity
        .store_file(&mut store, Some(contact.uuid.clone()), b"blob")
        .unwrap();

    assert_eq!(identity.remove_contact(&mut store, &contact.uuid), Ok(1));
    assert_eq!(identity.load_contacts(&store).unwrap().len(), 0);
    assert!(identity.load_msgs(&store, &contact.uuid, 0, 1).is_none());
    assert!(identity.load_file(&store, &file_uuid).is_none());
}

#[test]
fn files_round_trip() {
    let mut store = Store::new();
    let identity = fresh_identity(&mut store, None);
    let uuid_a = identity.store_file(&mut store, None, b"first").unwrap();
    let uuid_b = identity.store_file(&mut store, None, b"second").unwrap();
    assert_eq!(uuid_a.len(), 16);
    assert_ne!(uuid_a, uuid_b);
    // File uuids are random version-4 uuids.
    assert_eq!(uuid_a[6] >> 4, 4);
    assert_eq!(uuid_a[8] >> 6, 2);
    assert_eq!(identity.load_file(&store, &uuid_a).unwrap(), b"first".to_vec());
    assert_eq!(identity.load_file(&store, &uuid_b).unwrap(), b"second".to_vec());
    assert!(identity.load_file(&store, &[0u8; 16]).is_none());
}

#[test]
fn avatars_round_trip() {
    let mut store = Store::new();
    let identity = fresh_identity(&mut store, None);
    assert!(identity.get_avatar(&store, &[0u8; 16]).is_none());
    let uuid = identity.store_avatar(&mut store, b"picture").unwrap();
    assert_eq!(identity.get_avatar(&store, &uuid).unwrap(), b"picture".to_vec());
    assert!(identity.get_avatar(&store, &[0u8; 16]).is_none());
}

#[test]
fn contact_avatar_pointer() {
    let mut store = Store::new();
    let identity = fresh_identity(&mut store, None);
    let avatar_uuid = identity.store_avatar(&mut store, b"face").unwrap();
    let contact = identity
        .add_contact(&mut store, "bob".to_string(), None, &[0x02u8; 32])
        .unwrap();
    assert_eq!(
        identity.set_contact_avatar(&mut store, &contact.uuid, Some(&avatar_uuid)),
        Ok(1)
    );
    let contacts = identity.load_contacts(&store).unwrap();
    assert_eq!(contacts[0].avatar.as_ref().unwrap(), &avatar_uuid);

    // Clearing the pointer also deletes the avatar row it pointed at.
    assert_eq!(
        identity.set_contact_avatar(&mut store, &contact.uuid, None),
        Ok(1)
    );
    let contacts = identity.load_contacts(&store).unwrap();
    assert!(contacts[0].avatar.is_none());
    assert!(identity.get_avatar(&store, &avatar_uuid).is_none());
}

#[test]
fn clear_cache_collects_orphans() {
    let mut store = Store::new();
    let identity = fresh_identity(&mut store, None);
    identity
        .add_contact(&mut store, "bob".to_string(), None, &[0x02u8; 32])
        .unwrap();
    let transient = identity.store_file(&mut store, None, b"tmp").unwrap();
    let owned = identity
        .store_file(&mut store, Some([9u8; 16].to_vec()), b"kept")
        .unwrap();
    let orphan_avatar = identity.store_avatar(&mut store, b"face").unwrap();

    assert_eq!(identity.clear_cache(&mut store), Ok(()));
    assert!(identity.load_file(&store, &transient).is_none());
    assert_eq!(identity.load_file(&store, &owned).unwrap(), b"kept".to_vec());
    assert!(identity.get_avatar(&store, &orphan_avatar).is_none());
}

#[test]
fn clear_cache_without_contacts_drops_tables() {
    let mut store = Store::new();
    let identity = fresh_identity(&mut store, None);
    identity.store_file(&mut store, None, b"tmp").unwrap();
    identity.store_avatar(&mut store, b"face").unwrap();
    assert_eq!(identity.clear_cache(&mut store), Ok(()));
    assert!(store.files.is_none());
    assert!(store.avatars.is_none());
}

#[test]
fn rename_and_padding_flag() {
    let mut store = Store::new();
    let mut identity = fresh_identity(&mut store, None);
    assert_eq!(identity.change_name(&mut store, "carol".to_string()), Ok(1));
    assert_eq!(identity.name, "carol");
    assert_eq!(Identity::get_identity_name(&store).unwrap(), "carol");

    assert_eq!(identity.set_use_padding(&mut store, false), Ok(1));
    assert!(!identity.use_padding);
    let loaded = Identity::load_identity(&store, None).unwrap();
    assert_eq!(loaded.name, "carol");
    assert!(!loaded.use_padding);
}

#[test]
fn identity_avatar_rows() {
    let mut store = Store::new();
    fresh_identity(&mut store, None);
    assert_eq!(
        Identity::get_identity_avatar(&store),
        Err(StoreError::NotFound)
    );
    assert_eq!(Identity::set_identity_avatar(&mut store, b"me"), Ok(1));
    assert_eq!(Identity::get_identity_avatar(&store).unwrap(), b"me".to_vec());
    assert_eq!(Identity::set_identity_avatar(&mut store, b"me2"), Ok(1));
    assert_eq!(Identity::get_identity_avatar(&store).unwrap(), b"me2".to_vec());
    assert_eq!(Identity::remove_identity_avatar(&mut store), Ok(1));
    assert_eq!(Identity::remove_identity_avatar(&mut store), Ok(0));
    assert_eq!(
        Identity::get_identity_avatar(&store),
        Err(StoreError::NotFound)
    );
}

#[test]
fn signatures_verify_under_the_public_key() {
    let mut store = Store::new();
    let identity = fresh_identity(&mut store, None);
    let signature = identity.sign(b"hello world").unwrap();
    assert_eq!(signature.len(), 64);
    let key_bytes: [u8; 32] = identity.get_public_key().try_into().unwrap();
    let verifying_key = VerifyingKey::from_bytes(&key_bytes).unwrap();
    let signature = Signature::from_slice(&signature).unwrap();
    assert!(verifying_key.verify(b"hello world", &signature).is_ok());
    assert!(verifying_key.verify(b"hello worle", &signature).is_err());
}

#[test]
fn zeroize_wipes_secrets() {
    let mut store = Store::new();
    let mut identity = fresh_identity(&mut store, None);
    assert!(identity.master_key.iter().any(|&b| b != 0));
    identity.zeroize();
    assert_eq!(identity.master_key, vec![0u8; 32]);
    assert_eq!(identity.secret_key, vec![0u8; 32]);
    assert_eq!(identity.public_key.len(), 32);
}

#[test]
fn change_password_keeps_rows() {
    // Scenario: re-keying the vault must leave every stored row readable.
    let mut store = Store::new();
    let identity = fresh_identity(&mut store, None);
    let contact = identity
        .add_contact(&mut store, "bob".to_string(), None, &[0x02u8; 32])
        .unwrap();
    let message = Message { outgoing: true, timestamp: 55, data: b"msg".to_vec() };
    identity.store_msg(&mut store, &contact.uuid, message).unwrap();

    assert_eq!(
        Identity::change_password(&mut store, None, Some(b"correct horse")),
        Ok(true)
    );
    let reloaded = Identity::load_identity(&store, Some(b"correct horse")).unwrap();
    assert_eq!(reloaded.master_key, identity.master_key);
    let contacts = reloaded.load_contacts(&store).unwrap();
    assert_eq!(contacts[0].name, "bob");
    assert_eq!(contacts[0].public_key, vec![0x02u8; 32]);
    let msgs = reloaded.load_msgs(&store, &contact.uuid, 0, 1).unwrap();
    assert_eq!(msgs[0].data, b"msg".to_vec());
    assert_eq!(msgs[0].timestamp, 55);
}

#[test]
fn change_password_to_none() {
    let mut store = Store::new();
    let identity = fresh_identity(&mut store, Some(b"hunter2"));
    let contact = identity
        .add_contact(&mut store, "bob".to_string(), None, &[0x02u8; 32])
        .unwrap();
    assert_eq!(
        Identity::change_password(&mut store, Some(b"hunter2"), None),
        Ok(true)
    );
    assert_eq!(Identity::is_protected(&store), Ok(false));
    let reloaded = Identity::load_identity(&store, None).unwrap();
    assert_eq!(reloaded.master_key, identity.master_key);
    let contacts = reloaded.load_contacts(&store).unwrap();
    assert_eq!(contacts[0].name, "bob");
    assert_eq!(contacts[0].uuid, contact.uuid);
}

#[test]
fn change_password_from_none() {
    let mut store = Store::new();
    let identity = fresh_identity(&mut store, None);
    assert_eq!(
        Identity::change_password(&mut store, None, Some(b"fresh")),
        Ok(true)
    );
    assert_eq!(Identity::is_protected(&store), Ok(true));
    let reloaded = Identity::load_identity(&store, Some(b"fresh")).unwrap();
    assert_eq!(reloaded.master_key, identity.master_key);
}

#[test]
fn change_password_rejects_wrong_old() {
    let mut store = Store::new();
    fresh_identity(&mut store, Some(b"hunter2"));
    assert_eq!(
        Identity::change_password(&mut store, Some(b"wrong"), Some(b"new")),
        Ok(false)
    );
    // The vault is untouched: the stored master key is still wrapped.
    assert_eq!(Identity::is_protected(&store), Ok(true));
}

#[test]
fn change_password_on_empty_store() {
    let mut store = Store::new();
    assert_eq!(
        Identity::change_password(&mut store, None, Some(b"pw")),
        Err(LoadError::Storage)
    );
}

#[test]
fn load_identity_on_empty_store() {
    let store = Store::new();
    let err = match Identity::load_identity(&store, None) {
        Err(e) => e,
        Ok(_) => panic!("loading from an empty store must fail"),
    };
    assert_eq!(err, LoadError::Storage);
    assert_eq!(err.message(), "Storage error");
}

#[test]
fn identity_name_must_be_text() {
    let mut store = Store::new();
    fresh_identity(&mut store, None);
    // Overwrite the stored name with bytes that spell no UTF-8.
    assert_eq!(store.main.update("name", &[0xff, 0xfe, 0xfd]), Ok(1));
    let err = match Identity::get_identity_name(&store) {
        Err(e) => e,
        Ok(_) => panic!("a name that is not text must be rejected"),
    };
    assert_eq!(err, LoadError::Corrupted);
}
