//! The vault operations over an in-memory secret store: the add/switch/
//! remove/migrate scenarios, the error taxonomy, and the index invariant
//! as observed through the public operations.

use account_vault::codec::decode_credentials;
use account_vault::keys::hash_key;
use account_vault::records::AccountInfo;
use account_vault::store::{get_keychain_item, set_keychain_item, SecretStore};
use account_vault::vault::{
    add_account, delete_credentials, get_accounts_list, get_active_account, get_credentials,
    list_accounts, migrate_legacy_credentials, remove_account, set_active_account,
};
use account_vault::VaultError;

fn names(accounts: &[AccountInfo]) -> Vec<String> {
    accounts.iter().map(|a| a.username.clone()).collect()
}

#[test]
fn first_account_auto_activates() {
    let mut store = SecretStore::new();

    add_account(&mut store, "alice", None, None, 1000).unwrap();
    add_account(&mut store, "bob", None, None, 2000).unwrap();

    let accounts = list_accounts(&store).unwrap();
    assert_eq!(names(&accounts), vec!["alice".to_string(), "bob".to_string()]);
    assert_eq!(get_active_account(&store).unwrap(), Some("alice".to_string()));
}

#[test]
fn switch_updates_only_the_switched_account() {
    let mut store = SecretStore::new();

    add_account(&mut store, "alice", None, None, 1000).unwrap();
    add_account(&mut store, "bob", None, None, 2000).unwrap();
    set_active_account(&mut store, "bob", 3000).unwrap();

    let index = get_accounts_list(&store).unwrap();
    assert_eq!(index.active_username, Some("bob".to_string()));
    assert_eq!(index.accounts[0].username, "alice");
    assert_eq!(index.accounts[0].last_used, 1000);
    assert_eq!(index.accounts[1].username, "bob");
    assert_eq!(index.accounts[1].last_used, 3000);
}

#[test]
fn removing_the_active_account_reassigns_to_first() {
    let mut store = SecretStore::new();

    add_account(&mut store, "alice", None, None, 1000).unwrap();
    add_account(&mut store, "bob", None, None, 2000).unwrap();
    set_active_account(&mut store, "bob", 3000).unwrap();
    remove_account(&mut store, "bob").unwrap();

    let index = get_accounts_list(&store).unwrap();
    assert_eq!(names(&index.accounts), vec!["alice".to_string()]);
    assert_eq!(index.active_username, Some("alice".to_string()));
}

#[test]
fn removing_the_last_account_leaves_nobody_active() {
    let mut store = SecretStore::new();

    add_account(&mut store, "alice", None, None, 1000).unwrap();
    remove_account(&mut store, "alice").unwrap();

    assert!(list_accounts(&store).unwrap().is_empty());
    assert_eq!(get_active_account(&store).unwrap(), None);
}

#[test]
fn removing_an_unknown_account_changes_nothing() {
    let mut store = SecretStore::new();

    add_account(&mut store, "alice", None, None, 1000).unwrap();

    let result = remove_account(&mut store, "carol");
    assert_eq!(result, Err(VaultError::NotFound));

    let accounts = list_accounts(&store).unwrap();
    assert_eq!(names(&accounts), vec!["alice".to_string()]);
    assert_eq!(get_active_account(&store).unwrap(), Some("alice".to_string()));
}

#[test]
fn switching_to_an_unknown_account_fails() {
    let mut store = SecretStore::new();

    add_account(&mut store, "alice", None, None, 1000).unwrap();

    assert_eq!(set_active_account(&mut store, "carol", 2000), Err(VaultError::NotFound));
    assert_eq!(get_active_account(&store).unwrap(), Some("alice".to_string()));
}

#[test]
fn adding_an_existing_account_keeps_its_surrogate_key() {
    let mut store = SecretStore::new();

    let id1 = add_account(&mut store, "alice", None, None, 1000).unwrap();
    let id2 = add_account(&mut store, "alice", Some("fresh".to_string()), None, 2000).unwrap();

    assert_eq!(id1, id2);

    let accounts = list_accounts(&store).unwrap();
    assert_eq!(accounts.len(), 1);
    assert_eq!(accounts[0].created_at, 1000);
    assert_eq!(accounts[0].last_used, 2000);
}

#[test]
fn surrogate_keys_are_distinct_and_36_characters() {
    let mut store = SecretStore::new();

    let id1 = add_account(&mut store, "alice", None, None, 1000).unwrap();
    let id2 = add_account(&mut store, "bob", None, None, 2000).unwrap();

    assert_eq!(id1.len(), 36);
    assert_eq!(id2.len(), 36);
    assert_ne!(id1, id2);
}

#[test]
fn credential_record_matches_the_index_entry() {
    let mut store = SecretStore::new();

    let id = add_account(
        &mut store,
        "alice",
        Some("tok-123".to_string()),
        Some("session-blob".to_string()),
        1000,
    )
    .unwrap();

    let json = get_credentials(&store, "alice").unwrap().unwrap();
    let creds = decode_credentials(&json).unwrap();

    assert_eq!(creds.username, "alice");
    assert_eq!(creds.uuid, id);
    assert_eq!(creds.token, Some("tok-123".to_string()));
    assert_eq!(creds.session_data, Some("session-blob".to_string()));
    assert_eq!(creds.created_at, 1000);
    assert_eq!(creds.last_used, 1000);
}

#[test]
fn switch_refreshes_the_credential_record() {
    let mut store = SecretStore::new();

    add_account(&mut store, "alice", Some("tok".to_string()), None, 1000).unwrap();
    add_account(&mut store, "bob", None, None, 1500).unwrap();
    set_active_account(&mut store, "alice", 4000).unwrap();

    let json = get_credentials(&store, "alice").unwrap().unwrap();
    let creds = decode_credentials(&json).unwrap();
    assert_eq!(creds.token, Some("tok".to_string()));
    assert_eq!(creds.last_used, 4000);
}

#[test]
fn deleting_credentials_leaves_none_behind() {
    let mut store = SecretStore::new();

    add_account(&mut store, "alice", Some("tok".to_string()), None, 1000).unwrap();
    delete_credentials(&mut store, "alice").unwrap();

    assert_eq!(get_credentials(&store, "alice").unwrap(), None);
}

#[test]
fn migration_imports_exactly_one_placeholder_account() {
    let mut store = SecretStore::new();

    // A leftover single-account record of the old format.
    let legacy_key = hash_key("credentials");
    set_keychain_item(&mut store, &legacy_key, "opaque-legacy-blob").unwrap();

    migrate_legacy_credentials(&mut store, 5000).unwrap();

    let accounts = list_accounts(&store).unwrap();
    assert_eq!(accounts.len(), 1);
    assert_eq!(accounts[0].username, "imported");
    assert_eq!(accounts[0].display_name, Some("Cuenta Migrada".to_string()));
    assert_eq!(accounts[0].created_at, 5000);
    assert_eq!(get_active_account(&store).unwrap(), Some("imported".to_string()));

    // Running it again is a no-op: the index is already non-empty.
    migrate_legacy_credentials(&mut store, 6000).unwrap();
    let accounts = list_accounts(&store).unwrap();
    assert_eq!(accounts.len(), 1);
    assert_eq!(accounts[0].created_at, 5000);
}

#[test]
fn migration_without_a_legacy_record_is_a_no_op() {
    let mut store = SecretStore::new();

    migrate_legacy_credentials(&mut store, 5000).unwrap();

    assert!(list_accounts(&store).unwrap().is_empty());
    assert_eq!(get_active_account(&store).unwrap(), None);
}

#[test]
fn migration_skips_stores_with_accounts() {
    let mut store = SecretStore::new();

    add_account(&mut store, "alice", None, None, 1000).unwrap();
    let legacy_key = hash_key("credentials");
    set_keychain_item(&mut store, &legacy_key, "opaque-legacy-blob").unwrap();

    migrate_legacy_credentials(&mut store, 5000).unwrap();

    let accounts = list_accounts(&store).unwrap();
    assert_eq!(names(&accounts), vec!["alice".to_string()]);
}

#[test]
fn unavailable_store_fails_every_operation() {
    let mut store = SecretStore::unavailable();

    assert!(matches!(list_accounts(&store), Err(VaultError::StoreUnavailable)));
    assert!(matches!(get_active_account(&store), Err(VaultError::StoreUnavailable)));
    assert_eq!(
        add_account(&mut store, "alice", None, None, 1000),
        Err(VaultError::StoreUnavailable)
    );
    assert_eq!(set_active_account(&mut store, "alice", 1000), Err(VaultError::StoreUnavailable));
    assert_eq!(remove_account(&mut store, "alice"), Err(VaultError::StoreUnavailable));
    assert_eq!(migrate_legacy_credentials(&mut store, 1000), Err(VaultError::StoreUnavailable));
    assert_eq!(delete_credentials(&mut store, "alice"), Err(VaultError::StoreUnavailable));
}

#[test]
fn a_corrupted_index_record_is_a_crypto_failure() {
    let mut store = SecretStore::new();

    let index_key = hash_key("accounts_list");
    set_keychain_item(&mut store, &index_key, "not an encrypted record").unwrap();

    assert!(matches!(list_accounts(&store), Err(VaultError::CryptoFailure)));
}

#[test]
fn an_index_record_with_foreign_content_is_a_serialization_error() {
    let mut store = SecretStore::new();

    let index_key = hash_key("accounts_list");
    let master = account_vault::keys::derive_master_key();
    let blob = account_vault::cipher::encrypt_data("not an index at all", &master).unwrap();
    set_keychain_item(&mut store, &index_key, &blob).unwrap();

    assert!(matches!(list_accounts(&store), Err(VaultError::SerializationError)));
}

#[test]
fn usernames_with_quotes_and_backslashes_survive_the_round_trip() {
    let mut store = SecretStore::new();

    let tricky = "a\"b\\c,d:e";
    add_account(&mut store, tricky, Some("to\"ken\\".to_string()), None, 1000).unwrap();

    let accounts = list_accounts(&store).unwrap();
    assert_eq!(accounts.len(), 1);
    assert_eq!(accounts[0].username, tricky);
    assert_eq!(get_active_account(&store).unwrap(), Some(tricky.to_string()));

    let json = get_credentials(&store, tricky).unwrap().unwrap();
    let creds = decode_credentials(&json).unwrap();
    assert_eq!(creds.username, tricky);
    assert_eq!(creds.token, Some("to\"ken\\".to_string()));
}

#[test]
fn raw_store_items_round_trip() {
    let mut store = SecretStore::new();

    assert_eq!(get_keychain_item(&store, "some-key"), None);
    set_keychain_item(&mut store, "some-key", "first").unwrap();
    set_keychain_item(&mut store, "some-key", "second").unwrap();
    assert_eq!(get_keychain_item(&store, "some-key"), Some("second".to_string()));

    let unavailable = SecretStore::unavailable();
    assert_eq!(get_keychain_item(&unavailable, "some-key"), None);
}
