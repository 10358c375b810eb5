//! The canonical record text: serialization round trips and rejection of
//! anything that is not canonical.

use account_vault::codec::{decode_credentials, decode_index, encode_credentials, encode_index};
use account_vault::menu_ids::account_menu_id;
use account_vault::records::{AccountInfo, AccountsList, Credentials};

#[test]
fn test_account_info_serialization() {
    let account = AccountInfo {
        username: "testuser".to_string(),
        uuid: "9f3b8c1e-0000-4abc-8def-123456789abc".to_string(),
        created_at: 1234567890,
        last_used: 1234567890,
        display_name: Some("Test User".to_string()),
        avatar_url: None,
    };

    let list = AccountsList { accounts: vec![account], active_username: None };
    let json = encode_index(&list);
    let deserialized = decode_index(&json).unwrap();

    assert_eq!(list.accounts[0].username, deserialized.accounts[0].username);
    assert_eq!(list.accounts[0].uuid, deserialized.accounts[0].uuid);
    assert_eq!(list.accounts[0].display_name, deserialized.accounts[0].display_name);
    assert_eq!(list.accounts[0].avatar_url, deserialized.accounts[0].avatar_url);
}

#[test]
fn index_text_has_the_documented_shape() {
    let list = AccountsList {
        accounts: vec![AccountInfo {
            username: "alice".to_string(),
            uuid: "u-1".to_string(),
            created_at: 5,
            last_used: -7,
            display_name: None,
            avatar_url: None,
        }],
        active_username: Some("alice".to_string()),
    };

    let json = encode_index(&list);
    assert_eq!(
        json,
        "{\"accounts\":[{\"username\":\"alice\",\"uuid\":\"u-1\",\"created_at\":5,\
         \"last_used\":-7,\"display_name\":null,\"avatar_url\":null}],\
         \"active_username\":\"alice\"}"
    );
}

#[test]
fn empty_index_round_trips() {
    let list = AccountsList { accounts: Vec::new(), active_username: None };
    let json = encode_index(&list);
    assert_eq!(json, "{\"accounts\":[],\"active_username\":null}");

    let back = decode_index(&json).unwrap();
    assert!(back.accounts.is_empty());
    assert_eq!(back.active_username, None);
}

#[test]
fn index_with_escaped_content_round_trips() {
    let list = AccountsList {
        accounts: vec![
            AccountInfo {
                username: "a\"b\\c".to_string(),
                uuid: "u-1".to_string(),
                created_at: 1,
                last_used: 2,
                display_name: Some("d\"n".to_string()),
                avatar_url: Some("http://example/x".to_string()),
            },
            AccountInfo {
                username: "plain".to_string(),
                uuid: "u-2".to_string(),
                created_at: -3,
                last_used: 4,
                display_name: None,
                avatar_url: None,
            },
        ],
        active_username: Some("plain".to_string()),
    };

    let back = decode_index(&encode_index(&list)).unwrap();
    assert_eq!(back.accounts.len(), 2);
    assert_eq!(back.accounts[0].username, "a\"b\\c");
    assert_eq!(back.accounts[0].display_name, Some("d\"n".to_string()));
    assert_eq!(back.accounts[1].created_at, -3);
    assert_eq!(back.active_username, Some("plain".to_string()));
}

#[test]
fn duplicate_usernames_are_rejected_on_decode() {
    let entry = |uuid: &str| AccountInfo {
        username: "alice".to_string(),
        uuid: uuid.to_string(),
        created_at: 1,
        last_used: 1,
        display_name: None,
        avatar_url: None,
    };
    let list = AccountsList {
        accounts: vec![entry("u-1"), entry("u-2")],
        active_username: None,
    };

    assert!(decode_index(&encode_index(&list)).is_err());
}

#[test]
fn dangling_active_username_is_rejected_on_decode() {
    let list = AccountsList {
        accounts: Vec::new(),
        active_username: Some("ghost".to_string()),
    };

    assert!(decode_index(&encode_index(&list)).is_err());
}

#[test]
fn non_canonical_index_text_is_rejected() {
    assert!(decode_index("").is_err());
    assert!(decode_index("{}").is_err());
    assert!(decode_index("{\"accounts\":[],\"active_username\":null} ").is_err());
    assert!(decode_index("{\"accounts\":[] ,\"active_username\":null}").is_err());
    assert!(decode_index("{\"accounts\":[],\"active_username\":null").is_err());
}

#[test]
fn credentials_round_trip() {
    let creds = Credentials {
        username: "alice".to_string(),
        uuid: "u-1".to_string(),
        token: Some("tok\"en".to_string()),
        session_data: None,
        created_at: -1234567890123,
        last_used: 9223372036854775807,
    };

    let json = encode_credentials(&creds);
    let back = decode_credentials(&json).unwrap();

    assert_eq!(back.username, creds.username);
    assert_eq!(back.uuid, creds.uuid);
    assert_eq!(back.token, creds.token);
    assert_eq!(back.session_data, creds.session_data);
    assert_eq!(back.created_at, creds.created_at);
    assert_eq!(back.last_used, creds.last_used);
}

#[test]
fn non_canonical_credentials_text_is_rejected() {
    assert!(decode_credentials("").is_err());
    assert!(decode_credentials("{\"username\":\"a\"}").is_err());
}

#[test]
fn account_menu_ids_carry_the_username() {
    assert_eq!(account_menu_id("alice"), "accounts_account_alice");
    assert_eq!(account_menu_id(""), "accounts_account_");
}
