//! The account vault: the operations over the encrypted account index and
//! the per-account credential records in the secret store.
//!
//! Every operation is a read-modify-write of the single index record; the
//! credential records live under their own derived keys.  An operation
//! first loads and checks the index, then prepares every fallible piece
//! (fresh key material, both encryptions), and only then writes, so a
//! failed operation leaves the store exactly as it was.  The one deliberate
//! exception is the best-effort refresh of a credential record's
//! `last_used` during a switch, which never fails the operation.

use vstd::prelude::*;
use vstd::utf8::{encode_utf8, is_ascii_chars_encode_utf8};
use crate::VaultError;
use crate::cipher::{decrypt_data, encrypt_data, stores_content};
use crate::codec::{
    creds_json,
    decode_credentials,
    decode_index,
    encode_credentials,
    encode_index,
    index_json,
};
use crate::keys::{
    account_key,
    derive_encryption_key,
    derive_master_key,
    hash_key,
    master_key,
    spec_hash_key,
    MAX_IDENTIFIER_BYTES,
};
use crate::primitives::fresh_uuid;
use crate::records::{
    accounts_view,
    empty_index,
    has_user,
    lemma_add_preserves_wf,
    lemma_empty_wf,
    lemma_migrated_wf,
    lemma_remove_preserves_wf,
    lemma_set_active_preserves_wf,
    migrated_index,
    opt_text,
    spec_add,
    spec_remove,
    spec_set_active,
    user_index,
    uuid_of,
    AccountInfo,
    AccountsList,
    Credentials,
    CredentialsV,
    IndexV,
};
use crate::store::SecretStore;
use crate::text::str_eq;

verus! {

/// The store key under which the account index is filed.
pub open spec fn index_key() -> Seq<char> {
    spec_hash_key("accounts_list"@)
}

/// The logical name of an account's credential record.
pub open spec fn cred_name(u: Seq<char>) -> Seq<char> {
    "credentials_"@ + u
}

/// The store key under which an account's credential record is filed.
pub open spec fn cred_key(u: Seq<char>) -> Seq<char> {
    spec_hash_key(cred_name(u))
}

/// The store key of the single-account record of the old format.
pub open spec fn legacy_key() -> Seq<char> {
    spec_hash_key("credentials"@)
}

/// The account's record name or the username itself outgrows the hashing
/// function's length cap, so no key material can be derived for it.
pub open spec fn oversized_name(u: Seq<char>) -> bool {
    encode_utf8(cred_name(u)).len() > MAX_IDENTIFIER_BYTES || encode_utf8(u).len()
        > MAX_IDENTIFIER_BYTES
}

/// The store holds `m` as its account index: the index record decrypts to
/// exactly the canonical text of `m`; an absent record is the empty index.
pub open spec fn holds_index(map: Map<Seq<char>, Seq<char>>, m: IndexV) -> bool {
    if map.contains_key(index_key()) {
        m.fits() && stores_content(map[index_key()], master_key(), index_json(m))
    } else {
        m == empty_index()
    }
}

/// The store holds `c` as the credential record of account `u`.
pub open spec fn holds_credentials(
    map: Map<Seq<char>, Seq<char>>,
    u: Seq<char>,
    c: CredentialsV,
) -> bool {
    map.contains_key(cred_key(u)) && stores_content(map[cred_key(u)], account_key(u), creds_json(c))
}

/// The store holds at most one account index: the stored record's content
/// is unique, and the canonical text determines the index.  Together with
/// the operations' contracts this pins the index across a chain of calls.
pub proof fn lemma_holds_index_unique(map: Map<Seq<char>, Seq<char>>, m1: IndexV, m2: IndexV)
    requires
        holds_index(map, m1),
        holds_index(map, m2),
    ensures
        m1 == m2,
{
    if map.contains_key(index_key()) {
        crate::cipher::lemma_stored_content_unique(
            map[index_key()],
            master_key(),
            index_json(m1),
            index_json(m2),
        );
        crate::codec::lemma_index_json_injective(m1, m2);
    }
}

/// Likewise, the store holds at most one credential record per account.
pub proof fn lemma_holds_credentials_unique(
    map: Map<Seq<char>, Seq<char>>,
    u: Seq<char>,
    c1: CredentialsV,
    c2: CredentialsV,
)
    requires
        holds_credentials(map, u, c1),
        holds_credentials(map, u, c2),
    ensures
        c1 == c2,
{
    crate::cipher::lemma_stored_content_unique(
        map[cred_key(u)],
        account_key(u),
        creds_json(c1),
        creds_json(c2),
    );
    crate::codec::lemma_creds_json_injective(c1, c2);
}

/// No well-formed index has this canonical text.
pub open spec fn unrepresentable_index_text(c: Seq<char>) -> bool {
    forall|m: IndexV| m.wf() && m.fits() ==> index_json(m) != c
}

/// How loading the account index fails: the store is unreachable, the
/// record does not decrypt, or its text is not a well-formed index.
pub open spec fn index_load_error(
    map: Map<Seq<char>, Seq<char>>,
    available: bool,
    e: VaultError,
) -> bool {
    match e {
        VaultError::StoreUnavailable => !available,
        VaultError::CryptoFailure => available && map.contains_key(index_key()) && !(exists|
            c: Seq<char>,
        |
            stores_content(map[index_key()], master_key(), c)),
        VaultError::SerializationError => available && map.contains_key(index_key()) && (exists|
            c: Seq<char>,
        |
            stores_content(map[index_key()], master_key(), c) && unrepresentable_index_text(c)),
        VaultError::NotFound => false,
    }
}

/// The index's logical store name is short ASCII text.
proof fn lemma_index_name_bytes()
    ensures
        encode_utf8("accounts_list"@).len() == 13,
{
    reveal_strlit("accounts_list");
    assert(vstd::utf8::is_ascii_chars("accounts_list"@)) by {
        assert("accounts_list"@.len() == 13);
    };
    is_ascii_chars_encode_utf8("accounts_list"@);
}

/// The legacy record's logical store name is short ASCII text.
proof fn lemma_legacy_name_bytes()
    ensures
        encode_utf8("credentials"@).len() == 11,
{
    reveal_strlit("credentials");
    assert(vstd::utf8::is_ascii_chars("credentials"@)) by {
        assert("credentials"@.len() == 11);
    };
    is_ascii_chars_encode_utf8("credentials"@);
}

/// The hashed store key of the account index.
fn index_store_key() -> (r: String)
    ensures
        r@ == index_key(),
{
    proof {
        lemma_index_name_bytes();
    }
    hash_key("accounts_list")
}

/// The hashed store key of the legacy record.
fn legacy_store_key() -> (r: String)
    ensures
        r@ == legacy_key(),
{
    proof {
        lemma_legacy_name_bytes();
    }
    hash_key("credentials")
}

/// The hashed store key of an account's credential record.  Fails exactly
/// when the logical name outgrows the hashing function's length cap.
fn cred_store_key(username: &str) -> (r: Result<String, VaultError>)
    ensures
        match r {
            Ok(k) => k@ == cred_key(username@) && encode_utf8(cred_name(username@)).len()
                <= MAX_IDENTIFIER_BYTES,
            Err(e) => e == VaultError::CryptoFailure && encode_utf8(cred_name(username@)).len()
                > MAX_IDENTIFIER_BYTES,
        },
{
    let mut name: String = "credentials_".to_owned();
    name.append(username);
    proof {
        assert(name@ == cred_name(username@));
    }
    let name_ref = name.as_str();
    let name_bytes = name_ref.as_bytes();
    if name_bytes.len() > MAX_IDENTIFIER_BYTES {
        return Err(VaultError::CryptoFailure);
    }
    let hashed = hash_key(name_ref);
    proof {
        assert(name_bytes@ == encode_utf8(name_ref@));
        assert(encode_utf8(name_ref@).len() <= MAX_IDENTIFIER_BYTES);
        assert(hashed@ == spec_hash_key(name_ref@));
        assert(name_ref@ == cred_name(username@));
    }
    Ok(hashed)
}

/// A copy of an optional text field.
fn clone_opt(o: &Option<String>) -> (r: Option<String>)
    ensures
        opt_text(r) == opt_text(*o),
{
    match o {
        Some(s) => Some(s.clone()),
        None => None,
    }
}

/// A copy of one account entry.
fn clone_account(a: &AccountInfo) -> (r: AccountInfo)
    ensures
        r@ == a@,
{
    AccountInfo {
        username: a.username.clone(),
        uuid: a.uuid.clone(),
        created_at: a.created_at,
        last_used: a.last_used,
        display_name: clone_opt(&a.display_name),
        avatar_url: clone_opt(&a.avatar_url),
    }
}

/// The position of the entry carrying `username`, if any.
fn find_account(list: &AccountsList, username: &str) -> (r: Option<usize>)
    ensures
        match r {
            Some(i) => i < list.accounts@.len() && list@.accounts[i as int].username == username@,
            None => !has_user(list@, username@),
        },
{
    let n = list.accounts.len();
    proof {
        assert(forall|x: int|
            0 <= x < n ==> list@.accounts[x] == #[trigger] list.accounts@[x]@);
    }
    let mut i: usize = 0;
    while i < n
        invariant
            n == list.accounts@.len(),
            i <= n,
            forall|x: int|
                0 <= x < n ==> list@.accounts[x] == #[trigger] list.accounts@[x]@,
            forall|x: int| 0 <= x < i ==> list@.accounts[x].username != username@,
        decreases n - i,
    {
        if str_eq(list.accounts[i].username.as_str(), username) {
            return Some(i);
        }
        i += 1;
    }
    None
}

/// With unique usernames, the entry found for a username is the entry the
/// specification speaks of.
proof fn lemma_user_index_pins(m: IndexV, u: Seq<char>, i: int)
    requires
        m.wf(),
        0 <= i < m.accounts.len(),
        m.accounts[i].username == u,
    ensures
        has_user(m, u),
        user_index(m, u) == i,
        uuid_of(m, u) == m.accounts[i].uuid,
{
    assert(has_user(m, u));
    let j = user_index(m, u);
    assert(0 <= j < m.accounts.len() && m.accounts[j].username == u);
    if j != i {
        assert(m.accounts[i].username != m.accounts[j].username);
    }
}

/// Loads the account index using an already-computed store key and master
/// key, so one operation hashes them only once.
fn load_index_with(store: &SecretStore, key: &str, mk: &[u8]) -> (r: Result<
    AccountsList,
    VaultError,
>)
    requires
        store.wf(),
        key@ == index_key(),
        mk@ == master_key(),
        mk@.len() == 32,
    ensures
        match r {
            Ok(l) => l@.wf() && holds_index(store@, l@),
            Err(e) => index_load_error(store@, store.is_available(), e),
        },
{
    let stored = match store.get(key) {
        Ok(o) => o,
        Err(e) => { return Err(e) },
    };
    match stored {
        None => {
            let empty = AccountsList { accounts: Vec::new(), active_username: None };
            proof {
                lemma_empty_wf();
                assert(accounts_view(empty.accounts@) =~= empty_index().accounts);
                assert(empty@ == empty_index());
            }
            Ok(empty)
        },
        Some(text) => {
            let json = match decrypt_data(text.as_str(), mk) {
                Ok(j) => j,
                Err(e) => { return Err(e) },
            };
            match decode_index(json.as_str()) {
                Ok(l) => {
                    proof {
                        assert(store@.contains_key(index_key()));
                        assert(stores_content(store@[index_key()], master_key(), index_json(l@)));
                        assert(l@.fits());
                        assert(holds_index(store@, l@));
                    }
                    Ok(l)
                },
                Err(e) => {
                    proof {
                        assert(stores_content(store@[index_key()], master_key(), json@)
                            && unrepresentable_index_text(json@));
                        assert(index_load_error(
                            store@,
                            store.is_available(),
                            VaultError::SerializationError,
                        ));
                    }
                    Err(e)
                },
            }
        },
    }
}

/// Loads the account index from the store; a store that never held one
/// yields the empty index.  Fails exactly when the store is unreachable,
/// the record does not decrypt, or its text is not a well-formed index.
pub fn get_accounts_list(store: &SecretStore) -> (r: Result<AccountsList, VaultError>)
    requires
        store.wf(),
    ensures
        match r {
            Ok(l) => l@.wf() && holds_index(store@, l@),
            Err(e) => index_load_error(store@, store.is_available(), e),
        },
{
    let key = index_store_key();
    let mk = derive_master_key();
    load_index_with(store, key.as_str(), mk.as_slice())
}

/// Encrypts and files the index using an already-computed store key and
/// master key.
fn save_index_with(
    store: &mut SecretStore,
    key: &str,
    mk: &[u8],
    list: &AccountsList,
) -> (r: Result<(), VaultError>)
    requires
        old(store).wf(),
        key@ == index_key(),
        mk@ == master_key(),
        mk@.len() == 32,
    ensures
        final(store).wf(),
        final(store).is_available() == old(store).is_available(),
        match r {
            Ok(()) => old(store).is_available() && (exists|v: Seq<char>|
                final(store)@ == old(store)@.insert(index_key(), v) && stores_content(
                    v,
                    master_key(),
                    index_json(list@),
                )),
            Err(e) => final(store)@ == old(store)@ && (e == VaultError::CryptoFailure || (e
                == VaultError::StoreUnavailable && !old(store).is_available())),
        },
{
    let json = encode_index(list);
    let blob = match encrypt_data(json.as_str(), mk) {
        Ok(b) => b,
        Err(e) => { return Err(e) },
    };
    match store.set(key, blob.as_str()) {
        Ok(()) => Ok(()),
        Err(e) => Err(e),
    }
}

/// Encrypts the index under the master key and files it.  Fails only when
/// the random source or the store fails, and then changes nothing.
pub fn save_accounts_list(store: &mut SecretStore, list: &AccountsList) -> (r: Result<
    (),
    VaultError,
>)
    requires
        old(store).wf(),
    ensures
        final(store).wf(),
        final(store).is_available() == old(store).is_available(),
        match r {
            Ok(()) => old(store).is_available() && (exists|v: Seq<char>|
                final(store)@ == old(store)@.insert(index_key(), v) && stores_content(
                    v,
                    master_key(),
                    index_json(list@),
                )),
            Err(e) => final(store)@ == old(store)@ && (e == VaultError::CryptoFailure || (e
                == VaultError::StoreUnavailable && !old(store).is_available())),
        },
{
    let key = index_store_key();
    let mk = derive_master_key();
    save_index_with(store, key.as_str(), mk.as_slice(), list)
}

/// Builds and encrypts the credential record of one account, with both
/// timestamps set to `now`, and returns the store key and blob to file it
/// under — so a caller can prepare the record before touching the store.
fn seal_credentials(
    username: &str,
    uuid: &str,
    token: Option<String>,
    session: Option<String>,
    now: i64,
) -> (r: Result<(String, String), VaultError>)
    ensures
        match r {
            Ok(kb) => kb.0@ == cred_key(username@) && stores_content(
                kb.1@,
                account_key(username@),
                creds_json(
                    CredentialsV {
                        username: username@,
                        uuid: uuid@,
                        token: opt_text(token),
                        session_data: opt_text(session),
                        created_at: now as int,
                        last_used: now as int,
                    },
                ),
            ),
            Err(e) => e == VaultError::CryptoFailure,
        },
{
    let key = match cred_store_key(username) {
        Ok(k) => k,
        Err(e) => { return Err(e) },
    };
    let ek = match derive_encryption_key(username) {
        Ok(k) => k,
        Err(e) => { return Err(e) },
    };
    let creds = Credentials {
        username: username.to_owned(),
        uuid: uuid.to_owned(),
        token,
        session_data: session,
        created_at: now,
        last_used: now,
    };
    let json = encode_credentials(&creds);
    let blob = match encrypt_data(json.as_str(), ek.as_slice()) {
        Ok(b) => b,
        Err(e) => { return Err(e) },
    };
    Ok((key, blob))
}

/// Lists the known accounts in display order.
pub fn list_accounts(store: &SecretStore) -> (r: Result<Vec<AccountInfo>, VaultError>)
    requires
        store.wf(),
    ensures
        match r {
            Ok(v) => exists|m: IndexV|
                m.wf() && #[trigger] holds_index(store@, m) && accounts_view(v@) == m.accounts,
            Err(e) => index_load_error(store@, store.is_available(), e),
        },
{
    let list = match get_accounts_list(store) {
        Ok(l) => l,
        Err(e) => { return Err(e) },
    };
    proof {
        assert(holds_index(store@, list@) && accounts_view(list.accounts@) == list@.accounts);
    }
    Ok(list.accounts)
}

/// Names the active account, if one is set.
pub fn get_active_account(store: &SecretStore) -> (r: Result<Option<String>, VaultError>)
    requires
        store.wf(),
    ensures
        match r {
            Ok(o) => exists|m: IndexV|
                m.wf() && #[trigger] holds_index(store@, m) && opt_text(o) == m.active_username,
            Err(e) => index_load_error(store@, store.is_available(), e),
        },
{
    let list = match get_accounts_list(store) {
        Ok(l) => l,
        Err(e) => { return Err(e) },
    };
    proof {
        assert(holds_index(store@, list@));
    }
    Ok(list.active_username)
}

/// The entry list with the named account's `last_used` set to `now`, as a
/// fresh vector.
fn bump_accounts(accs: &Vec<AccountInfo>, username: &str, now: i64) -> (r: Vec<AccountInfo>)
    ensures
        accounts_view(r@) == crate::records::bump_last_used(
            accounts_view(accs@),
            username@,
            now as int,
        ),
{
    let ghost target = crate::records::bump_last_used(accounts_view(accs@), username@, now as int);
    let n = accs.len();
    let mut out: Vec<AccountInfo> = Vec::new();
    let mut i: usize = 0;
    while i < n
        invariant
            n == accs@.len(),
            i <= n,
            target == crate::records::bump_last_used(accounts_view(accs@), username@, now as int),
            target.len() == n,
            out@.len() == i,
            forall|x: int| 0 <= x < i ==> accounts_view(out@)[x] == target[x],
        decreases n - i,
    {
        let mut a = clone_account(&accs[i]);
        if str_eq(a.username.as_str(), username) {
            a = AccountInfo { last_used: now, ..a };
        }
        let ghost av = a@;
        out.push(a);
        proof {
            assert(accounts_view(out@)[i as int] == av);
            assert(accounts_view(accs@)[i as int] == accs@[i as int]@);
            assert(av == target[i as int]);
        }
        i += 1;
    }
    proof {
        assert(accounts_view(out@) =~= target);
    }
    out
}

/// Makes the named account the active one, refreshing its `last_used`,
/// and persists the index; the matching refresh of the credential record
/// is best-effort and never fails the operation.  Fails with `NotFound`
/// exactly when no entry carries the username.
pub fn set_active_account(store: &mut SecretStore, username: &str, now: i64) -> (r: Result<
    (),
    VaultError,
>)
    requires
        old(store).wf(),
    ensures
        final(store).wf(),
        final(store).is_available() == old(store).is_available(),
        match r {
            Ok(()) => exists|m: IndexV|
                m.wf() && #[trigger] holds_index(old(store)@, m) && has_user(m, username@)
                    && spec_set_active(m, username@, now as int).wf() && (exists|vi: Seq<char>|
                    stores_content(
                        vi,
                        master_key(),
                        index_json(spec_set_active(m, username@, now as int)),
                    ) && (final(store)@ == old(store)@.insert(index_key(), vi) || (exists|
                        c: CredentialsV,
                        vc: Seq<char>,
                    |
                        holds_credentials(old(store)@.insert(index_key(), vi), username@, c)
                            && stores_content(
                            vc,
                            account_key(username@),
                            creds_json(CredentialsV { last_used: now as int, ..c }),
                        ) && final(store)@ == old(store)@.insert(index_key(), vi).insert(
                            cred_key(username@),
                            vc,
                        )))),
            Err(VaultError::NotFound) => final(store)@ == old(store)@ && (exists|m: IndexV|
                m.wf() && #[trigger] holds_index(old(store)@, m) && !has_user(m, username@)),
            Err(e) => final(store)@ == old(store)@ && (index_load_error(
                old(store)@,
                old(store).is_available(),
                e,
            ) || (e == VaultError::CryptoFailure && (exists|m: IndexV|
                m.wf() && #[trigger] holds_index(old(store)@, m) && has_user(m, username@)))),
        },
{
    let index_k = index_store_key();
    let mk = derive_master_key();
    let list = match load_index_with(store, index_k.as_str(), mk.as_slice()) {
        Ok(l) => l,
        Err(e) => { return Err(e) },
    };
    let found = match find_account(&list, username) {
        Some(i) => i,
        None => {
            proof {
                assert(holds_index(store@, list@));
            }
            return Err(VaultError::NotFound);
        },
    };
    let ghost m = list@;
    let ghost m2 = spec_set_active(m, username@, now as int);
    proof {
        lemma_user_index_pins(m, username@, found as int);
        lemma_set_active_preserves_wf(m, username@, now as int);
    }
    let new_list = AccountsList {
        accounts: bump_accounts(&list.accounts, username, now),
        active_username: Some(username.to_owned()),
    };
    proof {
        assert(new_list@ == m2);
    }
    match save_index_with(store, index_k.as_str(), mk.as_slice(), &new_list) {
        Ok(()) => {},
        Err(e) => { return Err(e) },
    }
    refresh_credentials(store, username, now);
    Ok(())
}

/// Best-effort refresh of the `last_used` field inside an account's
/// credential record: whatever goes wrong — no record, an undecryptable
/// or unparseable one, failing key material — the store is simply left
/// with the record it had.
fn refresh_credentials(store: &mut SecretStore, username: &str, now: i64)
    requires
        old(store).wf(),
        old(store).is_available(),
    ensures
        final(store).wf(),
        final(store).is_available() == old(store).is_available(),
        final(store)@ == old(store)@ || (exists|c: CredentialsV, vc: Seq<char>|
            holds_credentials(old(store)@, username@, c) && stores_content(
                vc,
                account_key(username@),
                creds_json(CredentialsV { last_used: now as int, ..c }),
            ) && final(store)@ == old(store)@.insert(cred_key(username@), vc)),
{
    let key = match cred_store_key(username) {
        Ok(k) => k,
        Err(_) => { return },
    };
    let stored = match store.get(key.as_str()) {
        Ok(Some(v)) => v,
        _ => { return },
    };
    let ek = match derive_encryption_key(username) {
        Ok(k) => k,
        Err(_) => { return },
    };
    let json = match decrypt_data(stored.as_str(), ek.as_slice()) {
        Ok(j) => j,
        Err(_) => { return },
    };
    let creds = match decode_credentials(json.as_str()) {
        Ok(c) => c,
        Err(_) => { return },
    };
    let ghost old_creds = creds@;
    proof {
        assert(holds_credentials(store@, username@, old_creds));
    }
    let updated = Credentials { last_used: now, ..creds };
    proof {
        assert(updated@ == CredentialsV { last_used: now as int, ..old_creds });
    }
    let json2 = encode_credentials(&updated);
    let blob = match encrypt_data(json2.as_str(), ek.as_slice()) {
        Ok(b) => b,
        Err(_) => { return },
    };
    match store.set(key.as_str(), blob.as_str()) {
        Ok(()) => {},
        Err(_) => {},
    }
}

/// Adds an account, or refreshes an existing one.  A known username keeps
/// its surrogate key and only has its `last_used` and credential record
/// refreshed; a new username is appended with a fresh random surrogate
/// key, and the very first account becomes active.  Returns the account's
/// surrogate key; a failed operation changes nothing.
pub fn add_account(
    store: &mut SecretStore,
    username: &str,
    token: Option<String>,
    session: Option<String>,
    now: i64,
) -> (r: Result<String, VaultError>)
    requires
        old(store).wf(),
    ensures
        final(store).wf(),
        final(store).is_available() == old(store).is_available(),
        match r {
            Ok(id) => exists|m: IndexV|
                m.wf() && #[trigger] holds_index(old(store)@, m) && (has_user(m, username@)
                    ==> id@ == uuid_of(m, username@)) && (!has_user(m, username@) ==> id@.len()
                    == 36) && spec_add(m, username@, id@, now as int).wf() && (exists|
                    vi: Seq<char>,
                    vc: Seq<char>,
                |
                    stores_content(
                        vi,
                        master_key(),
                        index_json(spec_add(m, username@, id@, now as int)),
                    ) && stores_content(
                        vc,
                        account_key(username@),
                        creds_json(
                            CredentialsV {
                                username: username@,
                                uuid: id@,
                                token: opt_text(token),
                                session_data: opt_text(session),
                                created_at: now as int,
                                last_used: now as int,
                            },
                        ),
                    ) && final(store)@ == old(store)@.insert(index_key(), vi).insert(
                        cred_key(username@),
                        vc,
                    )),
            Err(e) => final(store)@ == old(store)@ && (index_load_error(
                old(store)@,
                old(store).is_available(),
                e,
            ) || e == VaultError::CryptoFailure),
        },
{
    let index_k = index_store_key();
    let mk = derive_master_key();
    let list = match load_index_with(store, index_k.as_str(), mk.as_slice()) {
        Ok(l) => l,
        Err(e) => { return Err(e) },
    };
    let ghost m = list@;
    let uuid: String;
    let new_list: AccountsList;
    match find_account(&list, username) {
        Some(i) => {
            uuid = list.accounts[i].uuid.clone();
            proof {
                lemma_user_index_pins(m, username@, i as int);
            }
            new_list = AccountsList {
                accounts: bump_accounts(&list.accounts, username, now),
                active_username: clone_opt(&list.active_username),
            };
            proof {
                assert(new_list@ == spec_add(m, username@, uuid@, now as int));
            }
        },
        None => {
            uuid = fresh_uuid();
            let entry = AccountInfo {
                username: username.to_owned(),
                uuid: uuid.clone(),
                created_at: now,
                last_used: now,
                display_name: None,
                avatar_url: None,
            };
            let mut accounts: Vec<AccountInfo> = Vec::new();
            let n = list.accounts.len();
            proof {
                assert(accounts_view(accounts@) =~= accounts_view(list.accounts@).take(0));
            }
            let mut t: usize = 0;
            while t < n
                invariant
                    n == list.accounts@.len(),
                    t <= n,
                    accounts@.len() == t,
                    accounts_view(accounts@) == accounts_view(list.accounts@).take(t as int),
                decreases n - t,
            {
                let a = clone_account(&list.accounts[t]);
                let ghost av = a@;
                accounts.push(a);
                proof {
                    assert(accounts_view(accounts@)[t as int] == av);
                    assert(accounts_view(list.accounts@)[t as int] == list.accounts@[t as int]@);
                    assert(accounts_view(accounts@) =~= accounts_view(list.accounts@).take(
                        t + 1,
                    ));
                }
                t += 1;
            }
            proof {
                assert(accounts_view(accounts@) =~= accounts_view(list.accounts@));
            }
            let was_empty = accounts.len() == 0;
            let ghost before_entry = accounts@;
            let ghost ev = entry@;
            accounts.push(entry);
            proof {
                assert(accounts_view(accounts@)[n as int] == ev);
                assert(forall|x: int|
                    0 <= x < n ==> accounts_view(accounts@)[x] == #[trigger] accounts_view(
                        before_entry,
                    )[x]);
            }
            let active: Option<String> = if was_empty {
                Some(username.to_owned())
            } else {
                clone_opt(&list.active_username)
            };
            new_list = AccountsList { accounts, active_username: active };
            proof {
                assert(accounts_view(new_list.accounts@) =~= m.accounts.push(ev));
                assert(new_list@ == spec_add(m, username@, uuid@, now as int));
            }
        },
    }
    proof {
        lemma_add_preserves_wf(m, username@, uuid@, now as int);
    }
    // Prepare the credential record before any store write, so that a
    // failure here leaves the store untouched.
    let (cred_k, cred_blob) = match seal_credentials(username, uuid.as_str(), token, session, now)
        {
        Ok(kb) => kb,
        Err(e) => { return Err(e) },
    };
    match save_index_with(store, index_k.as_str(), mk.as_slice(), &new_list) {
        Ok(()) => {},
        Err(e) => { return Err(e) },
    }
    match store.set(cred_k.as_str(), cred_blob.as_str()) {
        Ok(()) => {},
        Err(_) => {
            // The index was just written, so the store is reachable and a
            // write cannot fail.
            proof {
                assert(false);
            }
        },
    }
    Ok(uuid)
}

/// Removes an account; when it was the active one, the first remaining
/// entry takes over.  The account's credential record is deleted with it.
/// Fails with `NotFound` exactly when no entry carries the username; a
/// failed operation changes nothing.
pub fn remove_account(store: &mut SecretStore, username: &str) -> (r: Result<(), VaultError>)
    requires
        old(store).wf(),
    ensures
        final(store).wf(),
        final(store).is_available() == old(store).is_available(),
        match r {
            Ok(()) => exists|m: IndexV|
                m.wf() && #[trigger] holds_index(old(store)@, m) && has_user(m, username@)
                    && spec_remove(m, username@).wf() && (exists|vi: Seq<char>|
                    stores_content(vi, master_key(), index_json(spec_remove(m, username@)))
                        && final(store)@ == old(store)@.insert(index_key(), vi).remove(
                        cred_key(username@),
                    )),
            Err(VaultError::NotFound) => final(store)@ == old(store)@ && (exists|m: IndexV|
                m.wf() && #[trigger] holds_index(old(store)@, m) && !has_user(m, username@)),
            Err(e) => final(store)@ == old(store)@ && (index_load_error(
                old(store)@,
                old(store).is_available(),
                e,
            ) || (e == VaultError::CryptoFailure && (exists|m: IndexV|
                m.wf() && #[trigger] holds_index(old(store)@, m) && has_user(m, username@)))),
        },
{
    let index_k = index_store_key();
    let mk = derive_master_key();
    let list = match load_index_with(store, index_k.as_str(), mk.as_slice()) {
        Ok(l) => l,
        Err(e) => { return Err(e) },
    };
    let found = match find_account(&list, username) {
        Some(i) => i,
        None => {
            proof {
                assert(holds_index(store@, list@));
            }
            return Err(VaultError::NotFound);
        },
    };
    let ghost m = list@;
    proof {
        lemma_user_index_pins(m, username@, found as int);
        lemma_remove_preserves_wf(m, username@);
    }
    let n = list.accounts.len();
    let mut remaining: Vec<AccountInfo> = Vec::new();
    let mut t: usize = 0;
    while t < n
        invariant
            n == list.accounts@.len(),
            found < n,
            t <= n,
            t <= found ==> accounts_view(remaining@) == accounts_view(list.accounts@).take(
                t as int,
            ),
            t > found ==> accounts_view(remaining@) == accounts_view(list.accounts@).remove(
                found as int,
            ).take(t - 1),
        decreases n - t,
    {
        if t != found {
            let a = clone_account(&list.accounts[t]);
            remaining.push(a);
        }
        t += 1;
    }
    proof {
        assert(accounts_view(remaining@) =~= m.accounts.remove(found as int));
    }
    let new_active: Option<String> = match &list.active_username {
        Some(a) => {
            if str_eq(a.as_str(), username) {
                if remaining.len() == 0 {
                    None
                } else {
                    Some(remaining[0].username.clone())
                }
            } else {
                Some(a.clone())
            }
        },
        None => None,
    };
    let new_list = AccountsList { accounts: remaining, active_username: new_active };
    proof {
        assert(new_list@ == spec_remove(m, username@));
    }
    let cred_k = match cred_store_key(username) {
        Ok(k) => k,
        Err(e) => { return Err(e) },
    };
    match save_index_with(store, index_k.as_str(), mk.as_slice(), &new_list) {
        Ok(()) => {},
        Err(e) => { return Err(e) },
    }
    match store.delete(cred_k.as_str()) {
        Ok(()) => {},
        Err(_) => {
            // The index was just written, so the store is reachable and a
            // delete cannot fail.
            proof {
                assert(false);
            }
        },
    }
    Ok(())
}

/// One-shot migration from the old single-account format: with a
/// non-empty index it does nothing (already migrated); with an empty index
/// and no legacy record it does nothing; with an empty index and a legacy
/// record it creates exactly one active account named "imported" with a
/// fresh surrogate key and a placeholder display name.  The legacy payload
/// itself is left in place: its key derivation is incompatible with the
/// per-username scheme, so it is not guessed at.
pub fn migrate_legacy_credentials(store: &mut SecretStore, now: i64) -> (r: Result<
    (),
    VaultError,
>)
    requires
        old(store).wf(),
    ensures
        final(store).wf(),
        final(store).is_available() == old(store).is_available(),
        match r {
            Ok(()) => exists|m: IndexV|
                m.wf() && #[trigger] holds_index(old(store)@, m) && ((m.accounts.len() > 0 && final(store)@ == old(store)@) || (m.accounts.len() == 0 && !old(store)@.contains_key(
                    legacy_key(),
                ) && final(store)@ == old(store)@) || (m.accounts.len() == 0 && old(store)@.contains_key(legacy_key()) && (exists|id: Seq<char>, vi: Seq<char>|
                    id.len() == 36 && stores_content(
                        vi,
                        master_key(),
                        index_json(migrated_index(id, now as int)),
                    ) && final(store)@ == old(store)@.insert(index_key(), vi)))),
            Err(e) => final(store)@ == old(store)@ && (index_load_error(
                old(store)@,
                old(store).is_available(),
                e,
            ) || (e == VaultError::CryptoFailure && old(store)@.contains_key(legacy_key()) && (
            exists|m: IndexV|
                m.wf() && #[trigger] holds_index(old(store)@, m) && m.accounts.len() == 0))),
        },
{
    let index_k = index_store_key();
    let mk = derive_master_key();
    let list = match load_index_with(store, index_k.as_str(), mk.as_slice()) {
        Ok(l) => l,
        Err(e) => { return Err(e) },
    };
    let ghost m = list@;
    if list.accounts.len() > 0 {
        proof {
            assert(holds_index(store@, m) && m.accounts.len() > 0);
        }
        return Ok(());
    }
    let legacy_k = legacy_store_key();
    let probe = match store.get(legacy_k.as_str()) {
        Ok(o) => o,
        Err(e) => { return Err(e) },
    };
    if probe.is_none() {
        proof {
            assert(holds_index(store@, m) && m.accounts.len() == 0);
        }
        return Ok(());
    }
    let uuid = fresh_uuid();
    let entry = AccountInfo {
        username: "imported".to_owned(),
        uuid: uuid.clone(),
        created_at: now,
        last_used: now,
        display_name: Some("Cuenta Migrada".to_owned()),
        avatar_url: None,
    };
    let mut accounts: Vec<AccountInfo> = Vec::new();
    let ghost ev = entry@;
    accounts.push(entry);
    let new_list = AccountsList {
        accounts,
        active_username: Some("imported".to_owned()),
    };
    proof {
        lemma_migrated_wf(uuid@, now as int);
        assert(accounts_view(new_list.accounts@) =~= migrated_index(uuid@, now as int).accounts);
        assert(new_list@ == migrated_index(uuid@, now as int));
    }
    match save_index_with(store, index_k.as_str(), mk.as_slice(), &new_list) {
        Ok(()) => {},
        Err(e) => { return Err(e) },
    }
    Ok(())
}

/// Reads and decrypts an account's credential record, returning its text;
/// an account without a record is a normal `None`.  Every outcome is a
/// function of the store and the username: success is owed whenever the
/// store is reachable, the name is within the derivation cap, and the
/// record — if present — decrypts.
pub fn get_credentials(store: &SecretStore, username: &str) -> (r: Result<
    Option<String>,
    VaultError,
>)
    requires
        store.wf(),
    ensures
        match r {
            Ok(Some(s)) => store.is_available() && !oversized_name(username@)
                && store@.contains_key(cred_key(username@)) && stores_content(
                store@[cred_key(username@)],
                account_key(username@),
                s@,
            ),
            Ok(None) => store.is_available() && !oversized_name(username@)
                && !store@.contains_key(cred_key(username@)),
            Err(e) => match e {
                VaultError::StoreUnavailable => !store.is_available() && !oversized_name(
                    username@,
                ),
                VaultError::CryptoFailure => oversized_name(username@) || (store.is_available()
                    && store@.contains_key(cred_key(username@)) && !(exists|c: Seq<char>|
                    stores_content(
                        store@[cred_key(username@)],
                        account_key(username@),
                        c,
                    ))),
                VaultError::NotFound => false,
                VaultError::SerializationError => false,
            },
        },
{
    let key = match cred_store_key(username) {
        Ok(k) => k,
        Err(e) => { return Err(e) },
    };
    let ek = match derive_encryption_key(username) {
        Ok(k) => k,
        Err(e) => { return Err(e) },
    };
    let stored = match store.get(key.as_str()) {
        Ok(o) => o,
        Err(e) => { return Err(e) },
    };
    match stored {
        None => Ok(None),
        Some(blob) => {
            match decrypt_data(blob.as_str(), ek.as_slice()) {
                Ok(s) => Ok(Some(s)),
                Err(e) => Err(e),
            }
        },
    }
}

/// Deletes an account's credential record; deleting an absent record is a
/// quiet success.  Success is owed whenever the store is reachable and the
/// record name is within the derivation cap.
pub fn delete_credentials(store: &mut SecretStore, username: &str) -> (r: Result<(), VaultError>)
    requires
        old(store).wf(),
    ensures
        final(store).wf(),
        final(store).is_available() == old(store).is_available(),
        match r {
            Ok(()) => old(store).is_available() && encode_utf8(cred_name(username@)).len()
                <= MAX_IDENTIFIER_BYTES && final(store)@ == old(store)@.remove(
                cred_key(username@),
            ),
            Err(e) => final(store)@ == old(store)@ && ((e == VaultError::StoreUnavailable && !old(
                store,
            ).is_available() && encode_utf8(cred_name(username@)).len() <= MAX_IDENTIFIER_BYTES)
                || (e == VaultError::CryptoFailure && encode_utf8(cred_name(username@)).len()
                > MAX_IDENTIFIER_BYTES)),
        },
{
    let key = match cred_store_key(username) {
        Ok(k) => k,
        Err(e) => { return Err(e) },
    };
    store.delete(key.as_str())
}

} // verus!
