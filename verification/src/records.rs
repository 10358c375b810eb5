//! The vault's data model: account metadata, the account index, and the
//! per-account credential record, together with the mathematical view of
//! each and the pure operations on the index.
//!
//! The index invariant: no two entries share a username, and the active
//! username, when present, names an existing entry.  Every operation of the
//! vault preserves it; the proofs stand beside the operations here.

use vstd::prelude::*;

verus! {

/// Public, non-sensitive metadata for one account.
pub struct AccountInfo {
    pub username: String,
    pub uuid: String,
    pub created_at: i64,
    pub last_used: i64,
    pub display_name: Option<String>,
    pub avatar_url: Option<String>,
}

/// The mathematical value of an `AccountInfo`.
pub ghost struct AccountInfoV {
    pub username: Seq<char>,
    pub uuid: Seq<char>,
    pub created_at: int,
    pub last_used: int,
    pub display_name: Option<Seq<char>>,
    pub avatar_url: Option<Seq<char>>,
}

/// The view of an optional text field.
pub open spec fn opt_text(o: Option<String>) -> Option<Seq<char>> {
    match o {
        Some(s) => Some(s@),
        None => None,
    }
}

impl View for AccountInfo {
    type V = AccountInfoV;

    open spec fn view(&self) -> AccountInfoV {
        AccountInfoV {
            username: self.username@,
            uuid: self.uuid@,
            created_at: self.created_at as int,
            last_used: self.last_used as int,
            display_name: opt_text(self.display_name),
            avatar_url: opt_text(self.avatar_url),
        }
    }
}

/// The views of a whole entry list.
pub open spec fn accounts_view(s: Seq<AccountInfo>) -> Seq<AccountInfoV> {
    s.map_values(|a: AccountInfo| a@)
}

/// The master list of accounts: the entries in display order plus the
/// active selection.
pub struct AccountsList {
    pub accounts: Vec<AccountInfo>,
    pub active_username: Option<String>,
}

/// The mathematical value of an `AccountsList`.
pub ghost struct IndexV {
    pub accounts: Seq<AccountInfoV>,
    pub active_username: Option<Seq<char>>,
}

impl View for AccountsList {
    type V = IndexV;

    open spec fn view(&self) -> IndexV {
        IndexV {
            accounts: accounts_view(self.accounts@),
            active_username: opt_text(self.active_username),
        }
    }
}

/// One account's sensitive credential record.
pub struct Credentials {
    pub username: String,
    pub uuid: String,
    pub token: Option<String>,
    pub session_data: Option<String>,
    pub created_at: i64,
    pub last_used: i64,
}

/// The mathematical value of a `Credentials`.
pub ghost struct CredentialsV {
    pub username: Seq<char>,
    pub uuid: Seq<char>,
    pub token: Option<Seq<char>>,
    pub session_data: Option<Seq<char>>,
    pub created_at: int,
    pub last_used: int,
}

impl View for Credentials {
    type V = CredentialsV;

    open spec fn view(&self) -> CredentialsV {
        CredentialsV {
            username: self.username@,
            uuid: self.uuid@,
            token: opt_text(self.token),
            session_data: opt_text(self.session_data),
            created_at: self.created_at as int,
            last_used: self.last_used as int,
        }
    }
}

/// The index as it exists before any account was added.
pub open spec fn empty_index() -> IndexV {
    IndexV { accounts: Seq::empty(), active_username: None }
}

/// Whether some entry carries this username.
pub open spec fn has_user(m: IndexV, u: Seq<char>) -> bool {
    exists|i: int| 0 <= i < m.accounts.len() && m.accounts[i].username == u
}

/// The position of the entry carrying this username.
pub open spec fn user_index(m: IndexV, u: Seq<char>) -> int {
    choose|i: int| 0 <= i < m.accounts.len() && m.accounts[i].username == u
}

/// The surrogate key of the entry carrying this username.
pub open spec fn uuid_of(m: IndexV, u: Seq<char>) -> Seq<char> {
    m.accounts[user_index(m, u)].uuid
}

impl IndexV {
    /// The index invariant: usernames are unique, and the active username,
    /// when present, resolves to an entry.
    pub open spec fn wf(self) -> bool {
        &&& forall|i: int, j: int|
            0 <= i < j < self.accounts.len() ==> self.accounts[i].username
                != self.accounts[j].username
        &&& match self.active_username {
            Some(u) => has_user(self, u),
            None => true,
        }
    }

    /// Every timestamp fits a 64-bit signed integer, as any index that a
    /// real `AccountsList` gave rise to does.
    pub open spec fn fits(self) -> bool {
        forall|i: int|
            0 <= i < self.accounts.len() ==> i64::MIN <= #[trigger] self.accounts[i].created_at
                <= i64::MAX && i64::MIN <= self.accounts[i].last_used <= i64::MAX
    }
}

impl CredentialsV {
    /// Every timestamp fits a 64-bit signed integer, as in any record a
    /// real `Credentials` gave rise to.
    pub open spec fn fits(self) -> bool {
        &&& i64::MIN <= self.created_at <= i64::MAX
        &&& i64::MIN <= self.last_used <= i64::MAX
    }
}

/// The entry list with the named account's `last_used` set to `now`.
pub open spec fn bump_last_used(accs: Seq<AccountInfoV>, u: Seq<char>, now: int) -> Seq<
    AccountInfoV,
> {
    accs.map_values(
        |a: AccountInfoV|
            if a.username == u {
                AccountInfoV { last_used: now, ..a }
            } else {
                a
            },
    )
}

/// A fresh entry as `add` creates it.
pub open spec fn new_entry(u: Seq<char>, id: Seq<char>, now: int) -> AccountInfoV {
    AccountInfoV {
        username: u,
        uuid: id,
        created_at: now,
        last_used: now,
        display_name: None,
        avatar_url: None,
    }
}

/// What `add` does to the index: an existing account has its `last_used`
/// refreshed; a new one is appended, and the very first account becomes
/// active.
pub open spec fn spec_add(m: IndexV, u: Seq<char>, id: Seq<char>, now: int) -> IndexV {
    if has_user(m, u) {
        IndexV { accounts: bump_last_used(m.accounts, u, now), active_username: m.active_username }
    } else {
        IndexV {
            accounts: m.accounts.push(new_entry(u, id, now)),
            active_username: if m.accounts.len() == 0 {
                Some(u)
            } else {
                m.active_username
            },
        }
    }
}

/// What `setActive` does to the index: the chosen account's `last_used` is
/// refreshed and it becomes the active one.  Other entries keep their
/// timestamps.
pub open spec fn spec_set_active(m: IndexV, u: Seq<char>, now: int) -> IndexV {
    IndexV { accounts: bump_last_used(m.accounts, u, now), active_username: Some(u) }
}

/// What `remove` does to the index: the entry goes away, and when it was
/// the active one the first remaining entry (in display order) takes over,
/// or nobody when none remain.
pub open spec fn spec_remove(m: IndexV, u: Seq<char>) -> IndexV {
    let accs = m.accounts.remove(user_index(m, u));
    IndexV {
        accounts: accs,
        active_username: if m.active_username == Some(u) {
            if accs.len() == 0 {
                None
            } else {
                Some(accs[0].username)
            }
        } else {
            m.active_username
        },
    }
}

/// The one-account index that the legacy migration synthesizes.
pub open spec fn migrated_index(id: Seq<char>, now: int) -> IndexV {
    IndexV {
        accounts: seq![
            AccountInfoV {
                username: "imported"@,
                uuid: id,
                created_at: now,
                last_used: now,
                display_name: Some("Cuenta Migrada"@),
                avatar_url: None,
            },
        ],
        active_username: Some("imported"@),
    }
}

/// Refreshing `last_used` keeps every username in place.
pub proof fn lemma_bump_keeps_usernames(accs: Seq<AccountInfoV>, u: Seq<char>, now: int)
    ensures
        bump_last_used(accs, u, now).len() == accs.len(),
        forall|i: int|
            0 <= i < accs.len() ==> #[trigger] bump_last_used(accs, u, now)[i].username
                == accs[i].username,
{
}

/// `add` preserves the index invariant.
pub proof fn lemma_add_preserves_wf(m: IndexV, u: Seq<char>, id: Seq<char>, now: int)
    requires
        m.wf(),
    ensures
        spec_add(m, u, id, now).wf(),
{
    let m2 = spec_add(m, u, id, now);
    if has_user(m, u) {
        lemma_bump_keeps_usernames(m.accounts, u, now);
        match m.active_username {
            Some(a) => {
                let i = user_index(m, a);
                assert(m2.accounts[i].username == a);
            },
            None => {},
        }
    } else {
        assert(m2.accounts[m.accounts.len() as int].username == u);
        if m.accounts.len() > 0 {
            match m.active_username {
                Some(a) => {
                    let i = user_index(m, a);
                    assert(m2.accounts[i].username == a);
                },
                None => {},
            }
        }
    }
}

/// `setActive` preserves the index invariant when the account exists.
pub proof fn lemma_set_active_preserves_wf(m: IndexV, u: Seq<char>, now: int)
    requires
        m.wf(),
        has_user(m, u),
    ensures
        spec_set_active(m, u, now).wf(),
{
    let m2 = spec_set_active(m, u, now);
    lemma_bump_keeps_usernames(m.accounts, u, now);
    let i = user_index(m, u);
    assert(m2.accounts[i].username == u);
}

/// `remove` preserves the index invariant when the account exists.
pub proof fn lemma_remove_preserves_wf(m: IndexV, u: Seq<char>)
    requires
        m.wf(),
        has_user(m, u),
    ensures
        spec_remove(m, u).wf(),
{
    let k = user_index(m, u);
    let m2 = spec_remove(m, u);
    assert(forall|i: int|
        0 <= i < m2.accounts.len() ==> #[trigger] m2.accounts[i] == if i < k {
            m.accounts[i]
        } else {
            m.accounts[i + 1]
        });
    match m.active_username {
        Some(a) => {
            if a == u {
                if m2.accounts.len() > 0 {
                    assert(has_user(m2, m2.accounts[0].username));
                }
            } else {
                let i = user_index(m, a);
                if i < k {
                    assert(m2.accounts[i].username == a);
                } else {
                    assert(i != k);
                    assert(m2.accounts[i - 1].username == a);
                }
                assert(has_user(m2, a));
            }
        },
        None => {},
    }
}

/// The migrated index satisfies the invariant.
pub proof fn lemma_migrated_wf(id: Seq<char>, now: int)
    ensures
        migrated_index(id, now).wf(),
{
    let m = migrated_index(id, now);
    assert(m.accounts[0].username == "imported"@);
    assert(has_user(m, "imported"@));
}

/// The empty index satisfies the invariant.
pub proof fn lemma_empty_wf()
    ensures
        empty_index().wf(),
{
}

} // verus!
