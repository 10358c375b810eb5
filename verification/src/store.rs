//! The secret store the vault persists into.
//!
//! The platform keyring is modelled as a flat collection of text entries,
//! unique by key, viewed as a map from key to value.  A store can also be
//! unavailable — the state of a platform without a keyring — and then every
//! operation fails hard, as the vault requires; nothing ever degrades to
//! unencrypted storage.  Keys are always derived hashes of logical names
//! (see `keys::hash_key`), never raw usernames.

use vstd::prelude::*;
use crate::VaultError;
use crate::text::str_eq;

verus! {

/// The map a list of entries spells, later entries winning.
spec fn kv_map(s: Seq<(String, String)>) -> Map<Seq<char>, Seq<char>>
    decreases s.len(),
{
    if s.len() == 0 {
        Map::empty()
    } else {
        kv_map(s.drop_last()).insert(s.last().0@, s.last().1@)
    }
}

/// No two entries share a key.
spec fn keys_unique(s: Seq<(String, String)>) -> bool {
    forall|i: int, j: int| 0 <= i < j < s.len() ==> s[i].0@ != s[j].0@
}

/// A key occurs in the map exactly when an entry carries it, and then the
/// map holds that entry's value.
proof fn lemma_kv_map_get(s: Seq<(String, String)>, k: Seq<char>)
    requires
        keys_unique(s),
    ensures
        kv_map(s).contains_key(k) <==> exists|i: int| 0 <= i < s.len() && s[i].0@ == k,
        forall|i: int|
            0 <= i < s.len() && s[i].0@ == k ==> kv_map(s).contains_key(k) && kv_map(s)[k]
                == s[i].1@,
    decreases s.len(),
{
    if s.len() > 0 {
        lemma_kv_map_get(s.drop_last(), k);
        if s.last().0@ == k {
            assert(forall|i: int| 0 <= i < s.len() - 1 ==> s[i].0@ != k);
        } else {
            assert(forall|i: int|
                0 <= i < s.len() && s[i].0@ == k ==> 0 <= i < s.len() - 1 && s.drop_last()[i].0@
                    == k);
        }
    }
}

/// Appending an entry inserts its binding.
proof fn lemma_kv_map_push(s: Seq<(String, String)>, e: (String, String))
    ensures
        kv_map(s.push(e)) == kv_map(s).insert(e.0@, e.1@),
{
    assert(s.push(e).drop_last() =~= s);
    assert(s.push(e).last() == e);
}

/// Removing the entry that carries a key removes its binding.
proof fn lemma_kv_map_remove(s: Seq<(String, String)>, i: int)
    requires
        keys_unique(s),
        0 <= i < s.len(),
    ensures
        kv_map(s.remove(i)) =~= kv_map(s).remove(s[i].0@),
    decreases s.len(),
{
    let k = s[i].0@;
    if i == s.len() - 1 {
        assert(s.remove(i) =~= s.drop_last());
        lemma_kv_map_get(s.drop_last(), k);
        assert(!kv_map(s.drop_last()).contains_key(k));
        assert(kv_map(s.drop_last()).insert(k, s.last().1@).remove(k) =~= kv_map(s.drop_last()));
    } else {
        assert(s.remove(i).drop_last() =~= s.drop_last().remove(i));
        assert(s.remove(i).last() == s.last());
        lemma_kv_map_remove(s.drop_last(), i);
        assert(s.drop_last()[i] == s[i]);
        assert(s.last().0@ != k);
        assert(kv_map(s.drop_last()).remove(k).insert(s.last().0@, s.last().1@) =~= kv_map(
            s.drop_last(),
        ).insert(s.last().0@, s.last().1@).remove(k));
    }
}

/// The in-memory model of the platform secret store.
pub struct SecretStore {
    available: bool,
    entries: Vec<(String, String)>,
}

impl View for SecretStore {
    type V = Map<Seq<char>, Seq<char>>;

    closed spec fn view(&self) -> Map<Seq<char>, Seq<char>> {
        kv_map(self.entries@)
    }
}

impl SecretStore {
    /// The store's internal invariant: no two entries share a key.
    /// Constructors establish it and every method preserves it.
    pub closed spec fn wf(self) -> bool {
        keys_unique(self.entries@)
    }

    /// Whether the platform store can be reached at all.
    pub closed spec fn is_available(&self) -> bool {
        self.available
    }

    /// An empty, reachable store.
    pub fn new() -> (r: Self)
        ensures
            r@ == Map::<Seq<char>, Seq<char>>::empty(),
            r.is_available(),
            r.wf(),
    {
        SecretStore { available: true, entries: Vec::new() }
    }

    /// The store of a platform without a keyring: every operation fails.
    pub fn unavailable() -> (r: Self)
        ensures
            r@ == Map::<Seq<char>, Seq<char>>::empty(),
            !r.is_available(),
            r.wf(),
    {
        SecretStore { available: false, entries: Vec::new() }
    }

    /// The position of the entry carrying `key`, if any.
    fn find(&self, key: &str) -> (r: Option<usize>)
        requires
            self.wf(),
        ensures
            match r {
                Some(i) => i < self.entries@.len() && self.entries@[i as int].0@ == key@,
                None => !self@.contains_key(key@),
            },
    {
        proof {
            lemma_kv_map_get(self.entries@, key@);
        }
        let n = self.entries.len();
        let mut i: usize = 0;
        while i < n
            invariant
                n == self.entries@.len(),
                i <= n,
                forall|j: int| 0 <= j < i ==> self.entries@[j].0@ != key@,
            decreases n - i,
        {
            if str_eq(self.entries[i].0.as_str(), key) {
                return Some(i);
            }
            i += 1;
        }
        None
    }

    /// Reads the value filed under a key.  Fails exactly when the store is
    /// unavailable; an absent key is a normal `None`.
    pub fn get(&self, key: &str) -> (r: Result<Option<String>, VaultError>)
        requires
            self.wf(),
        ensures
            match r {
                Ok(Some(v)) => self.is_available() && self@.contains_key(key@) && v@
                    == self@[key@],
                Ok(None) => self.is_available() && !self@.contains_key(key@),
                Err(e) => e == VaultError::StoreUnavailable && !self.is_available(),
            },
    {
        if !self.available {
            return Err(VaultError::StoreUnavailable);
        }
        proof {
            lemma_kv_map_get(self.entries@, key@);
        }
        match self.find(key) {
            Some(i) => Ok(Some(self.entries[i].1.clone())),
            None => Ok(None),
        }
    }

    /// Files a value under a key, overwriting any earlier value (the
    /// delete-then-set upsert the platform store asks for).  Fails exactly
    /// when the store is unavailable, and then changes nothing.
    pub fn set(&mut self, key: &str, value: &str) -> (r: Result<(), VaultError>)
        requires
            old(self).wf(),
        ensures
            final(self).wf(),
            final(self).is_available() == old(self).is_available(),
            match r {
                Ok(()) => old(self).is_available() && final(self)@ == old(self)@.insert(
                    key@,
                    value@,
                ),
                Err(e) => e == VaultError::StoreUnavailable && !old(self).is_available()
                    && final(self)@ == old(self)@,
            },
    {
        if !self.available {
            return Err(VaultError::StoreUnavailable);
        }
        let ghost before = self.entries@;
        match self.find(key) {
            Some(i) => {
                self.entries.remove(i);
                proof {
                    lemma_kv_map_remove(before, i as int);
                    assert(forall|a: int, b: int|
                        0 <= a < b < self.entries@.len() ==> self.entries@[a].0@
                            != self.entries@[b].0@);
                    lemma_kv_map_get(self.entries@, key@);
                    assert(!kv_map(self.entries@).contains_key(key@));
                }
            },
            None => {
                proof {
                    lemma_kv_map_get(self.entries@, key@);
                    assert(forall|j: int| 0 <= j < self.entries@.len() ==> self.entries@[j].0@ != key@);
                }
            },
        }
        let ghost mid = self.entries@;
        proof {
            lemma_kv_map_get(mid, key@);
        }
        let new_entry = (key.to_owned(), value.to_owned());
        let ghost ev = new_entry;
        self.entries.push(new_entry);
        proof {
            lemma_kv_map_push(mid, ev);
            assert(self@ =~= old(self)@.insert(key@, value@));
        }
        Ok(())
    }

    /// Deletes whatever is filed under a key; deleting an absent key is a
    /// quiet success.  Fails exactly when the store is unavailable, and
    /// then changes nothing.
    pub fn delete(&mut self, key: &str) -> (r: Result<(), VaultError>)
        requires
            old(self).wf(),
        ensures
            final(self).wf(),
            final(self).is_available() == old(self).is_available(),
            match r {
                Ok(()) => old(self).is_available() && final(self)@ == old(self)@.remove(key@),
                Err(e) => e == VaultError::StoreUnavailable && !old(self).is_available()
                    && final(self)@ == old(self)@,
            },
    {
        if !self.available {
            return Err(VaultError::StoreUnavailable);
        }
        let ghost before = self.entries@;
        match self.find(key) {
            Some(i) => {
                self.entries.remove(i);
                proof {
                    lemma_kv_map_remove(before, i as int);
                    assert(forall|a: int, b: int|
                        0 <= a < b < self.entries@.len() ==> self.entries@[a].0@
                            != self.entries@[b].0@);
                }
            },
            None => {
                proof {
                    assert(self@ =~= old(self)@.remove(key@));
                }
            },
        }
        Ok(())
    }
}

/// Reads a raw store item, folding "store unavailable" and "absent" into
/// one `None`, the shape menu code and probes expect.
pub fn get_keychain_item(store: &SecretStore, key: &str) -> (r: Option<String>)
    requires
        store.wf(),
    ensures
        match r {
            Some(v) => store.is_available() && store@.contains_key(key@) && v@ == store@[key@],
            None => !store.is_available() || !store@.contains_key(key@),
        },
{
    match store.get(key) {
        Ok(o) => o,
        Err(_) => None,
    }
}

/// Writes a raw store item as an upsert.  Fails exactly when the store is
/// unavailable.
pub fn set_keychain_item(store: &mut SecretStore, key: &str, value: &str) -> (r: Result<
    (),
    VaultError,
>)
    requires
        old(store).wf(),
    ensures
        final(store).wf(),
        final(store).is_available() == old(store).is_available(),
        match r {
            Ok(()) => old(store).is_available() && final(store)@ == old(store)@.insert(
                key@,
                value@,
            ),
            Err(e) => e == VaultError::StoreUnavailable && !old(store).is_available()
                && final(store)@ == old(store)@,
        },
{
    store.set(key, value)
}

} // verus!
