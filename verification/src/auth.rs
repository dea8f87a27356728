//! Stored API keys: which key a provider uses, the in-memory store of keys,
//! and the sealed (encrypted) form the store is kept in on disk.
use crate::hash::{sha256, sha256_digest};
use crate::text::{
    append_chars, chars_of, contains_chars, contains_seq, find_char, first_index_of, has_prefix,
    lines_of, matches_at, occurs_at, slice_chars, starts_with_chars, str_lines, string_of, trim,
    trim_chars,
};
use vstd::prelude::*;
use vstd::string::StringSliceAdditionalSpecFns;

verus! {

/// The storage key of a provider's credential: `zhipu` for names starting
/// with `zhipu`, `mineru` for names starting with `mineru`, `paddleocr`
/// otherwise.
pub open spec fn provider_key_of(provider_type: Seq<char>) -> Seq<char> {
    if has_prefix(provider_type, "zhipu"@) {
        "zhipu"@
    } else if has_prefix(provider_type, "mineru"@) {
        "mineru"@
    } else {
        "paddleocr"@
    }
}

/// Maps a provider name to the key its credential is stored under.
pub fn provider_key(provider_type: &str) -> (r: &'static str)
    ensures
        r@ == provider_key_of(provider_type@),
{
    let p = chars_of(provider_type);
    if starts_with_chars(&p, &chars_of("zhipu")) {
        "zhipu"
    } else if starts_with_chars(&p, &chars_of("mineru")) {
        "mineru"
    } else {
        "paddleocr"
    }
}

// ---------------------------------------------------------------------------
// The store of keys
// ---------------------------------------------------------------------------

/// Pairs of strings as values.
pub open spec fn cred_pairs(s: Seq<(String, String)>) -> Seq<(Seq<char>, Seq<char>)> {
    s.map_values(|e: (String, String)| (e.0@, e.1@))
}

/// The map held by a list of (key, value) pairs; later pairs replace earlier
/// ones under the same key.
pub open spec fn pairs_map(s: Seq<(Seq<char>, Seq<char>)>) -> Map<Seq<char>, Seq<char>>
    decreases s.len(),
{
    if s.len() == 0 {
        Map::empty()
    } else {
        pairs_map(s.drop_last()).insert(s.last().0, s.last().1)
    }
}

/// No two pairs share a key.
pub open spec fn distinct_keys(s: Seq<(Seq<char>, Seq<char>)>) -> bool {
    forall|i: int, j: int| 0 <= i < j < s.len() ==> s[i].0 != s[j].0
}

proof fn lemma_pairs_map(s: Seq<(Seq<char>, Seq<char>)>)
    requires
        distinct_keys(s),
    ensures
        pairs_map(s).dom().finite(),
        pairs_map(s).dom().len() == s.len(),
        forall|k: Seq<char>| #[trigger] pairs_map(s).dom().contains(k) <==> exists|i: int| 0 <= i < s.len() && s[i].0 == k,
        forall|i: int| 0 <= i < s.len() ==> #[trigger] pairs_map(s)[s[i].0] == s[i].1,
    decreases s.len(),
{
    if s.len() > 0 {
        let p = s.drop_last();
        assert(distinct_keys(p));
        lemma_pairs_map(p);
        let k = s.last().0;
        assert(!pairs_map(p).dom().contains(k)) by {
            if pairs_map(p).dom().contains(k) {
                let i = choose|i: int| 0 <= i < p.len() && p[i].0 == k;
                assert(s[i].0 == s[s.len() - 1].0);
            }
        }
        assert forall|k2: Seq<char>| #[trigger] pairs_map(s).dom().contains(k2) <==> exists|i: int| 0 <= i < s.len() && s[i].0 == k2 by {
            if pairs_map(s).dom().contains(k2) && k2 != k {
                let i = choose|i: int| 0 <= i < p.len() && p[i].0 == k2;
                assert(s[i].0 == k2);
            }
            if exists|i: int| 0 <= i < s.len() && s[i].0 == k2 {
                let i = choose|i: int| 0 <= i < s.len() && s[i].0 == k2;
                if i < s.len() - 1 {
                    assert(p[i].0 == k2);
                }
            }
        }
        assert forall|i: int| 0 <= i < s.len() implies #[trigger] pairs_map(s)[s[i].0] == s[i].1 by {
            if i < s.len() - 1 {
                assert(p[i] == s[i]);
                assert(s[i].0 != k);
            }
        }
    }
}

proof fn lemma_pairs_map_ext(s: Seq<(Seq<char>, Seq<char>)>, t: Seq<(Seq<char>, Seq<char>)>, m: Map<Seq<char>, Seq<char>>)
    requires
        distinct_keys(t),
        forall|k: Seq<char>| m.dom().contains(k) <==> exists|i: int| 0 <= i < t.len() && t[i].0 == k,
        forall|i: int| 0 <= i < t.len() ==> m.dom().contains(t[i].0) && m[t[i].0] == t[i].1,
    ensures
        pairs_map(t) == m,
{
    lemma_pairs_map(t);
    assert forall|k: Seq<char>| #[trigger] pairs_map(t).dom().contains(k) implies pairs_map(t)[k] == m[k] by {
        let i = choose|i: int| 0 <= i < t.len() && t[i].0 == k;
        assert(pairs_map(t)[t[i].0] == t[i].1);
    }
    assert(pairs_map(t) =~= m);
}

/// The stored API keys, by credential key.
pub struct CredentialStore {
    entries: Vec<(String, String)>,
}

impl CredentialStore {
    #[verifier::type_invariant]
    spec fn distinct(&self) -> bool {
        distinct_keys(cred_pairs(self.entries@))
    }
}

impl View for CredentialStore {
    type V = Map<Seq<char>, Seq<char>>;

    closed spec fn view(&self) -> Map<Seq<char>, Seq<char>> {
        pairs_map(cred_pairs(self.entries@))
    }
}

impl CredentialStore {
    /// A store with no keys.
    pub fn new() -> (r: CredentialStore)
        ensures
            r@ == Map::<Seq<char>, Seq<char>>::empty(),
    {
        let r = CredentialStore { entries: Vec::new() };
        assert(cred_pairs(r.entries@) =~= Seq::<(Seq<char>, Seq<char>)>::empty());
        r
    }

    fn find(&self, key: &str) -> (r: Option<usize>)
        ensures
            match r {
                Some(i) => i < self.entries@.len() && self.entries@[i as int].0@ == key@,
                None => forall|i: int| 0 <= i < self.entries@.len() ==> self.entries@[i].0@ != key@,
            },
    {
        let k = string_of(&chars_of(key));
        let mut i: usize = 0;
        while i < self.entries.len()
            invariant
                i <= self.entries.len(),
                k@ == key@,
                forall|j: int| 0 <= j < i ==> self.entries@[j].0@ != key@,
            decreases self.entries.len() - i,
        {
            if self.entries[i].0 == k {
                return Some(i);
            }
            i = i + 1;
        }
        None
    }

    proof fn lemma_view(&self)
        requires
            distinct_keys(cred_pairs(self.entries@)),
        ensures
            self@.dom().finite(),
            self@.dom().len() == self.entries@.len(),
            forall|k: Seq<char>| #[trigger] self@.dom().contains(k) <==> exists|i: int| 0 <= i < self.entries@.len() && self.entries@[i].0@ == k,
            forall|i: int| 0 <= i < self.entries@.len() ==> #[trigger] self@[self.entries@[i].0@] == self.entries@[i].1@,
    {
        let s = cred_pairs(self.entries@);
        lemma_pairs_map(s);
        assert forall|k: Seq<char>| #[trigger] self@.dom().contains(k) <==> exists|i: int| 0 <= i < self.entries@.len() && self.entries@[i].0@ == k by {
            if self@.dom().contains(k) {
                let i = choose|i: int| 0 <= i < s.len() && s[i].0 == k;
                assert(self.entries@[i].0@ == k);
            }
            if exists|i: int| 0 <= i < self.entries@.len() && self.entries@[i].0@ == k {
                let i = choose|i: int| 0 <= i < self.entries@.len() && self.entries@[i].0@ == k;
                assert(s[i].0 == k);
            }
        }
        assert forall|i: int| 0 <= i < self.entries@.len() implies #[trigger] self@[self.entries@[i].0@] == self.entries@[i].1@ by {
            assert(s[i].0 == self.entries@[i].0@);
        }
    }

    /// The stored key under `credential_key`.
    pub fn get(&self, credential_key: &str) -> (r: Option<String>)
        ensures
            match r {
                Some(v) => self@.dom().contains(credential_key@) && self@[credential_key@] == v@,
                None => !self@.dom().contains(credential_key@),
            },
    {
        proof {
            use_type_invariant(self);
            self.lemma_view();
        }
        match self.find(credential_key) {
            Some(i) => Some(self.entries[i].1.clone()),
            None => None,
        }
    }

    /// Stores `api_key` under `credential_key`, replacing any key there.
    pub fn set(&mut self, credential_key: &str, api_key: &str)
        ensures
            final(self)@ == old(self)@.insert(credential_key@, api_key@),
    {
        proof {
            use_type_invariant(&*self);
            self.lemma_view();
        }
        let found = self.find(credential_key);
        let k = string_of(&chars_of(credential_key));
        let v = string_of(&chars_of(api_key));
        let mut entries: Vec<(String, String)> = Vec::new();
        std::mem::swap(&mut entries, &mut self.entries);
        let ghost before = entries@;
        let ghost target = old(self)@.insert(credential_key@, api_key@);
        match found {
            Some(i) => {
                entries.set(i, (k, v));
            },
            None => {
                entries.push((k, v));
            },
        }
        proof {
            let t = cred_pairs(entries@);
            assert forall|a: int, b: int| 0 <= a < b < t.len() implies t[a].0 != t[b].0 by {
                assert(t[a].0 == entries@[a].0@);
                assert(t[b].0 == entries@[b].0@);
                if found is Some {
                    let i = found->0 as int;
                    if a != i && b != i {
                        assert(cred_pairs(before)[a].0 != cred_pairs(before)[b].0);
                    } else if a == i {
                        assert(cred_pairs(before)[i].0 != cred_pairs(before)[b].0);
                    } else {
                        assert(cred_pairs(before)[a].0 != cred_pairs(before)[i].0);
                    }
                } else {
                    if b < before.len() {
                        assert(cred_pairs(before)[a].0 != cred_pairs(before)[b].0);
                    } else {
                        assert(before[a].0@ != credential_key@);
                    }
                }
            }
            assert forall|k2: Seq<char>| target.dom().contains(k2) <==> exists|i: int| 0 <= i < t.len() && t[i].0 == k2 by {
                if target.dom().contains(k2) {
                    if k2 == credential_key@ {
                        match found {
                            Some(i) => { assert(t[i as int].0 == k2); },
                            None => { assert(t[t.len() - 1].0 == k2); },
                        }
                    } else {
                        let j = choose|j: int| 0 <= j < before.len() && before[j].0@ == k2;
                        assert(t[j].0 == k2);
                    }
                }
                if exists|i: int| 0 <= i < t.len() && t[i].0 == k2 {
                    let j = choose|j: int| 0 <= j < t.len() && t[j].0 == k2;
                    if k2 != credential_key@ {
                        assert(before[j].0@ == k2);
                    }
                }
            }
            assert forall|i: int| 0 <= i < t.len() implies target.dom().contains(t[i].0) && target[t[i].0] == t[i].1 by {
                let fresh = match found {
                    Some(fi) => i == fi as int,
                    None => i == before.len(),
                };
                if fresh {
                    assert(t[i].0 == credential_key@);
                    assert(t[i].1 == api_key@);
                } else {
                    assert(before[i] == entries@[i]);
                    if found is Some {
                        let fi = found->0 as int;
                        if i < fi {
                            assert(cred_pairs(before)[i].0 != cred_pairs(before)[fi].0);
                        } else {
                            assert(cred_pairs(before)[fi].0 != cred_pairs(before)[i].0);
                        }
                    }
                    assert(before[i].0@ != credential_key@);
                    assert(old(self)@[before[i].0@] == before[i].1@);
                }
            }
            lemma_pairs_map_ext(t, t, target);
        }
        self.entries = entries;
    }

    /// Removes the key under `credential_key`; whether there was one.
    pub fn delete(&mut self, credential_key: &str) -> (r: bool)
        ensures
            r == old(self)@.dom().contains(credential_key@),
            final(self)@ == old(self)@.remove(credential_key@),
    {
        proof {
            use_type_invariant(&*self);
            self.lemma_view();
        }
        let found = self.find(credential_key);
        match found {
            None => {
                assert(self@ =~= old(self)@.remove(credential_key@));
                false
            },
            Some(i) => {
                let mut entries: Vec<(String, String)> = Vec::new();
                std::mem::swap(&mut entries, &mut self.entries);
                let ghost before = entries@;
                let ghost target = old(self)@.remove(credential_key@);
                let _ = entries.remove(i);
                proof {
                    let t = cred_pairs(entries@);
                    assert forall|j: int| 0 <= j < t.len() implies #[trigger] t[j] == cred_pairs(before)[if j < i { j } else { j + 1 }] by {}
                    assert forall|a: int, b: int| 0 <= a < b < t.len() implies t[a].0 != t[b].0 by {
                        let a2 = if a < i { a } else { a + 1 };
                        let b2 = if b < i { b } else { b + 1 };
                        assert(t[a] == cred_pairs(before)[a2]);
                        assert(t[b] == cred_pairs(before)[b2]);
                        assert(cred_pairs(before)[a2].0 != cred_pairs(before)[b2].0);
                    }
                    assert forall|k2: Seq<char>| target.dom().contains(k2) <==> exists|j: int| 0 <= j < t.len() && t[j].0 == k2 by {
                        if target.dom().contains(k2) {
                            let j = choose|j: int| 0 <= j < before.len() && before[j].0@ == k2;
                            assert(j != i);
                            let j2 = if j < i { j } else { j - 1 };
                            assert(t[j2] == cred_pairs(before)[j]);
                        }
                        if exists|j: int| 0 <= j < t.len() && t[j].0 == k2 {
                            let j = choose|j: int| 0 <= j < t.len() && t[j].0 == k2;
                            let j2 = if j < i { j } else { j + 1 };
                            assert(t[j] == cred_pairs(before)[j2]);
                            assert(cred_pairs(before)[j2].0 != cred_pairs(before)[i as int].0);
                            assert(before[j2].0@ == k2);
                        }
                    }
                    assert forall|j: int| 0 <= j < t.len() implies target.dom().contains(t[j].0) && target[t[j].0] == t[j].1 by {
                        let j2 = if j < i { j } else { j + 1 };
                        assert(t[j] == cred_pairs(before)[j2]);
                        assert(cred_pairs(before)[j2].0 != cred_pairs(before)[i as int].0);
                        assert(old(self)@[before[j2].0@] == before[j2].1@);
                    }
                    lemma_pairs_map_ext(t, t, target);
                }
                self.entries = entries;
                true
            },
        }
    }

    /// The credential keys stored, each once.
    pub fn keys(&self) -> (r: Vec<String>)
        ensures
            r@.len() == self@.dom().len(),
            forall|i: int| 0 <= i < r@.len() ==> self@.dom().contains(#[trigger] r@[i]@),
            forall|i: int, j: int| 0 <= i < j < r@.len() ==> r@[i]@ != r@[j]@,
            forall|k: Seq<char>| #[trigger] self@.dom().contains(k) ==> exists|i: int| 0 <= i < r@.len() && r@[i]@ == k,
    {
        proof {
            use_type_invariant(self);
            self.lemma_view();
        }
        let mut r: Vec<String> = Vec::new();
        let mut i: usize = 0;
        while i < self.entries.len()
            invariant
                i <= self.entries.len(),
                distinct_keys(cred_pairs(self.entries@)),
                r@.len() == i,
                forall|j: int| 0 <= j < i ==> #[trigger] r@[j]@ == self.entries@[j].0@,
            decreases self.entries.len() - i,
        {
            r.push(self.entries[i].0.clone());
            i = i + 1;
        }
        assert forall|a: int, b: int| 0 <= a < b < r@.len() implies r@[a]@ != r@[b]@ by {
            assert(cred_pairs(self.entries@)[a].0 != cred_pairs(self.entries@)[b].0);
        }
        assert forall|k: Seq<char>| #[trigger] self@.dom().contains(k) implies exists|i: int| 0 <= i < r@.len() && r@[i]@ == k by {
            let i = choose|i: int| 0 <= i < self.entries@.len() && self.entries@[i].0@ == k;
            assert(r@[i]@ == k);
        }
        r
    }

    /// The stored (credential key, API key) pairs, for saving.
    pub fn entries(&self) -> (r: &Vec<(String, String)>)
        ensures
            pairs_map(cred_pairs(r@)) == self@,
            distinct_keys(cred_pairs(r@)),
    {
        proof {
            use_type_invariant(self);
        }
        &self.entries
    }

    /// A store holding the given pairs; a later pair under a key replaces an
    /// earlier one.
    pub fn from_entries(pairs: Vec<(String, String)>) -> (r: CredentialStore)
        ensures
            r@ == pairs_map(cred_pairs(pairs@)),
    {
        let mut st = CredentialStore::new();
        let mut i: usize = 0;
        while i < pairs.len()
            invariant
                i <= pairs.len(),
                st@ == pairs_map(cred_pairs(pairs@.take(i as int))),
            decreases pairs.len() - i,
        {
            assert(cred_pairs(pairs@.take(i + 1)).drop_last() =~= cred_pairs(pairs@.take(i as int)));
            st.set(pairs[i].0.as_str(), pairs[i].1.as_str());
            i = i + 1;
        }
        assert(pairs@.take(pairs.len() as int) =~= pairs@);
        st
    }

    /// Whether no key is stored.
    pub fn is_empty(&self) -> (r: bool)
        ensures
            r == (self@.dom().len() == 0),
    {
        proof {
            use_type_invariant(self);
            self.lemma_view();
        }
        self.entries.len() == 0
    }
}

/// The stored key under `credential_key`.
pub fn get(store: &CredentialStore, credential_key: &str) -> (r: Option<String>)
    ensures
        match r {
            Some(v) => store@.dom().contains(credential_key@) && store@[credential_key@] == v@,
            None => !store@.dom().contains(credential_key@),
        },
{
    store.get(credential_key)
}

/// Stores `api_key` under `credential_key`.
pub fn set(store: &mut CredentialStore, credential_key: &str, api_key: &str)
    ensures
        final(store)@ == old(store)@.insert(credential_key@, api_key@),
{
    store.set(credential_key, api_key)
}

/// Removes the key under `credential_key`; whether there was one.
pub fn delete(store: &mut CredentialStore, credential_key: &str) -> (r: bool)
    ensures
        r == old(store)@.dom().contains(credential_key@),
        final(store)@ == old(store)@.remove(credential_key@),
{
    store.delete(credential_key)
}

/// The credential keys stored, each once.
pub fn list(store: &CredentialStore) -> (r: Vec<String>)
    ensures
        r@.len() == store@.dom().len(),
        forall|i: int| 0 <= i < r@.len() ==> store@.dom().contains(#[trigger] r@[i]@),
        forall|i: int, j: int| 0 <= i < j < r@.len() ==> r@[i]@ != r@[j]@,
        forall|k: Seq<char>| #[trigger] store@.dom().contains(k) ==> exists|i: int| 0 <= i < r@.len() && r@[i]@ == k,
{
    store.keys()
}

/// Why a credential operation failed.
#[derive(Debug, PartialEq, Eq)]
pub enum CredentialError {
    /// The sealed file is shorter than a nonce.
    Corrupted,
    /// The sealed file does not open with this machine's key.
    DecryptFailed,
    /// The store is too large to seal.
    EncryptFailed,
    /// The operating system gave no random bytes for a nonce.
    NonceUnavailable,
    /// No key is stored under the given credential key.
    NotFound(String),
}

impl CredentialError {
    /// The error's message.
    pub fn message(&self) -> (r: String)
        ensures
            r@ == match self {
                CredentialError::Corrupted => "Corrupted credentials file"@,
                CredentialError::DecryptFailed => "Failed to decrypt credentials file"@,
                CredentialError::EncryptFailed => "Failed to encrypt credentials"@,
                CredentialError::NonceUnavailable => "Failed to generate a random nonce"@,
                CredentialError::NotFound(k) => "No stored credential found for '"@ + k@ + "'"@,
            },
    {
        match self {
            CredentialError::Corrupted => string_of(&chars_of("Corrupted credentials file")),
            CredentialError::DecryptFailed => string_of(&chars_of("Failed to decrypt credentials file")),
            CredentialError::EncryptFailed => string_of(&chars_of("Failed to encrypt credentials")),
            CredentialError::NonceUnavailable => string_of(&chars_of("Failed to generate a random nonce")),
            CredentialError::NotFound(k) => {
                let mut v = chars_of("No stored credential found for '");
                append_chars(&mut v, &chars_of(k.as_str()));
                append_chars(&mut v, &chars_of("'"));
                string_of(&v)
            },
        }
    }
}

/// Retrieves the stored API key for a credential key; `None` when there is
/// none.
pub fn get_credential(store: &CredentialStore, credential_key: &str) -> (r: Option<String>)
    ensures
        match r {
            Some(v) => store@.dom().contains(credential_key@) && store@[credential_key@] == v@,
            None => !store@.dom().contains(credential_key@),
        },
{
    get(store, credential_key)
}

/// Stores an API key for a credential key.
pub fn set_credential(store: &mut CredentialStore, credential_key: &str, api_key: &str)
    ensures
        final(store)@ == old(store)@.insert(credential_key@, api_key@),
{
    set(store, credential_key, api_key)
}

/// Deletes a stored credential; an error when none is stored under the key.
pub fn delete_credential(store: &mut CredentialStore, credential_key: &str) -> (r: Result<
    (),
    CredentialError,
>)
    ensures
        final(store)@ == old(store)@.remove(credential_key@),
        match r {
            Ok(()) => old(store)@.dom().contains(credential_key@),
            Err(e) => !old(store)@.dom().contains(credential_key@) && (e matches CredentialError::NotFound(
                k,
            ) && k@ == credential_key@),
        },
{
    if delete(store, credential_key) {
        Ok(())
    } else {
        Err(CredentialError::NotFound(string_of(&chars_of(credential_key))))
    }
}

/// Lists the credential keys that have a stored API key.
pub fn list_credentials(store: &CredentialStore) -> (r: Vec<String>)
    ensures
        r@.len() == store@.dom().len(),
        forall|i: int| 0 <= i < r@.len() ==> store@.dom().contains(#[trigger] r@[i]@),
        forall|i: int, j: int| 0 <= i < j < r@.len() ==> r@[i]@ != r@[j]@,
        forall|k: Seq<char>| #[trigger] store@.dom().contains(k) ==> exists|i: int| 0 <= i < r@.len() && r@[i]@ == k,
{
    list(store)
}

/// A key read back after it is stored is the one stored; other keys are
/// untouched.
pub proof fn law_get_after_set(m: Map<Seq<char>, Seq<char>>, k: Seq<char>, v: Seq<char>, other: Seq<char>)
    requires
        other != k,
    ensures
        m.insert(k, v).dom().contains(k) && m.insert(k, v)[k] == v,
        m.insert(k, v).dom().contains(other) == m.dom().contains(other),
        m.dom().contains(other) ==> m.insert(k, v)[other] == m[other],
{
}

/// After a credential is deleted, none is stored under its key, and deleting
/// it again reports that nothing was there.
pub proof fn law_get_after_delete(m: Map<Seq<char>, Seq<char>>, k: Seq<char>)
    ensures
        !m.remove(k).dom().contains(k),
        m.remove(k).remove(k) == m.remove(k),
{
    assert(m.remove(k).remove(k) =~= m.remove(k));
}

// ---------------------------------------------------------------------------
// The sealed file
// ---------------------------------------------------------------------------

/// The length of the nonce at the start of the sealed file.
pub const NONCE_SIZE: usize = 12;

/// The key derived for a machine: SHA-256 of the text
/// `pdf-to-markdown-credential-v1` followed by the machine identifier with
/// surrounding whitespace removed.
pub open spec fn machine_key(machine_id: Seq<char>) -> Seq<u8> {
    sha256_digest(
        vstd::utf8::encode_utf8("pdf-to-markdown-credential-v1"@) + vstd::utf8::encode_utf8(
            trim(machine_id),
        ),
    )
}

/// The key a machine identifier gives does not depend on whitespace around
/// the identifier: trimming it first gives the same key.
pub proof fn law_key_ignores_surrounding_whitespace(machine_id: Seq<char>)
    ensures
        machine_key(trim(machine_id)) == machine_key(machine_id),
{
    crate::text::lemma_trim_idempotent(machine_id);
}

fn append_bytes(a: &mut Vec<u8>, b: &[u8])
    ensures
        final(a)@ == old(a)@ + b@,
{
    let mut i: usize = 0;
    while i < b.len()
        invariant
            i <= b.len(),
            a@ == old(a)@ + b@.subrange(0, i as int),
        decreases b.len() - i,
    {
        a.push(b[i]);
        assert(b@.subrange(0, i + 1) =~= b@.subrange(0, i as int).push(b@[i as int]));
        i = i + 1;
    }
    assert(b@.subrange(0, b@.len() as int) =~= b@);
}

/// Derives the 32-byte key that seals the credentials file on this machine.
pub fn derive_key(machine_id: &str) -> (r: Vec<u8>)
    ensures
        r@ == machine_key(machine_id@),
        r@.len() == 32,
{
    let trimmed = string_of(&trim_chars(&chars_of(machine_id)));
    let mut data: Vec<u8> = Vec::new();
    append_bytes(&mut data, "pdf-to-markdown-credential-v1".as_bytes());
    append_bytes(&mut data, trimmed.as_str().as_bytes());
    assert(data@ =~= vstd::utf8::encode_utf8("pdf-to-markdown-credential-v1"@) + vstd::utf8::encode_utf8(trim(machine_id@)));
    sha256(data.as_slice())
}

/// What AES-256-GCM sealing gives for a key, nonce and plaintext (no
/// associated data): the ciphertext followed by the tag.
pub uninterp spec fn aes_gcm_seal(key: Seq<u8>, nonce: Seq<u8>, plaintext: Seq<u8>) -> Seq<u8>;

/// What AES-256-GCM opening gives: the plaintext when the tag verifies.
pub uninterp spec fn aes_gcm_open(key: Seq<u8>, nonce: Seq<u8>, sealed: Seq<u8>) -> Option<Seq<u8>>;

/// The largest plaintext AES-256-GCM seals (2^36 bytes).
pub open spec fn aes_gcm_p_max() -> nat {
    0x10_0000_0000
}

/// `Aes256Gcm::encrypt` (crate `aes-gcm`) under a 32-byte key and a 12-byte
/// nonce. It fails only for plaintexts over 2^36 bytes; the result is named
/// by `aes_gcm_seal`, is 16 bytes longer than the plaintext, and opens back to
/// the plaintext under the same key and nonce.
#[verifier::external_body]
fn aes_gcm_encrypt(key: &[u8], nonce: &[u8], plaintext: &[u8]) -> (r: Option<Vec<u8>>)
    requires
        key@.len() == 32,
        nonce@.len() == 12,
    ensures
        match r {
            Some(c) => {
                &&& c@ == aes_gcm_seal(key@, nonce@, plaintext@)
                &&& c@.len() == plaintext@.len() + 16
                &&& aes_gcm_open(key@, nonce@, c@) == Some(plaintext@)
            },
            None => plaintext@.len() > aes_gcm_p_max(),
        },
        r is Some ==> plaintext@.len() <= aes_gcm_p_max(),
{
    let cipher = <aes_gcm::Aes256Gcm as aes_gcm::aead::KeyInit>::new_from_slice(key).ok()?;
    aes_gcm::aead::Aead::encrypt(&cipher, aes_gcm::Nonce::from_slice(nonce), plaintext).ok()
}

/// `Aes256Gcm::decrypt` under a 32-byte key and a 12-byte nonce; the result
/// is named by `aes_gcm_open`.
#[verifier::external_body]
fn aes_gcm_decrypt(key: &[u8], nonce: &[u8], sealed: &[u8]) -> (r: Option<Vec<u8>>)
    requires
        key@.len() == 32,
        nonce@.len() == 12,
    ensures
        match r {
            Some(p) => aes_gcm_open(key@, nonce@, sealed@) == Some(p@),
            None => aes_gcm_open(key@, nonce@, sealed@) is None,
        },
{
    let cipher = <aes_gcm::Aes256Gcm as aes_gcm::aead::KeyInit>::new_from_slice(key).ok()?;
    aes_gcm::aead::Aead::decrypt(&cipher, aes_gcm::Nonce::from_slice(nonce), sealed).ok()
}

/// Twelve bytes from the operating system's random source
/// (`rand::rngs::OsRng::try_fill_bytes`), or `None` when that source fails.
/// Only the number of bytes is stated.
#[verifier::external_body]
fn fresh_nonce() -> (r: Option<Vec<u8>>)
    ensures
        r matches Some(n) ==> n@.len() == 12,
{
    let mut nonce = [0u8; 12];
    match rand::RngCore::try_fill_bytes(&mut rand::rngs::OsRng, &mut nonce) {
        Ok(()) => Some(nonce.to_vec()),
        Err(_) => None,
    }
}

/// What opening a sealed file under `key` gives: an error for a file shorter
/// than a nonce, the plaintext when the rest opens under the leading nonce,
/// an error otherwise.
pub open spec fn open_sealed(key: Seq<u8>, data: Seq<u8>) -> Result<Seq<u8>, CredentialError> {
    if data.len() < 12 {
        Err(CredentialError::Corrupted)
    } else {
        match aes_gcm_open(key, data.take(12), data.skip(12)) {
            Some(p) => Ok(p),
            None => Err(CredentialError::DecryptFailed),
        }
    }
}

/// Opens the sealed credentials file: nonce, then ciphertext and tag.
pub fn open_credentials(data: &[u8], key: &[u8]) -> (r: Result<Vec<u8>, CredentialError>)
    requires
        key@.len() == 32,
    ensures
        match r {
            Ok(p) => open_sealed(key@, data@) == Ok::<Seq<u8>, CredentialError>(p@),
            Err(e) => open_sealed(key@, data@) == Err::<Seq<u8>, CredentialError>(e),
        },
{
    if data.len() < NONCE_SIZE {
        return Err(CredentialError::Corrupted);
    }
    let nonce = vstd::slice::slice_subrange(data, 0, NONCE_SIZE);
    let body = vstd::slice::slice_subrange(data, NONCE_SIZE, data.len());
    assert(nonce@ =~= data@.take(12));
    assert(body@ =~= data@.skip(12));
    match aes_gcm_decrypt(key, nonce, body) {
        Some(p) => Ok(p),
        None => Err(CredentialError::DecryptFailed),
    }
}

/// Seals the credentials under `key` with the given nonce: the nonce, then
/// the ciphertext and tag, which opens back to the plaintext. It fails
/// exactly for plaintexts over 2^36 bytes.
pub fn seal_with_nonce(plaintext: &[u8], key: &[u8], nonce: &[u8]) -> (r: Result<Vec<u8>, CredentialError>)
    requires
        key@.len() == 32,
        nonce@.len() == 12,
    ensures
        r is Ok <==> plaintext@.len() <= aes_gcm_p_max(),
        match r {
            Ok(f) => {
                &&& f@ == nonce@ + aes_gcm_seal(key@, nonce@, plaintext@)
                &&& f@.len() == 12 + plaintext@.len() + 16
                &&& open_sealed(key@, f@) == Ok::<Seq<u8>, CredentialError>(plaintext@)
            },
            Err(e) => e == CredentialError::EncryptFailed,
        },
{
    match aes_gcm_encrypt(key, nonce, plaintext) {
        None => Err(CredentialError::EncryptFailed),
        Some(c) => {
            let mut out: Vec<u8> = Vec::new();
            append_bytes(&mut out, nonce);
            append_bytes(&mut out, c.as_slice());
            assert(out@ =~= nonce@ + c@);
            assert(out@.take(12) =~= nonce@);
            assert(out@.skip(12) =~= c@);
            Ok(out)
        },
    }
}

/// Seals the credentials under `key` with a fresh random nonce, as
/// `seal_with_nonce` does with it; fails also when the operating system
/// gives no random bytes.
pub fn seal_credentials(plaintext: &[u8], key: &[u8]) -> (r: Result<Vec<u8>, CredentialError>)
    requires
        key@.len() == 32,
    ensures
        match r {
            Ok(f) => {
                &&& f@.len() == 12 + plaintext@.len() + 16
                &&& f@.skip(12) == aes_gcm_seal(key@, f@.take(12), plaintext@)
                &&& open_sealed(key@, f@) == Ok::<Seq<u8>, CredentialError>(plaintext@)
            },
            Err(e) => (e == CredentialError::EncryptFailed && plaintext@.len() > aes_gcm_p_max())
                || e == CredentialError::NonceUnavailable,
        },
{
    let nonce = match fresh_nonce() {
        Some(n) => n,
        None => return Err(CredentialError::NonceUnavailable),
    };
    let r = seal_with_nonce(plaintext, key, nonce.as_slice());
    proof {
        if r is Ok {
            let f = r->Ok_0;
            assert(f@.take(12) =~= nonce@);
            assert(f@.skip(12) =~= aes_gcm_seal(key@, nonce@, plaintext@));
        }
    }
    r
}


// ---------------------------------------------------------------------------
// The machine identifier
// ---------------------------------------------------------------------------

/// The first of the lines that holds `p`.
pub open spec fn first_line_with(lines: Seq<Seq<char>>, p: Seq<char>) -> Option<Seq<char>>
    decreases lines.len(),
{
    if lines.len() == 0 {
        None
    } else if contains_seq(lines[0], p) {
        Some(lines[0])
    } else {
        first_line_with(lines.drop_first(), p)
    }
}

/// The text between the first two `"` of a line.
pub open spec fn quoted_text(line: Seq<char>) -> Option<Seq<char>> {
    match first_index_of(line, '"') {
        None => None,
        Some(a) => match first_index_of(line.skip(a + 1), '"') {
            None => None,
            Some(b) => Some(line.subrange(a + 1, a + 1 + b)),
        },
    }
}

/// The machine's UUID in the output of `ioreg -d2 -c IOPlatformExpertDevice`:
/// the quoted text of the first line that mentions `IOPlatformUUID`.
pub open spec fn ioreg_platform_uuid(output: Seq<char>) -> Option<Seq<char>> {
    match first_line_with(str_lines(output), "IOPlatformUUID"@) {
        None => None,
        Some(line) => quoted_text(line),
    }
}

/// The first position at or after `i` at which `p` occurs in `s`.
pub open spec fn first_occurrence_from(s: Seq<char>, p: Seq<char>, i: nat) -> Option<int>
    decreases s.len() + 1 - i,
{
    if i > s.len() {
        None
    } else if occurs_at(s, p, i as int) {
        Some(i as int)
    } else {
        first_occurrence_from(s, p, i + 1)
    }
}

/// The machine GUID in the output of the registry query for `MachineGuid`:
/// on the first line that mentions `REG_SZ`, what follows it, trimmed.
pub open spec fn registry_machine_guid(output: Seq<char>) -> Option<Seq<char>> {
    match first_line_with(str_lines(output), "REG_SZ"@) {
        None => None,
        Some(line) => match first_occurrence_from(line, "REG_SZ"@, 0) {
            None => None,
            Some(pos) => Some(trim(line.skip(pos + 6))),
        },
    }
}

fn first_line_with_exec(lines: &Vec<Vec<char>>, p: &str) -> (r: Option<usize>)
    ensures
        match r {
            Some(k) => k < lines@.len() && contains_seq(lines@[k as int]@, p@) && first_line_with(
                lines@.map_values(|v: Vec<char>| v@),
                p@,
            ) == Some(lines@[k as int]@),
            None => first_line_with(lines@.map_values(|v: Vec<char>| v@), p@) is None,
        },
{
    let ghost lv = lines@.map_values(|v: Vec<char>| v@);
    let pat = chars_of(p);
    let mut k: usize = 0;
    assert(lv.skip(0) =~= lv);
    while k < lines.len()
        invariant
            lv == lines@.map_values(|v: Vec<char>| v@),
            pat@ == p@,
            k <= lines.len(),
            first_line_with(lv, p@) == first_line_with(lv.skip(k as int), p@),
        decreases lines.len() - k,
    {
        assert(lv.skip(k as int)[0] == lines@[k as int]@);
        assert(lv.skip(k as int).drop_first() =~= lv.skip(k + 1));
        if contains_chars(&lines[k], &pat) {
            return Some(k);
        }
        k = k + 1;
    }
    None
}

/// The machine's UUID in the output of `ioreg`, as `ioreg_platform_uuid`
/// describes; `None` when it holds none.
pub fn ioreg_uuid(output: &str) -> (r: Option<String>)
    ensures
        match r {
            Some(u) => ioreg_platform_uuid(output@) == Some(u@),
            None => ioreg_platform_uuid(output@) is None,
        },
{
    let lines = lines_of(output);
    match first_line_with_exec(&lines, "IOPlatformUUID") {
        None => None,
        Some(k) => {
            let line = &lines[k];
            match find_char(line, '"') {
                None => None,
                Some(a) => {
                    let rest = slice_chars(line, a + 1, line.len());
                    assert(rest@ =~= line@.skip(a + 1));
                    match find_char(&rest, '"') {
                        None => None,
                        Some(b) => {
                            let q = slice_chars(line, a + 1, a + 1 + b);
                            Some(string_of(&q))
                        },
                    }
                },
            }
        },
    }
}

/// The machine GUID in the output of the registry query, as
/// `registry_machine_guid` describes; `None` when it holds none.
pub fn registry_guid(output: &str) -> (r: Option<String>)
    ensures
        match r {
            Some(g) => registry_machine_guid(output@) == Some(g@),
            None => registry_machine_guid(output@) is None,
        },
{
    let lines = lines_of(output);
    match first_line_with_exec(&lines, "REG_SZ") {
        None => None,
        Some(k) => {
            let line = &lines[k];
            let pat = chars_of("REG_SZ");
            proof {
                reveal_strlit("REG_SZ");
                assert(line@.skip(0) =~= line@);
            }
            let mut i: usize = 0;
            assert(first_line_with(str_lines(output@), "REG_SZ"@) == Some(line@));
            while i <= line.len()
                invariant
                    first_line_with(str_lines(output@), "REG_SZ"@) == Some(line@),
                    pat@ == "REG_SZ"@,
                    i <= line.len() + 1,
                    contains_seq(line@, "REG_SZ"@),
                    first_occurrence_from(line@, "REG_SZ"@, 0) == first_occurrence_from(
                        line@,
                        "REG_SZ"@,
                        i as nat,
                    ),
                    forall|j: int| 0 <= j < i ==> !occurs_at(line@, "REG_SZ"@, j),
                decreases line.len() + 1 - i,
            {
                proof {
                    reveal_strlit("REG_SZ");
                }
                if matches_at(line, &pat, i) {
                    assert(line@.len() >= i + 6);
                    let tail = slice_chars(line, i + 6, line.len());
                    assert(tail@ =~= line@.skip(i + 6));
                    let t = trim_chars(&tail);
                    assert(occurs_at(line@, "REG_SZ"@, i as int));
                    assert(first_occurrence_from(line@, "REG_SZ"@, i as nat) == Some(i as int));
                    assert(first_line_with(str_lines(output@), "REG_SZ"@) == Some(line@));
                    return Some(string_of(&t));
                }
                i = i + 1;
            }
            proof {
                let w = choose|w: int| occurs_at(line@, "REG_SZ"@, w);
                assert(0 <= w <= line@.len());
            }
            None
        },
    }
}

} // verus!
