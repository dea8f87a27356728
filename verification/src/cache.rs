//! The conversion cache: entries stored under a key made of the input's hash,
//! the provider and the page ranges, so that converting the same input the
//! same way twice is answered from the cache.
use crate::hash::{sha256_hex, sha256_hex_of};
use crate::text::{
    append_chars, chars_eq, chars_of, decimal, join_seqs, lacks, lemma_decimal_digits,
    lemma_decimal_injective, lemma_split_at_first, lemma_split_at_last, lowercase,
    lowercase_chars, string_of, u64_to_decimal,
};
use vstd::prelude::*;
use vstd::string::StringSliceAdditionalSpecFns;

verus! {

/// The environment variable that, set to `1` or `true` (any case), turns the
/// cache off.
pub const CACHE_DISABLE_ENV_VAR: &'static str = "PDF_TO_MARKDOWN_NO_CACHE";

/// A switch value turns its feature off: `1`, or `true` in any case.
pub open spec fn switch_on(v: Seq<char>) -> bool {
    v == "1"@ || lowercase(v) == "true"@
}

/// Whether the cache is off, given the value of `CACHE_DISABLE_ENV_VAR`
/// (`None` when it is not set).
pub fn is_cache_disabled(value: Option<&str>) -> (r: bool)
    ensures
        r == match value {
            Some(v) => switch_on(v@),
            None => false,
        },
{
    match value {
        None => false,
        Some(v) => {
            let c = chars_of(v);
            chars_eq(&c, &chars_of("1")) || chars_eq(&lowercase_chars(&c), &chars_of("true"))
        },
    }
}

/// The text of page ranges in a cache key: `start-end` pieces joined by `,`.
pub open spec fn ranges_text(r: Seq<(u32, u32)>) -> Seq<char> {
    join_seqs(r.map_values(|p: (u32, u32)| range_part(p)), ","@)
}

/// One page range as text: `start-end`.
pub open spec fn range_part(p: (u32, u32)) -> Seq<char> {
    decimal(p.0 as nat) + "-"@ + decimal(p.1 as nat)
}

/// The cache key: `hash:provider`, followed by `:` and the ranges' text when
/// page ranges are given.
pub open spec fn cache_key(hash: Seq<char>, provider: Seq<char>, ranges: Option<Seq<(u32, u32)>>) -> Seq<char> {
    match ranges {
        Some(r) => hash + ":"@ + provider + ":"@ + ranges_text(r),
        None => hash + ":"@ + provider,
    }
}

/// The page ranges of an optional vector.
pub open spec fn ranges_view(r: Option<Vec<(u32, u32)>>) -> Option<Seq<(u32, u32)>> {
    match r {
        Some(v) => Some(v@),
        None => None,
    }
}

/// A copy of page ranges.
pub fn copy_ranges(r: &Option<Vec<(u32, u32)>>) -> (c: Option<Vec<(u32, u32)>>)
    ensures
        ranges_view(c) == ranges_view(*r),
{
    match r {
        None => None,
        Some(v) => {
            let mut out: Vec<(u32, u32)> = Vec::new();
            let mut i: usize = 0;
            while i < v.len()
                invariant
                    i <= v.len(),
                    out@ == v@.take(i as int),
                decreases v.len() - i,
            {
                out.push(v[i]);
                assert(v@.take(i + 1) =~= v@.take(i as int).push(v@[i as int]));
                i = i + 1;
            }
            assert(v@.take(v.len() as int) =~= v@);
            Some(out)
        },
    }
}

fn ranges_text_exec(r: &Vec<(u32, u32)>) -> (t: Vec<char>)
    ensures
        t@ == ranges_text(r@),
{
    let ghost parts = r@.map_values(|p: (u32, u32)| range_part(p));
    let mut t: Vec<char> = Vec::new();
    let mut i: usize = 0;
    while i < r.len()
        invariant
            i <= r.len(),
            parts == r@.map_values(|p: (u32, u32)| range_part(p)),
            t@ == join_seqs(parts.take(i as int), ","@),
        decreases r.len() - i,
    {
        if i > 0 {
            append_chars(&mut t, &chars_of(","));
        }
        let mut piece = u64_to_decimal(r[i].0 as u64);
        append_chars(&mut piece, &chars_of("-"));
        append_chars(&mut piece, &u64_to_decimal(r[i].1 as u64));
        append_chars(&mut t, &piece);
        assert(parts.take(i + 1).drop_last() =~= parts.take(i as int));
        i = i + 1;
    }
    assert(parts.take(r.len() as int) =~= parts);
    t
}

/// A cache entry.
#[derive(Debug)]
pub struct CacheEntry {
    /// Hash of the input file or URL.
    pub hash: String,
    /// The input as given (a path or a URL).
    pub input: String,
    /// The provider's name.
    pub provider: String,
    /// The page ranges converted, if not the whole document.
    pub page_ranges: Option<Vec<(u32, u32)>>,
    /// The Markdown produced.
    pub markdown: String,
    /// The images: name in the Markdown, hash of the content.
    pub images: Vec<(String, String)>,
    /// When the entry was made (seconds since the Unix epoch).
    pub created_at: u64,
}

/// A cache entry as values.
pub struct CacheEntryView {
    pub hash: Seq<char>,
    pub input: Seq<char>,
    pub provider: Seq<char>,
    pub page_ranges: Option<Seq<(u32, u32)>>,
    pub markdown: Seq<char>,
    pub images: Seq<(Seq<char>, Seq<char>)>,
    pub created_at: u64,
}

/// Pairs of strings as values.
pub open spec fn pairs_view(p: Seq<(String, String)>) -> Seq<(Seq<char>, Seq<char>)> {
    p.map_values(|e: (String, String)| (e.0@, e.1@))
}

impl View for CacheEntry {
    type V = CacheEntryView;

    open spec fn view(&self) -> CacheEntryView {
        CacheEntryView {
            hash: self.hash@,
            input: self.input@,
            provider: self.provider@,
            page_ranges: ranges_view(self.page_ranges),
            markdown: self.markdown@,
            images: pairs_view(self.images@),
            created_at: self.created_at,
        }
    }
}

/// A copy of string pairs.
pub fn copy_pairs(p: &Vec<(String, String)>) -> (c: Vec<(String, String)>)
    ensures
        pairs_view(c@) == pairs_view(p@),
{
    let mut out: Vec<(String, String)> = Vec::new();
    let mut i: usize = 0;
    while i < p.len()
        invariant
            i <= p.len(),
            pairs_view(out@) == pairs_view(p@.take(i as int)),
        decreases p.len() - i,
    {
        out.push((p[i].0.clone(), p[i].1.clone()));
        assert(pairs_view(p@.take(i + 1)) =~= pairs_view(p@.take(i as int)).push(
            (p@[i as int].0@, p@[i as int].1@),
        ));
        assert(pairs_view(out@) =~= pairs_view(out@.drop_last()).push(
            (p@[i as int].0@, p@[i as int].1@),
        ));
        i = i + 1;
    }
    assert(p@.take(p.len() as int) =~= p@);
    out
}

/// The current time in seconds since the Unix epoch
/// (`chrono::Utc::now().timestamp()`, as unsigned). Nothing is stated of it:
/// it is read from the clock.
#[verifier::external_body]
fn unix_now() -> u64 {
    chrono::Utc::now().timestamp() as u64
}

impl CacheEntry {
    /// A new entry stamped with the current time.
    pub fn new(
        hash: String,
        input: String,
        provider: String,
        page_ranges: Option<Vec<(u32, u32)>>,
        markdown: String,
        images: Vec<(String, String)>,
    ) -> (r: CacheEntry)
        ensures
            r.hash@ == hash@,
            r.input@ == input@,
            r.provider@ == provider@,
            ranges_view(r.page_ranges) == ranges_view(page_ranges),
            r.markdown@ == markdown@,
            pairs_view(r.images@) == pairs_view(images@),
    {
        CacheEntry { hash, input, provider, page_ranges, markdown, images, created_at: unix_now() }
    }

    /// A copy of the entry.
    pub fn duplicate(&self) -> (r: CacheEntry)
        ensures
            r@ == self@,
    {
        CacheEntry {
            hash: self.hash.clone(),
            input: self.input.clone(),
            provider: self.provider.clone(),
            page_ranges: copy_ranges(&self.page_ranges),
            markdown: self.markdown.clone(),
            images: copy_pairs(&self.images),
            created_at: self.created_at,
        }
    }
}

/// The index held by a list of (key, entry) pairs: a later pair under a key
/// replaces an earlier one.
pub open spec fn index_of(s: Seq<(String, CacheEntry)>) -> Map<Seq<char>, CacheEntryView>
    decreases s.len(),
{
    if s.len() == 0 {
        Map::empty()
    } else {
        index_of(s.drop_last()).insert(s.last().0@, s.last().1@)
    }
}

/// No two pairs share a key.
pub open spec fn unique_keys(s: Seq<(String, CacheEntry)>) -> bool {
    forall|i: int, j: int| 0 <= i < j < s.len() ==> s[i].0@ != s[j].0@
}

proof fn lemma_index_of(s: Seq<(String, CacheEntry)>)
    requires
        unique_keys(s),
    ensures
        index_of(s).dom().finite(),
        index_of(s).dom().len() == s.len(),
        forall|k: Seq<char>| #[trigger] index_of(s).dom().contains(k) <==> exists|i: int| 0 <= i < s.len() && s[i].0@ == k,
        forall|i: int| 0 <= i < s.len() ==> #[trigger] index_of(s)[s[i].0@] == s[i].1@,
    decreases s.len(),
{
    if s.len() > 0 {
        let p = s.drop_last();
        assert(unique_keys(p));
        lemma_index_of(p);
        let k = s.last().0@;
        assert(!index_of(p).dom().contains(k)) by {
            if index_of(p).dom().contains(k) {
                let i = choose|i: int| 0 <= i < p.len() && p[i].0@ == k;
                assert(s[i].0@ == s[s.len() - 1].0@);
            }
        }
        assert forall|k2: Seq<char>| #[trigger] index_of(s).dom().contains(k2) <==> exists|i: int| 0 <= i < s.len() && s[i].0@ == k2 by {
            if index_of(s).dom().contains(k2) && k2 != k {
                let i = choose|i: int| 0 <= i < p.len() && p[i].0@ == k2;
                assert(s[i].0@ == k2);
            }
            if exists|i: int| 0 <= i < s.len() && s[i].0@ == k2 {
                let i = choose|i: int| 0 <= i < s.len() && s[i].0@ == k2;
                if i < s.len() - 1 {
                    assert(p[i].0@ == k2);
                }
            }
        }
        assert forall|i: int| 0 <= i < s.len() implies #[trigger] index_of(s)[s[i].0@] == s[i].1@ by {
            if i < s.len() - 1 {
                assert(p[i] == s[i]);
                assert(s[i].0@ != k);
            }
        }
    }
}

proof fn lemma_index_update(s: Seq<(String, CacheEntry)>, i: int, x: (String, CacheEntry))
    requires
        unique_keys(s),
        0 <= i < s.len(),
        x.0@ == s[i].0@,
    ensures
        unique_keys(s.update(i, x)),
        index_of(s.update(i, x)) == index_of(s).insert(x.0@, x.1@),
{
    let t = s.update(i, x);
    lemma_index_of(s);
    assert(unique_keys(t)) by {
        assert forall|a: int, b: int| 0 <= a < b < t.len() implies t[a].0@ != t[b].0@ by {
            if a == i {
                assert(s[i].0@ != s[b].0@);
            } else if b == i {
                assert(s[a].0@ != s[i].0@);
            } else {
                assert(s[a].0@ != s[b].0@);
            }
        }
    }
    lemma_index_of(t);
    assert(index_of(t) =~= index_of(s).insert(x.0@, x.1@)) by {
        assert forall|k: Seq<char>| #[trigger] index_of(t).dom().contains(k) <==> index_of(s).insert(x.0@, x.1@).dom().contains(k) by {
            if index_of(t).dom().contains(k) {
                let j = choose|j: int| 0 <= j < t.len() && t[j].0@ == k;
                if j != i {
                    assert(s[j].0@ == k);
                }
            }
            if index_of(s).dom().contains(k) {
                let j = choose|j: int| 0 <= j < s.len() && s[j].0@ == k;
                if j != i {
                    assert(t[j].0@ == k);
                } else {
                    assert(t[i].0@ == k);
                }
            }
            if k == x.0@ {
                assert(t[i].0@ == k);
            }
        }
        assert forall|k: Seq<char>| #[trigger] index_of(t).dom().contains(k) implies index_of(t)[k] == index_of(s).insert(x.0@, x.1@)[k] by {
            let j = choose|j: int| 0 <= j < t.len() && t[j].0@ == k;
            assert(index_of(t)[t[j].0@] == t[j].1@);
            if j != i {
                assert(index_of(s)[s[j].0@] == s[j].1@);
                assert(s[j].0@ != s[i].0@);
            }
        }
    }
}

proof fn lemma_index_push(s: Seq<(String, CacheEntry)>, x: (String, CacheEntry))
    requires
        unique_keys(s),
        forall|i: int| 0 <= i < s.len() ==> s[i].0@ != x.0@,
    ensures
        unique_keys(s.push(x)),
        index_of(s.push(x)) == index_of(s).insert(x.0@, x.1@),
{
    assert(s.push(x).drop_last() =~= s);
}

/// The cache as values: its index and whether it is turned off.
pub struct CacheView {
    pub index: Map<Seq<char>, CacheEntryView>,
    pub disabled: bool,
}

/// The entry a lookup answers: none when the cache is off, else the entry
/// under the key.
pub open spec fn cache_lookup(
    c: CacheView,
    hash: Seq<char>,
    provider: Seq<char>,
    ranges: Option<Seq<(u32, u32)>>,
) -> Option<CacheEntryView> {
    let k = cache_key(hash, provider, ranges);
    if c.disabled || !c.index.dom().contains(k) {
        None
    } else {
        Some(c.index[k])
    }
}

/// The cache after storing an entry under its key (unchanged when off).
pub open spec fn cache_store(
    c: CacheView,
    hash: Seq<char>,
    provider: Seq<char>,
    ranges: Option<Seq<(u32, u32)>>,
    entry: CacheEntryView,
) -> CacheView {
    if c.disabled {
        c
    } else {
        CacheView { index: c.index.insert(cache_key(hash, provider, ranges), entry), disabled: false }
    }
}

/// The cache manager: the index of entries (loaded from and saved to disk by
/// its caller) and whether the cache is turned off.
pub struct CacheManager {
    entries: Vec<(String, CacheEntry)>,
    disabled: bool,
}

impl CacheManager {
    /// The entries are under distinct keys.
    #[verifier::type_invariant]
    spec fn unique(&self) -> bool {
        unique_keys(self.entries@)
    }
}

impl View for CacheManager {
    type V = CacheView;

    closed spec fn view(&self) -> CacheView {
        CacheView { index: index_of(self.entries@), disabled: self.disabled }
    }
}

impl CacheManager {
    /// An empty cache.
    pub fn new(disabled: bool) -> (r: CacheManager)
        ensures
            r@.index == Map::<Seq<char>, CacheEntryView>::empty(),
            r@.disabled == disabled,
    {
        CacheManager { entries: Vec::new(), disabled }
    }

    /// A cache holding the given (key, entry) pairs; a later pair under a key
    /// replaces an earlier one.
    pub fn from_entries(entries: Vec<(String, CacheEntry)>, disabled: bool) -> (r: CacheManager)
        ensures
            r@.index == index_of(entries@),
            r@.disabled == disabled,
    {
        let mut m = CacheManager::new(disabled);
        let ghost all = entries@;
        let mut rest = entries;
        assert(index_of(all.take(0)) =~= Map::<Seq<char>, CacheEntryView>::empty());
        assert(rest@ =~= all.skip(0));
        while rest.len() > 0
            invariant
                rest@.len() <= all.len(),
                rest@ == all.skip(all.len() - rest@.len()),
                m@.index == index_of(all.take(all.len() - rest@.len())),
                m@.disabled == disabled,
            decreases rest@.len(),
        {
            let ghost n = all.len() - rest@.len();
            let (k, e) = rest.remove(0);
            assert(all.skip(n)[0] == all[n]);
            assert(all.take(n + 1).drop_last() =~= all.take(n));
            assert(rest@ =~= all.skip(n + 1));
            m.insert(k, e);
        }
        assert(all.take(all.len() as int) =~= all);
        m
    }

    /// Whether the cache is turned off.
    pub fn is_disabled(&self) -> (r: bool)
        ensures
            r == self@.disabled,
    {
        self.disabled
    }

    /// The number of entries.
    pub fn entry_count(&self) -> (r: usize)
        ensures
            self@.index.dom().finite(),
            r == self@.index.dom().len(),
    {
        proof {
            use_type_invariant(self);
            lemma_index_of(self.entries@);
        }
        self.entries.len()
    }

    /// The entries under their keys, for saving.
    pub fn index_entries(&self) -> (r: &Vec<(String, CacheEntry)>)
        ensures
            index_of(r@) == self@.index,
            unique_keys(r@),
    {
        proof {
            use_type_invariant(self);
        }
        &self.entries
    }

    fn find_key(&self, key: &String) -> (r: Option<usize>)
        ensures
            match r {
                Some(i) => i < self.entries@.len() && self.entries@[i as int].0@ == key@,
                None => forall|i: int| 0 <= i < self.entries@.len() ==> self.entries@[i].0@ != key@,
            },
    {
        let mut i: usize = 0;
        while i < self.entries.len()
            invariant
                i <= self.entries.len(),
                forall|j: int| 0 <= j < i ==> self.entries@[j].0@ != key@,
            decreases self.entries.len() - i,
        {
            if self.entries[i].0 == *key {
                return Some(i);
            }
            i = i + 1;
        }
        None
    }

    /// Stores an entry under `key`, replacing the one there.
    pub fn insert(&mut self, key: String, entry: CacheEntry)
        ensures
            final(self)@.index == old(self)@.index.insert(key@, entry@),
            final(self)@.disabled == old(self)@.disabled,
    {
        proof {
            use_type_invariant(&*self);
            lemma_index_of(self.entries@);
        }
        let found = self.find_key(&key);
        let mut entries: Vec<(String, CacheEntry)> = Vec::new();
        std::mem::swap(&mut entries, &mut self.entries);
        match found {
            Some(i) => {
                proof {
                    lemma_index_update(entries@, i as int, (key, entry));
                }
                entries.set(i, (key, entry));
            },
            None => {
                proof {
                    lemma_index_push(entries@, (key, entry));
                }
                entries.push((key, entry));
            },
        }
        self.entries = entries;
    }

    /// The entry stored for the input hash, provider and page ranges; none
    /// when the cache is off.
    pub fn get(&self, hash: &str, provider: &str, page_ranges: &Option<Vec<(u32, u32)>>) -> (r:
        Option<CacheEntry>)
        ensures
            match r {
                Some(e) => cache_lookup(self@, hash@, provider@, ranges_view(*page_ranges))
                    == Some(e@),
                None => cache_lookup(self@, hash@, provider@, ranges_view(*page_ranges)) is None,
            },
    {
        proof {
            use_type_invariant(self);
            lemma_index_of(self.entries@);
        }
        if self.disabled {
            return None;
        }
        let key = CacheManager::generate_cache_key(hash, provider, page_ranges);
        match self.find_key(&key) {
            Some(i) => Some(self.entries[i].1.duplicate()),
            None => None,
        }
    }

    /// Stores a new entry for the input hash, provider and page ranges, with
    /// the given Markdown and images; nothing happens when the cache is off.
    pub fn put(
        &mut self,
        hash: String,
        input: String,
        provider: String,
        page_ranges: Option<Vec<(u32, u32)>>,
        markdown: String,
        images: Vec<(String, String)>,
    )
        ensures
            old(self)@.disabled ==> final(self)@ == old(self)@,
            !old(self)@.disabled ==> exists|e: CacheEntryView|
                {
                    &&& e.hash == hash@
                    &&& e.input == input@
                    &&& e.provider == provider@
                    &&& e.page_ranges == ranges_view(page_ranges)
                    &&& e.markdown == markdown@
                    &&& e.images == pairs_view(images@)
                    &&& final(self)@ == cache_store(
                        old(self)@,
                        hash@,
                        provider@,
                        ranges_view(page_ranges),
                        e,
                    )
                },
    {
        if self.disabled {
            return ;
        }
        let key = CacheManager::generate_cache_key(hash.as_str(), provider.as_str(), &page_ranges);
        let ranges_copy = copy_ranges(&page_ranges);
        let entry = CacheEntry::new(hash, input, provider, ranges_copy, markdown, images);
        let ghost e = entry@;
        self.insert(key, entry);
        assert(self@ == cache_store(
            old(self)@,
            e.hash,
            e.provider,
            e.page_ranges,
            e,
        ));
    }

    /// The key an entry is stored under, as `cache_key` describes.
    pub fn generate_cache_key(hash: &str, provider: &str, page_ranges: &Option<Vec<(u32, u32)>>) -> (r:
        String)
        ensures
            r@ == cache_key(hash@, provider@, ranges_view(*page_ranges)),
    {
        let mut key = chars_of(hash);
        append_chars(&mut key, &chars_of(":"));
        append_chars(&mut key, &chars_of(provider));
        match page_ranges {
            Some(ranges) => {
                append_chars(&mut key, &chars_of(":"));
                append_chars(&mut key, &ranges_text_exec(ranges));
            },
            None => {},
        }
        string_of(&key)
    }

    /// The hash of a URL input: hexadecimal SHA-256 of its UTF-8 bytes.
    pub fn compute_url_hash(url: &str) -> (r: String)
        ensures
            r@ == sha256_hex(url.spec_bytes()),
    {
        sha256_hex_of(url.as_bytes())
    }

    /// The hash of a file input: hexadecimal SHA-256 of its content.
    pub fn compute_file_hash(content: &[u8]) -> (r: String)
        ensures
            r@ == sha256_hex(content@),
    {
        sha256_hex_of(content)
    }

    /// The name an image is stored under: the hexadecimal SHA-256 of its
    /// content.
    pub fn image_cache_name(content: &[u8]) -> (r: String)
        ensures
            r@ == sha256_hex(content@),
    {
        sha256_hex_of(content)
    }
}

/// Reading back what was stored gives it: after storing an entry for a hash,
/// provider and page ranges in a cache that is on, a lookup with the same
/// hash, provider and ranges answers that entry; a cache that is off answers
/// nothing.
pub proof fn law_get_after_put(
    c: CacheView,
    hash: Seq<char>,
    provider: Seq<char>,
    ranges: Option<Seq<(u32, u32)>>,
    e: CacheEntryView,
)
    ensures
        cache_lookup(cache_store(c, hash, provider, ranges, e), hash, provider, ranges) == if c.disabled {
            None
        } else {
            Some(e)
        },
{
}

/// Storing an entry leaves every entry under another key as it was.
pub proof fn law_put_keeps_other_keys(
    c: CacheView,
    hash: Seq<char>,
    provider: Seq<char>,
    ranges: Option<Seq<(u32, u32)>>,
    e: CacheEntryView,
    hash2: Seq<char>,
    provider2: Seq<char>,
    ranges2: Option<Seq<(u32, u32)>>,
)
    requires
        cache_key(hash, provider, ranges) != cache_key(hash2, provider2, ranges2),
    ensures
        cache_lookup(cache_store(c, hash, provider, ranges, e), hash2, provider2, ranges2)
            == cache_lookup(c, hash2, provider2, ranges2),
{
}


proof fn lemma_range_part(p: (u32, u32))
    ensures
        range_part(p).len() >= 1,
        lacks(range_part(p), ','),
        lacks(range_part(p), ':'),
        range_part(p) == decimal(p.0 as nat) + seq!['-'] + decimal(p.1 as nat),
{
    reveal_strlit("-");
    lemma_decimal_digits(p.0 as nat);
    lemma_decimal_digits(p.1 as nat);
    assert("-"@ =~= seq!['-']);
    let a = decimal(p.0 as nat);
    let b = decimal(p.1 as nat);
    let t = a + seq!['-'] + b;
    assert forall|i: int| 0 <= i < t.len() implies t[i] != ',' && t[i] != ':' by {
        if i < a.len() {
            assert(48 <= a[i] as u32 <= 57);
        } else if i > a.len() {
            assert(t[i] == b[i - a.len() - 1]);
            assert(48 <= b[i - a.len() - 1] as u32 <= 57);
        }
    }
}

proof fn lemma_range_part_injective(p: (u32, u32), q: (u32, u32))
    requires
        range_part(p) == range_part(q),
    ensures
        p == q,
{
    lemma_range_part(p);
    lemma_range_part(q);
    lemma_decimal_digits(p.0 as nat);
    lemma_decimal_digits(q.0 as nat);
    assert(lacks(decimal(p.0 as nat), '-')) by {
        assert forall|i: int| 0 <= i < decimal(p.0 as nat).len() implies decimal(p.0 as nat)[i] != '-' by {
            assert(48 <= decimal(p.0 as nat)[i] as u32);
        }
    }
    assert(lacks(decimal(q.0 as nat), '-')) by {
        assert forall|i: int| 0 <= i < decimal(q.0 as nat).len() implies decimal(q.0 as nat)[i] != '-' by {
            assert(48 <= decimal(q.0 as nat)[i] as u32);
        }
    }
    lemma_split_at_first(
        decimal(p.0 as nat),
        decimal(p.1 as nat),
        decimal(q.0 as nat),
        decimal(q.1 as nat),
        '-',
    );
    lemma_decimal_injective(p.0 as nat, q.0 as nat);
    lemma_decimal_injective(p.1 as nat, q.1 as nat);
}

proof fn lemma_ranges_text_lacks(r: Seq<(u32, u32)>, c: char)
    requires
        c == ',' || c == ':',
        r.len() <= 1 || c == ':',
    ensures
        lacks(ranges_text(r), c),
    decreases r.len(),
{
    reveal_strlit(",");
    let parts = r.map_values(|p: (u32, u32)| range_part(p));
    if r.len() == 1 {
        lemma_range_part(r[0]);
    } else if r.len() >= 2 {
        assert(parts.drop_last() =~= r.drop_last().map_values(|p: (u32, u32)| range_part(p)));
        lemma_ranges_text_lacks(r.drop_last(), c);
        lemma_range_part(r.last());
        let j = ranges_text(r.drop_last());
        let t = j + ","@ + parts.last();
        assert forall|i: int| 0 <= i < t.len() implies t[i] != c by {
            if i < j.len() {
            } else if i == j.len() {
            } else {
                assert(t[i] == parts.last()[i - j.len() - 1]);
            }
        }
    }
}

proof fn lemma_ranges_text_injective(r1: Seq<(u32, u32)>, r2: Seq<(u32, u32)>)
    requires
        ranges_text(r1) == ranges_text(r2),
    ensures
        r1 == r2,
    decreases r1.len(),
{
    reveal_strlit(",");
    assert(","@ =~= seq![',']);
    let p1 = r1.map_values(|p: (u32, u32)| range_part(p));
    let p2 = r2.map_values(|p: (u32, u32)| range_part(p));
    if r1.len() >= 1 {
        lemma_range_part(r1.last());
    }
    if r2.len() >= 1 {
        lemma_range_part(r2.last());
    }
    if r1.len() >= 2 {
        assert(p1.drop_last() =~= r1.drop_last().map_values(|p: (u32, u32)| range_part(p)));
    }
    if r2.len() >= 2 {
        assert(p2.drop_last() =~= r2.drop_last().map_values(|p: (u32, u32)| range_part(p)));
    }
    if r1.len() == 0 || r2.len() == 0 {
        assert(r1.len() == 0 && r2.len() == 0);
        assert(r1 =~= r2);
    } else if r1.len() == 1 && r2.len() == 1 {
        lemma_range_part_injective(r1[0], r2[0]);
        assert(r1 =~= r2);
    } else if r1.len() == 1 {
        lemma_ranges_text_lacks(r1, ',');
        let j = ranges_text(r2.drop_last());
        assert(ranges_text(r2)[j.len() as int] == ',');
    } else if r2.len() == 1 {
        lemma_ranges_text_lacks(r2, ',');
        let j = ranges_text(r1.drop_last());
        assert(ranges_text(r1)[j.len() as int] == ',');
    } else {
        lemma_split_at_last(
            ranges_text(r1.drop_last()),
            p1.last(),
            ranges_text(r2.drop_last()),
            p2.last(),
            ',',
        );
        lemma_ranges_text_injective(r1.drop_last(), r2.drop_last());
        lemma_range_part_injective(r1.last(), r2.last());
        assert(r1 =~= r2.drop_last().push(r2.last()));
        assert(r2 =~= r2.drop_last().push(r2.last()));
    }
}

/// Different providers, or different page ranges, give different keys for
/// the same input, as long as provider names hold no `:`.
pub proof fn law_keys_separate_providers_and_ranges(
    hash: Seq<char>,
    provider: Seq<char>,
    ranges: Option<Seq<(u32, u32)>>,
    provider2: Seq<char>,
    ranges2: Option<Seq<(u32, u32)>>,
)
    requires
        lacks(provider, ':'),
        lacks(provider2, ':'),
        provider != provider2 || ranges != ranges2,
    ensures
        cache_key(hash, provider, ranges) != cache_key(hash, provider2, ranges2),
{
    reveal_strlit(":");
    assert(":"@ =~= seq![':']);
    let h = hash.len() as int;
    let k1 = cache_key(hash, provider, ranges);
    let k2 = cache_key(hash, provider2, ranges2);
    if k1 == k2 {
        let t1 = k1.skip(h + 1);
        let t2 = k2.skip(h + 1);
        assert(t1 == t2);
        match (ranges, ranges2) {
            (None, None) => {
                assert(t1 =~= provider);
                assert(t2 =~= provider2);
            },
            (Some(a), Some(b)) => {
                assert(t1 =~= provider + seq![':'] + ranges_text(a));
                assert(t2 =~= provider2 + seq![':'] + ranges_text(b));
                lemma_split_at_first(provider, ranges_text(a), provider2, ranges_text(b), ':');
                lemma_ranges_text_injective(a, b);
            },
            (Some(a), None) => {
                assert(t1 =~= provider + seq![':'] + ranges_text(a));
                assert(t2 =~= provider2);
                assert(provider2[provider.len() as int] == ':');
            },
            (None, Some(b)) => {
                assert(t1 =~= provider);
                assert(t2 =~= provider2 + seq![':'] + ranges_text(b));
                assert(provider[provider2.len() as int] == ':');
            },
        }
    }
}

/// An entry stored for one provider or page ranges is never answered for
/// another provider or other page ranges of the same input (provider names
/// hold no `:`): storing leaves those lookups as they were.
pub proof fn law_put_keeps_other_providers_and_ranges(
    c: CacheView,
    hash: Seq<char>,
    provider: Seq<char>,
    ranges: Option<Seq<(u32, u32)>>,
    e: CacheEntryView,
    provider2: Seq<char>,
    ranges2: Option<Seq<(u32, u32)>>,
)
    requires
        lacks(provider, ':'),
        lacks(provider2, ':'),
        provider != provider2 || ranges != ranges2,
    ensures
        cache_lookup(cache_store(c, hash, provider, ranges, e), hash, provider2, ranges2)
            == cache_lookup(c, hash, provider2, ranges2),
{
    law_keys_separate_providers_and_ranges(hash, provider, ranges, provider2, ranges2);
}

} // verus!
