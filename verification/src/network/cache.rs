//! The image cache's pure parts: per-kind size caps, the byte-bounded LRU
//! that holds payloads in memory, and the on-disk file names.
use vstd::prelude::*;
use crate::hashing::{md5_digest, md5_hex, md5_hex_of, md5_of, push_hex_bytes, hex_of_bytes};
use crate::chars::{push_str_chars, string_from_chars, trim_text, trimmed};
use crate::database::opml::strs_view;

verus! {

/// Largest favicon body accepted: 1 MB.
pub const FAVICON_MAX_BYTES: usize = 1048576;

/// Largest inline image body accepted: 20 MB.
pub const IMAGE_MAX_BYTES: usize = 20971520;

/// Largest video thumbnail body accepted: 4 MB.
pub const VIDEO_THUMB_MAX_BYTES: usize = 4194304;

/// Ceiling on the favicon payloads held in memory: 16 MB.
pub const FAVICON_CACHE_BYTES: usize = 16777216;

/// Ceiling on the image payloads held in memory: 64 MB.
pub const IMAGE_CACHE_BYTES: usize = 67108864;

/// Ceiling on the video thumbnail payloads held in memory: 16 MB.
pub const VIDEO_THUMB_CACHE_BYTES: usize = 16777216;

/// What a cached payload is.
#[derive(Debug, Clone, Copy, PartialEq, Eq, Structural)]
pub enum Kind {
    Favicon,
    Image,
    VideoThumb,
}

impl Kind {
    /// The download size cap of this kind.
    pub fn max_bytes(self) -> (r: usize)
        ensures
            r == (match self {
                Kind::Favicon => FAVICON_MAX_BYTES,
                Kind::Image => IMAGE_MAX_BYTES,
                Kind::VideoThumb => VIDEO_THUMB_MAX_BYTES,
            }),
    {
        match self {
            Kind::Favicon => FAVICON_MAX_BYTES,
            Kind::Image => IMAGE_MAX_BYTES,
            Kind::VideoThumb => VIDEO_THUMB_MAX_BYTES,
        }
    }

    /// The in-memory ceiling of this kind.
    pub fn cache_bytes(self) -> (r: usize)
        ensures
            r == (match self {
                Kind::Favicon => FAVICON_CACHE_BYTES,
                Kind::Image => IMAGE_CACHE_BYTES,
                Kind::VideoThumb => VIDEO_THUMB_CACHE_BYTES,
            }),
    {
        match self {
            Kind::Favicon => FAVICON_CACHE_BYTES,
            Kind::Image => IMAGE_CACHE_BYTES,
            Kind::VideoThumb => VIDEO_THUMB_CACHE_BYTES,
        }
    }
}

/// The cache file name of `url`: the lowercase hexadecimal MD5 of its
/// UTF-8 bytes.
pub open spec fn cache_name(url: Seq<char>) -> Seq<char> {
    md5_hex(vstd::utf8::encode_utf8(url))
}

pub fn cache_filename(url: &str) -> (r: String)
    ensures
        r@ == cache_name(url@),
        r@.len() == 32,
{
    md5_hex_of(url.as_bytes())
}

/// A deterministic `#rrggbb` accent color for `s`: the first three bytes
/// of its MD5.
pub open spec fn accent_color(s: Seq<char>) -> Seq<char> {
    seq!['#'] + hex_of_bytes(md5_of(vstd::utf8::encode_utf8(s)).take(3))
}

pub fn color_for(s: &str) -> (r: String)
    ensures
        r@ == accent_color(s@),
{
    let d = md5_digest(s.as_bytes());
    let mut out: Vec<char> = Vec::new();
    out.push('#');
    push_hex_bytes(&mut out, d.as_slice(), 0, 3);
    assert(d@.subrange(0, 3) =~= d@.take(3));
    string_from_chars(out.as_slice())
}

/// `live` with each of `urls` that is not blank added as its cache file
/// name, skipping names already present.
pub open spec fn live_names(urls: Seq<Seq<char>>) -> Seq<Seq<char>>
    decreases urls.len(),
{
    if urls.len() == 0 {
        Seq::empty()
    } else {
        let prev = live_names(urls.drop_last());
        let u = urls.last();
        if trimmed(u).len() == 0 || prev.contains(cache_name(u)) {
            prev
        } else {
            prev.push(cache_name(u))
        }
    }
}

/// The cache file names of the non-blank `urls`, each once: the live set
/// the targeted favicon sweep keeps.
pub fn live_filenames_for(urls: &Vec<String>) -> (r: Vec<String>)
    ensures
        strs_view(r@) == live_names(strs_view(urls@)),
{
    let mut r: Vec<String> = Vec::new();
    let mut i: usize = 0;
    assert(strs_view(urls@.take(0)) =~= Seq::<Seq<char>>::empty());
    assert(strs_view(r@) =~= Seq::<Seq<char>>::empty());
    while i < urls.len()
        invariant
            i <= urls@.len(),
            strs_view(r@) == live_names(strs_view(urls@.take(i as int))),
        decreases urls@.len() - i,
    {
        assert(strs_view(urls@.take(i + 1)).drop_last() =~= strs_view(urls@.take(i as int)));
        assert(strs_view(urls@.take(i + 1)).last() == urls@[i as int]@);
        let t = trim_text(urls[i].as_str());
        if !t.as_str().is_empty() {
            let name = cache_filename(urls[i].as_str());
            if !crate::database::opml::contains_string(&r, &name) {
                let ghost r0 = r@;
                r.push(name);
                assert(strs_view(r@) =~= strs_view(r0).push(r@.last()@));
            }
        }
        i += 1;
    }
    assert(urls@.take(i as int) =~= urls@);
    r
}

#[verifier::external_type_specification]
#[verifier::external_body]
#[verifier::reject_recursive_types(K)]
#[verifier::reject_recursive_types(V)]
#[verifier::reject_recursive_types(S)]
pub struct ExLruCache<K, V, S>(lru::LruCache<K, V, S>);

#[verifier::external_type_specification]
#[verifier::external_body]
pub struct ExLruDefaultHasher(lru::DefaultHasher);

/// The entries of an LRU cache, least recently used first.
pub uninterp spec fn lru_entries(c: lru::LruCache<String, Vec<u8>>) -> Seq<(Seq<char>, Seq<u8>)>;

/// The capacity an LRU cache was made with: the number of entries it holds
/// before `put` evicts to make room.
pub uninterp spec fn lru_capacity(c: lru::LruCache<String, Vec<u8>>) -> nat;

/// No two entries share a key.
pub open spec fn keys_unique(e: Seq<(Seq<char>, Seq<u8>)>) -> bool {
    forall|i: int, j: int| 0 <= i < j < e.len() ==> #[trigger] e[i].0 != #[trigger] e[j].0
}

/// Index of the entry with key `k`, or -1.
pub open spec fn key_index(e: Seq<(Seq<char>, Seq<u8>)>, k: Seq<char>) -> int
    decreases e.len(),
{
    if e.len() == 0 {
        -1
    } else if e.last().0 == k {
        e.len() - 1
    } else {
        key_index(e.drop_last(), k)
    }
}

/// Trusted: `lru::LruCache::unbounded()`, an empty cache whose capacity
/// is `usize::MAX`, so it never evicts on its own.
#[verifier::external_body]
fn lru_unbounded() -> (c: lru::LruCache<String, Vec<u8>>)
    ensures
        lru_entries(c) == Seq::<(Seq<char>, Seq<u8>)>::empty(),
        lru_capacity(c) == usize::MAX,
{
    lru::LruCache::unbounded()
}

/// Trusted: `LruCache::get`: for a present key, moves its entry to the
/// most recently used end and returns a copy of its value; otherwise
/// changes nothing.
#[verifier::external_body]
fn lru_get(c: &mut lru::LruCache<String, Vec<u8>>, key: &str) -> (r: Option<Vec<u8>>)
    requires
        keys_unique(lru_entries(*old(c))),
    ensures
        lru_capacity(*final(c)) == lru_capacity(*old(c)),
        ({
            let e = lru_entries(*old(c));
            let i = key_index(e, key@);
            if i >= 0 {
                &&& r matches Some(v) && v@ == e[i].1
                &&& lru_entries(*final(c)) == e.remove(i).push(e[i])
            } else {
                &&& r is None
                &&& lru_entries(*final(c)) == e
            }
        }),
{
    c.get(key).cloned()
}

/// Trusted: `LruCache::put`: a present key has its value replaced (the old
/// one returned) and moves to the most recently used end; a new key is
/// added there. Only a new key put into a cache holding as many entries as
/// its capacity evicts one, which `requires` leaves out.
#[verifier::external_body]
fn lru_put(c: &mut lru::LruCache<String, Vec<u8>>, key: String, value: Vec<u8>) -> (r: Option<Vec<u8>>)
    requires
        keys_unique(lru_entries(*old(c))),
        key_index(lru_entries(*old(c)), key@) >= 0 || lru_entries(*old(c)).len() < lru_capacity(*old(c)),
    ensures
        lru_capacity(*final(c)) == lru_capacity(*old(c)),
        ({
            let e = lru_entries(*old(c));
            let i = key_index(e, key@);
            if i >= 0 {
                &&& r matches Some(v) && v@ == e[i].1
                &&& lru_entries(*final(c)) == e.remove(i).push((key@, value@))
            } else {
                &&& r is None
                &&& lru_entries(*final(c)) == e.push((key@, value@))
            }
        }),
{
    c.put(key, value)
}

/// Trusted: `LruCache::pop_lru`, which removes and returns the least
/// recently used entry, if any.
#[verifier::external_body]
fn lru_pop_lru(c: &mut lru::LruCache<String, Vec<u8>>) -> (r: Option<(String, Vec<u8>)>)
    ensures
        lru_capacity(*final(c)) == lru_capacity(*old(c)),
        ({
            let e = lru_entries(*old(c));
            if e.len() > 0 {
                &&& r matches Some(p) && p.0@ == e[0].0 && p.1@ == e[0].1
                &&& lru_entries(*final(c)) == e.drop_first()
            } else {
                &&& r is None
                &&& lru_entries(*final(c)) == e
            }
        }),
{
    c.pop_lru()
}

/// Trusted: `LruCache::len`, the number of entries.
#[verifier::external_body]
fn lru_len(c: &lru::LruCache<String, Vec<u8>>) -> (n: usize)
    ensures
        n == lru_entries(*c).len(),
{
    c.len()
}

/// Trusted: `LruCache::clear`, which removes every entry and keeps the
/// capacity.
#[verifier::external_body]
fn lru_clear(c: &mut lru::LruCache<String, Vec<u8>>)
    ensures
        lru_capacity(*final(c)) == lru_capacity(*old(c)),
        lru_entries(*final(c)) == Seq::<(Seq<char>, Seq<u8>)>::empty(),
{
    c.clear()
}

/// Total payload bytes of the entries.
pub open spec fn total_bytes(e: Seq<(Seq<char>, Seq<u8>)>) -> nat
    decreases e.len(),
{
    if e.len() == 0 {
        0
    } else {
        total_bytes(e.drop_last()) + e.last().1.len()
    }
}

/// Eviction from the least recently used end while the total is over
/// `max` and more than one entry remains.
pub open spec fn evicted(e: Seq<(Seq<char>, Seq<u8>)>, max: nat) -> Seq<(Seq<char>, Seq<u8>)>
    decreases e.len(),
{
    if total_bytes(e) > max && e.len() > 1 {
        evicted(e.drop_first(), max)
    } else {
        e
    }
}

/// An LRU over byte payloads bounded by their total size rather than
/// their count: entries are evicted least recently used first until the
/// total is back under the ceiling, always keeping the newest entry.
pub struct ByteLru {
    inner: lru::LruCache<String, Vec<u8>>,
    bytes: usize,
    max_bytes: usize,
}

impl ByteLru {
    /// The entries, least recently used first.
    pub closed spec fn entries(&self) -> Seq<(Seq<char>, Seq<u8>)> {
        lru_entries(self.inner)
    }

    /// The ceiling.
    pub closed spec fn ceiling(&self) -> nat {
        self.max_bytes as nat
    }

    /// The running total equals the entries' total, and keys are unique.
    pub closed spec fn wf(&self) -> bool {
        &&& self.bytes == total_bytes(lru_entries(self.inner))
        &&& keys_unique(lru_entries(self.inner))
        &&& lru_capacity(self.inner) == usize::MAX
    }

    /// An empty cache with ceiling `max_bytes`.
    pub fn new(max_bytes: usize) -> (c: ByteLru)
        ensures
            c.wf(),
            c.entries() == Seq::<(Seq<char>, Seq<u8>)>::empty(),
            c.ceiling() == max_bytes,
    {
        ByteLru { inner: lru_unbounded(), bytes: 0, max_bytes }
    }

    /// The total payload bytes held.
    pub fn bytes(&self) -> (n: usize)
        requires
            self.wf(),
        ensures
            n == total_bytes(self.entries()),
    {
        self.bytes
    }

    /// The number of entries.
    pub fn len(&self) -> (n: usize)
        ensures
            n == self.entries().len(),
    {
        lru_len(&self.inner)
    }

    /// The payload for `key`, marking it most recently used.
    pub fn get(&mut self, key: &str) -> (r: Option<Vec<u8>>)
        requires
            old(self).wf(),
        ensures
            final(self).wf(),
            final(self).ceiling() == old(self).ceiling(),
            ({
                let e = old(self).entries();
                let i = key_index(e, key@);
                if i >= 0 {
                    &&& r matches Some(v) && v@ == e[i].1
                    &&& final(self).entries() == e.remove(i).push(e[i])
                } else {
                    &&& r is None
                    &&& final(self).entries() == e
                }
            }),
    {
        let ghost e = lru_entries(self.inner);
        proof {
            lemma_key_index(e, key@);
        }
        let r = lru_get(&mut self.inner, key);
        proof {
            let i = key_index(e, key@);
            if i >= 0 {
                lemma_total_remove_push(e, i, e[i]);
                lemma_unique_remove_push(e, i, e[i]);
            }
        }
        r
    }

    /// Stores `value` under `key` (replacing any old value), then evicts
    /// least recently used entries while the total is over the ceiling and
    /// more than one entry remains.
    pub fn put(&mut self, key: String, value: Vec<u8>)
        requires
            old(self).wf(),
            total_bytes(old(self).entries()) + value@.len() <= usize::MAX,
            old(self).entries().len() < usize::MAX,
        ensures
            final(self).wf(),
            final(self).ceiling() == old(self).ceiling(),
            final(self).entries() == evicted(
                {
                    let e = old(self).entries();
                    let i = key_index(e, key@);
                    if i >= 0 {
                        e.remove(i).push((key@, value@))
                    } else {
                        e.push((key@, value@))
                    }
                },
                old(self).ceiling(),
            ),
            total_bytes(final(self).entries()) <= final(self).ceiling() || final(self).entries().len() == 1,
            final(self).entries().len() > 0 && final(self).entries().last() == (key@, value@),
    {
        let ghost e = lru_entries(self.inner);
        let ghost k = key@;
        let ghost v = value@;
        proof {
            lemma_key_index(e, k);
        }
        let added = value.len();
        let replaced = lru_put(&mut self.inner, key, value);
        proof {
            let i = key_index(e, k);
            if i >= 0 {
                lemma_total_remove_push(e, i, (k, v));
                lemma_unique_remove_push(e, i, (k, v));
            } else {
                lemma_unique_push_new(e, k, v);
                lemma_total_push(e, (k, v));
            }
        }
        match replaced {
            Some(old) => {
                proof {
                    lemma_total_entry(e, key_index(e, k));
                }
                self.bytes = self.bytes - old.len();
            },
            None => {},
        }
        self.bytes = self.bytes + added;
        let ghost e1 = lru_entries(self.inner);
        assert(self.bytes == total_bytes(e1));
        let ghost max0 = self.max_bytes;
        while self.bytes > self.max_bytes && lru_len(&self.inner) > 1
            invariant
                self.max_bytes == max0,
                self.bytes == total_bytes(lru_entries(self.inner)),
                keys_unique(lru_entries(self.inner)),
                lru_capacity(self.inner) == usize::MAX,
                evicted(e1, self.max_bytes as nat) == evicted(lru_entries(self.inner), self.max_bytes as nat),
            decreases lru_entries(self.inner).len(),
        {
            let ghost before = lru_entries(self.inner);
            match lru_pop_lru(&mut self.inner) {
                Some((_, ev)) => {
                    proof {
                        lemma_total_first(before);
                        lemma_unique_drop_first(before);
                    }
                    self.bytes = self.bytes - ev.len();
                },
                None => {
                    assert(before.len() == 0);
                },
            }
        }
        proof {
            lemma_evicted_bounded(e1, max0 as nat);
            assert(e1.len() > 0 && e1.last() == (k, v));
        }
    }

    /// Drops every entry.
    pub fn clear(&mut self)
        requires
            old(self).wf(),
        ensures
            final(self).wf(),
            final(self).ceiling() == old(self).ceiling(),
            final(self).entries() == Seq::<(Seq<char>, Seq<u8>)>::empty(),
    {
        lru_clear(&mut self.inner);
        self.bytes = 0;
    }
}

proof fn lemma_key_index(e: Seq<(Seq<char>, Seq<u8>)>, k: Seq<char>)
    ensures
        -1 <= key_index(e, k) < e.len(),
        key_index(e, k) >= 0 ==> e[key_index(e, k)].0 == k,
        key_index(e, k) < 0 ==> forall|j: int| 0 <= j < e.len() ==> #[trigger] e[j].0 != k,
    decreases e.len(),
{
    if e.len() > 0 && e.last().0 != k {
        lemma_key_index(e.drop_last(), k);
        assert forall|j: int| 0 <= j < e.len() && key_index(e, k) < 0 implies #[trigger] e[j].0 != k by {
            if j < e.len() - 1 {
                assert(e[j] == e.drop_last()[j]);
            }
        }
    }
}

proof fn lemma_total_concat(a: Seq<(Seq<char>, Seq<u8>)>, b: Seq<(Seq<char>, Seq<u8>)>)
    ensures
        total_bytes(a + b) == total_bytes(a) + total_bytes(b),
    decreases b.len(),
{
    if b.len() == 0 {
        assert(a + b =~= a);
    } else {
        assert((a + b).drop_last() =~= a + b.drop_last());
        lemma_total_concat(a, b.drop_last());
    }
}

proof fn lemma_total_entry(e: Seq<(Seq<char>, Seq<u8>)>, i: int)
    requires
        0 <= i < e.len(),
    ensures
        e[i].1.len() <= total_bytes(e),
{
    assert(e =~= e.take(i) + (seq![e[i]] + e.skip(i + 1)));
    lemma_total_concat(e.take(i), seq![e[i]] + e.skip(i + 1));
    lemma_total_concat(seq![e[i]], e.skip(i + 1));
    lemma_total_single(e[i]);
}

proof fn lemma_total_remove_push(e: Seq<(Seq<char>, Seq<u8>)>, i: int, x: (Seq<char>, Seq<u8>))
    requires
        0 <= i < e.len(),
    ensures
        total_bytes(e.remove(i).push(x)) == total_bytes(e) - e[i].1.len() + x.1.len(),
{
    assert(e =~= e.take(i) + (seq![e[i]] + e.skip(i + 1)));
    assert(e.remove(i) =~= e.take(i) + e.skip(i + 1));
    lemma_total_concat(e.take(i), seq![e[i]] + e.skip(i + 1));
    lemma_total_concat(seq![e[i]], e.skip(i + 1));
    lemma_total_concat(e.take(i), e.skip(i + 1));
    lemma_total_single(e[i]);
    lemma_total_push(e.remove(i), x);
}

proof fn lemma_total_first(e: Seq<(Seq<char>, Seq<u8>)>)
    requires
        e.len() > 0,
    ensures
        total_bytes(e.drop_first()) == total_bytes(e) - e[0].1.len(),
{
    assert(e =~= seq![e[0]] + e.drop_first());
    lemma_total_concat(seq![e[0]], e.drop_first());
    lemma_total_single(e[0]);
}

proof fn lemma_total_single(x: (Seq<char>, Seq<u8>))
    ensures
        total_bytes(seq![x]) == x.1.len(),
{
    assert(seq![x].drop_last() =~= Seq::<(Seq<char>, Seq<u8>)>::empty());
    assert(total_bytes(Seq::<(Seq<char>, Seq<u8>)>::empty()) == 0);
}

proof fn lemma_total_push(e: Seq<(Seq<char>, Seq<u8>)>, x: (Seq<char>, Seq<u8>))
    ensures
        total_bytes(e.push(x)) == total_bytes(e) + x.1.len(),
{
    assert(e.push(x).drop_last() =~= e);
}

proof fn lemma_unique_remove_push(e: Seq<(Seq<char>, Seq<u8>)>, i: int, x: (Seq<char>, Seq<u8>))
    requires
        keys_unique(e),
        0 <= i < e.len(),
        x.0 == e[i].0,
    ensures
        keys_unique(e.remove(i).push(x)),
{
    let r = e.remove(i).push(x);
    assert forall|a: int, b: int| 0 <= a < b < r.len() implies #[trigger] r[a].0 != #[trigger] r[b].0 by {
        let ia = if a < i { a } else { a + 1 };
        if b == r.len() - 1 {
            assert(r[a] == e[ia]);
        } else {
            let ib = if b < i { b } else { b + 1 };
            assert(r[a] == e[ia]);
            assert(r[b] == e[ib]);
        }
    }
}

proof fn lemma_unique_push_new(e: Seq<(Seq<char>, Seq<u8>)>, k: Seq<char>, v: Seq<u8>)
    requires
        keys_unique(e),
        key_index(e, k) < 0,
    ensures
        keys_unique(e.push((k, v))),
{
    lemma_key_index(e, k);
    let r = e.push((k, v));
    assert forall|a: int, b: int| 0 <= a < b < r.len() implies #[trigger] r[a].0 != #[trigger] r[b].0 by {
        assert(r[a] == e[a]);
        if b < e.len() {
            assert(r[b] == e[b]);
        }
    }
}

proof fn lemma_unique_drop_first(e: Seq<(Seq<char>, Seq<u8>)>)
    requires
        keys_unique(e),
        e.len() > 0,
    ensures
        keys_unique(e.drop_first()),
{
    let r = e.drop_first();
    assert forall|a: int, b: int| 0 <= a < b < r.len() implies #[trigger] r[a].0 != #[trigger] r[b].0 by {
        assert(r[a] == e[a + 1]);
        assert(r[b] == e[b + 1]);
    }
}


/// After eviction the cache is within its ceiling or down to one entry,
/// and the most recently used entry (the one just stored) is still there.
pub proof fn lemma_evicted_bounded(e: Seq<(Seq<char>, Seq<u8>)>, max: nat)
    ensures
        total_bytes(evicted(e, max)) <= max || evicted(e, max).len() <= 1,
        e.len() > 0 ==> evicted(e, max).len() > 0 && evicted(e, max).last() == e.last(),
        evicted(e, max).len() <= e.len(),
    decreases e.len(),
{
    if total_bytes(e) > max && e.len() > 1 {
        lemma_evicted_bounded(e.drop_first(), max);
    }
}

} // verus!
