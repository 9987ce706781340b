//! Keys and storage of the text-fit caches: FNV-1a hashing of the text and
//! its style parameters, and a bounded first-in-first-out cache.
use vstd::prelude::*;
use vstd::string::StringSliceAdditionalSpecFns;

verus! {

/// Upper bound on the number of entries in a fit cache.
pub const FIT_CACHE_CAP: usize = 2048;

/// FNV-1a 64-bit offset basis.
pub const FNV_OFFSET_BASIS: u64 = 0xcbf2_9ce4_8422_2325;

/// FNV-1a 64-bit prime.
pub const FNV_PRIME: u64 = 0x0000_0100_0000_01b3;

/// A fit-cache key: the text hash, the box width and height (as the bits
/// of their floating-point values) and the font hash.
pub type FitKey = (u64, u32, u32, u64);

/// One FNV-1a step: mix `byte` into `hash`.
pub open spec fn fnv_step(hash: u64, byte: u8) -> u64 {
    (hash ^ (byte as u64)).wrapping_mul(FNV_PRIME)
}

/// `hash` with every byte of `bytes` mixed in, first to last.
pub open spec fn fnv_fold(hash: u64, bytes: Seq<u8>) -> u64
    decreases bytes.len(),
{
    if bytes.len() == 0 {
        hash
    } else {
        fnv_step(fnv_fold(hash, bytes.drop_last()), bytes.last())
    }
}

/// The FNV-1a hash of `bytes`.
pub open spec fn fnv1a_of(bytes: Seq<u8>) -> u64 {
    fnv_fold(FNV_OFFSET_BASIS, bytes)
}

/// The little-endian bytes of `w` (`u32::to_le_bytes`).
pub open spec fn le_bytes(w: u32) -> Seq<u8> {
    seq![
        (w % 256) as u8,
        ((w / 256) % 256) as u8,
        ((w / 65536) % 256) as u8,
        ((w / 16777216) % 256) as u8,
    ]
}

fn fnv_mix(hash: u64, bytes: &[u8]) -> (r: u64)
    ensures
        r == fnv_fold(hash, bytes@),
{
    let mut h = hash;
    let mut i: usize = 0;
    while i < bytes.len()
        invariant
            i <= bytes@.len(),
            h == fnv_fold(hash, bytes@.take(i as int)),
        decreases bytes@.len() - i,
    {
        assert(bytes@.take(i + 1).drop_last() =~= bytes@.take(i as int));
        h = (h ^ (bytes[i] as u64)).wrapping_mul(FNV_PRIME);
        i = i + 1;
    }
    assert(bytes@.take(bytes@.len() as int) =~= bytes@);
    h
}

/// The FNV-1a hash of the UTF-8 bytes of `content`.
pub fn fnv1a(content: &str) -> (r: u64)
    ensures
        r == fnv1a_of(content.spec_bytes()),
{
    fnv_mix(FNV_OFFSET_BASIS, content.as_bytes())
}

fn word_bytes(w: u32) -> (r: [u8; 4])
    ensures
        r@ == le_bytes(w),
{
    let r = [(w % 256) as u8, ((w / 256) % 256) as u8, ((w / 65536) % 256) as u8, ((w / 16777216) % 256) as u8];
    assert(r@ =~= le_bytes(w));
    r
}

/// The text hash of a fit key that also depends on the line-height
/// multiplier and the letter spacing, given as the bits of their
/// floating-point values: the FNV-1a hash of the text continued over the
/// little-endian bytes of both words.
pub fn text_key(text: &str, line_height_bits: u32, letter_spacing_bits: u32) -> (r: u64)
    ensures
        r == fnv_fold(
            fnv1a_of(text.spec_bytes()),
            le_bytes(line_height_bits) + le_bytes(letter_spacing_bits),
        ),
{
    let h = fnv1a(text);
    let a = word_bytes(line_height_bits);
    let b = word_bytes(letter_spacing_bits);
    let h1 = fnv_mix(h, &a);
    let h2 = fnv_mix(h1, &b);
    proof {
        lemma_fnv_fold_append(h, a@, b@);
    }
    h2
}

/// Mixing in `a + b` is mixing in `a`, then `b`.
pub proof fn lemma_fnv_fold_append(h: u64, a: Seq<u8>, b: Seq<u8>)
    ensures
        fnv_fold(h, a + b) == fnv_fold(fnv_fold(h, a), b),
    decreases b.len(),
{
    if b.len() == 0 {
        assert(a + b =~= a);
    } else {
        lemma_fnv_fold_append(h, a, b.drop_last());
        assert((a + b).drop_last() =~= a + b.drop_last());
    }
}

/// The key of a fit at the box whose width and height have the bits
/// `width_bits` and `height_bits`, for the font that hashes to `font_hash`.
pub fn fit_key(text: &str, width_bits: u32, height_bits: u32, font_hash: u64) -> (r: FitKey)
    ensures
        r == (fnv1a_of(text.spec_bytes()), width_bits, height_bits, font_hash),
{
    (fnv1a(text), width_bits, height_bits, font_hash)
}

/// Like `fit_key`, but distinct per line-height / letter-spacing pair.
pub fn fit_key_params(
    text: &str,
    width_bits: u32,
    height_bits: u32,
    font_hash: u64,
    line_height_bits: u32,
    letter_spacing_bits: u32,
) -> (r: FitKey)
    ensures
        r == (
            fnv_fold(
                fnv1a_of(text.spec_bytes()),
                le_bytes(line_height_bits) + le_bytes(letter_spacing_bits),
            ),
            width_bits,
            height_bits,
            font_hash,
        ),
{
    (text_key(text, line_height_bits, letter_spacing_bits), width_bits, height_bits, font_hash)
}

} // verus!

verus! {

/// One cached fit: its key, the exact text it was computed for, and the
/// cached value.
pub struct FitCacheEntry<V> {
    pub key: FitKey,
    pub content: String,
    pub value: V,
}

/// A bounded cache keyed by `FitKey`: at most `FIT_CACHE_CAP` entries, one
/// per key; when full, adding a new key evicts the oldest entry.
/// Entries are kept in a `Vec`, oldest first, which gives both the lookup
/// and the eviction order: vstd specifies `HashMap` lookups only for keys
/// of primitive type, and a `FitKey` is a tuple.
pub struct FitCache<V> {
    entries: Vec<FitCacheEntry<V>>,
}

/// What a fit cache holds, oldest entry first.
pub type FitCacheView<V> = Seq<(FitKey, Seq<char>, V)>;

/// Whether some entry of `s` has the key `key`.
pub open spec fn has_key<V>(s: FitCacheView<V>, key: FitKey) -> bool {
    exists|i: int| 0 <= i < s.len() && (#[trigger] s[i]).0 == key
}

/// Whether no two entries of `s` share a key.
pub open spec fn keys_unique<V>(s: FitCacheView<V>) -> bool {
    forall|i: int, j: int| 0 <= i < j < s.len() ==> (#[trigger] s[i]).0 != (#[trigger] s[j]).0
}

/// The cache `s` after storing `value` for `key` and `content`: an entry
/// with that key is replaced in place; otherwise, the oldest entry is
/// evicted when the cache is full and the new entry becomes the newest.
pub open spec fn cache_after_insert<V>(
    s: FitCacheView<V>,
    key: FitKey,
    content: Seq<char>,
    value: V,
) -> FitCacheView<V> {
    if has_key(s, key) {
        let i = choose|i: int| 0 <= i < s.len() && (#[trigger] s[i]).0 == key;
        s.update(i, (key, content, value))
    } else if s.len() >= FIT_CACHE_CAP {
        s.drop_first().push((key, content, value))
    } else {
        s.push((key, content, value))
    }
}

impl<V> View for FitCache<V> {
    type V = FitCacheView<V>;

    closed spec fn view(&self) -> FitCacheView<V> {
        self.entries@.map_values(|e: FitCacheEntry<V>| (e.key, e.content@, e.value))
    }
}

fn same_key(a: &FitKey, b: &FitKey) -> (r: bool)
    ensures
        r == (*a == *b),
{
    a.0 == b.0 && a.1 == b.1 && a.2 == b.2 && a.3 == b.3
}

impl<V> FitCache<V> {
    #[verifier::type_invariant]
    spec fn bounded(&self) -> bool {
        &&& self@.len() <= FIT_CACHE_CAP
        &&& keys_unique(self@)
    }

    /// An empty cache.
    pub fn new() -> (r: Self)
        ensures
            r@.len() == 0,
    {
        let r = FitCache { entries: Vec::new() };
        assert(r@ =~= Seq::empty());
        r
    }

    /// The number of cached entries.
    pub fn len(&self) -> (r: usize)
        ensures
            r == self@.len(),
    {
        self.entries.len()
    }

    /// The value cached for `key`, provided it was computed for exactly the
    /// text `content`.
    pub fn get(&self, key: FitKey, content: &str) -> (r: Option<&V>)
        ensures
            match r {
                Some(v) => exists|i: int|
                    0 <= i < self@.len() && (#[trigger] self@[i]) == (key, content@, *v),
                None => forall|i: int|
                    0 <= i < self@.len() ==> !((#[trigger] self@[i]).0 == key && self@[i].1
                        == content@),
            },
    {
        let wanted = content.to_owned();
        let mut i: usize = 0;
        while i < self.entries.len()
            invariant
                i <= self@.len(),
                self@.len() == self.entries@.len(),
                wanted@ == content@,
                forall|k: int|
                    0 <= k < i ==> !((#[trigger] self@[k]).0 == key && self@[k].1 == content@),
            decreases self@.len() - i,
        {
            let e = &self.entries[i];
            if same_key(&e.key, &key) {
                if e.content == wanted {
                    assert(self@[i as int] == (key, content@, e.value));
                    return Some(&e.value);
                }
            }
            i = i + 1;
        }
        None
    }

    /// Stores `value` for `key`, computed for the text `content`.
    pub fn insert(&mut self, key: FitKey, content: String, value: V)
        ensures
            final(self)@ == cache_after_insert(old(self)@, key, content@, value),
            old(self)@.len() <= FIT_CACHE_CAP,
            keys_unique(old(self)@),
            final(self)@.len() <= FIT_CACHE_CAP,
            keys_unique(final(self)@),
    {
        proof {
            use_type_invariant(&*self);
        }
        let mut found: Option<usize> = None;
        let mut i: usize = 0;
        while i < self.entries.len()
            invariant
                i <= self@.len(),
                self@.len() == self.entries@.len(),
                match found {
                    Some(k) => k < i && self@[k as int].0 == key,
                    None => forall|k: int| 0 <= k < i ==> (#[trigger] self@[k]).0 != key,
                },
            decreases self@.len() - i,
        {
            if found.is_none() && same_key(&self.entries[i].key, &key) {
                found = Some(i);
            }
            i = i + 1;
        }
        let ghost before = self@;
        let ghost content_view = content@;
        let entry = FitCacheEntry { key, content, value };
        let mut entries: Vec<FitCacheEntry<V>> = Vec::new();
        std::mem::swap(&mut entries, &mut self.entries);
        let ghost view_of = |es: Seq<FitCacheEntry<V>>|
            es.map_values(|e: FitCacheEntry<V>| (e.key, e.content@, e.value));
        assert(view_of(entries@) == before);
        match found {
            Some(k) => {
                entries.set(k, entry);
                proof {
                    let j = choose|j: int| 0 <= j < before.len() && (#[trigger] before[j]).0 == key;
                    assert(j == k);
                    assert(view_of(entries@) =~= cache_after_insert(before, key, content_view, value));
                }
            },
            None => {
                if entries.len() >= FIT_CACHE_CAP {
                    entries.remove(0);
                }
                entries.push(entry);
                proof {
                    assert(!has_key(before, key));
                    assert(view_of(entries@) =~= cache_after_insert(before, key, content_view, value));
                }
            },
        }
        self.entries = entries;
    }
}

} // verus!

verus! {

/// What is stored is what is found: after storing `value` for `key` and
/// `content`, the cache holds exactly one entry with that key, and it is
/// `(key, content, value)`.
pub proof fn lemma_lookup_after_insert<V>(
    s: FitCacheView<V>,
    key: FitKey,
    content: Seq<char>,
    value: V,
)
    requires
        keys_unique(s),
        s.len() <= FIT_CACHE_CAP,
    ensures
        ({
            let t = cache_after_insert(s, key, content, value);
            &&& exists|i: int| 0 <= i < t.len() && #[trigger] t[i] == (key, content, value)
            &&& forall|i: int| 0 <= i < t.len() && (#[trigger] t[i]).0 == key ==> t[i] == (
                key,
                content,
                value,
            )
        }),
{
    let t = cache_after_insert(s, key, content, value);
    if has_key(s, key) {
        let j = choose|j: int| 0 <= j < s.len() && (#[trigger] s[j]).0 == key;
        assert(t[j] == (key, content, value));
    } else {
        assert(t[t.len() - 1] == (key, content, value));
    }
}

/// Storing keeps the cache bounded and its keys unique.
pub proof fn lemma_insert_stays_bounded<V>(
    s: FitCacheView<V>,
    key: FitKey,
    content: Seq<char>,
    value: V,
)
    requires
        keys_unique(s),
        s.len() <= FIT_CACHE_CAP,
    ensures
        cache_after_insert(s, key, content, value).len() <= FIT_CACHE_CAP,
        keys_unique(cache_after_insert(s, key, content, value)),
{
    let t = cache_after_insert(s, key, content, value);
    if has_key(s, key) {
        let j = choose|j: int| 0 <= j < s.len() && (#[trigger] s[j]).0 == key;
        assert forall|a: int, b: int| 0 <= a < b < t.len() implies (#[trigger] t[a]).0 != (#[trigger] t[b]).0 by {
            if a != j && b != j {
                assert(s[a].0 != s[b].0);
            } else if a == j {
                assert(s[j].0 != s[b].0);
            } else {
                assert(s[a].0 != s[j].0);
            }
        }
    } else if s.len() >= FIT_CACHE_CAP {
        assert forall|a: int, b: int| 0 <= a < b < t.len() implies (#[trigger] t[a]).0 != (#[trigger] t[b]).0 by {
            if b < t.len() - 1 {
                assert(s[a + 1].0 != s[b + 1].0);
            } else {
                assert(!has_key(s, key));
                assert(s[a + 1].0 != key);
            }
        }
    } else {
        assert forall|a: int, b: int| 0 <= a < b < t.len() implies (#[trigger] t[a]).0 != (#[trigger] t[b]).0 by {
            if b < t.len() - 1 {
                assert(s[a].0 != s[b].0);
            } else {
                assert(s[a].0 != key);
            }
        }
    }
}

/// Storing keeps every other entry, except that a full cache gives up its
/// oldest entry to make room for a new key.
pub proof fn lemma_insert_keeps_others<V>(
    s: FitCacheView<V>,
    key: FitKey,
    content: Seq<char>,
    value: V,
    i: int,
)
    requires
        keys_unique(s),
        0 <= i < s.len(),
        s[i].0 != key,
        has_key(s, key) || s.len() < FIT_CACHE_CAP || i > 0,
    ensures
        cache_after_insert(s, key, content, value).contains(s[i]),
{
    let t = cache_after_insert(s, key, content, value);
    if has_key(s, key) {
        let j = choose|j: int| 0 <= j < s.len() && (#[trigger] s[j]).0 == key;
        assert(t[i] == s[i]);
    } else if s.len() >= FIT_CACHE_CAP {
        assert(t[i - 1] == s[i]);
    } else {
        assert(t[i] == s[i]);
    }
}

} // verus!
