//! The cache of accepted rewrites, and what its durable tier has to decide.

use crate::config::CacheConfig;
use crate::outside::{
    all_counted, cache_limit, hex_encode, hex_text, last_put, moka_entry_count, moka_get, moka_insert, moka_new,
    moka_sync, nothing_put, sha256, sha256_digest,
};
use crate::text::{join_path, opt_text, path_in, push_bytes};
use vstd::prelude::*;
use vstd::utf8::{char_u32_cast, encode_scalar, encode_utf8, encode_utf8_decode_utf8};

verus! {

broadcast use vstd::string::group_string_axioms;

/// Rewrites that were accepted, held in memory.
pub struct RewriteCache {
    inner: moka::sync::Cache<String, String>,
}

impl View for RewriteCache {
    type V = Map<Seq<char>, Seq<char>>;

    /// What was last put under each key. Beyond its limit the cache may evict entries, so
    /// a key that is in here may then be missed.
    closed spec fn view(&self) -> Map<Seq<char>, Seq<char>> {
        last_put(self.inner)
    }
}

/// What is hashed for a cache key: the model, the ratio and the content, with a
/// zero byte between each two.
pub open spec fn key_bytes(content: Seq<char>, ratio: Seq<char>, model: Seq<char>) -> Seq<u8> {
    encode_utf8(model) + seq![0u8] + encode_utf8(ratio) + seq![0u8] + encode_utf8(content)
}

/// The cache key.
pub open spec fn cache_key(content: Seq<char>, ratio: Seq<char>, model: Seq<char>) -> Seq<char> {
    hex_text(sha256_digest(key_bytes(content, ratio, model)))
}

impl RewriteCache {
    /// How many entries the cache was made for.
    pub closed spec fn limit(&self) -> u64 {
        cache_limit(self.inner)
    }

    /// No more keys were ever put into the cache than it was made for.
    pub open spec fn has_room(&self) -> bool {
        self@.dom().finite() && self@.dom().len() <= self.limit()
    }

    /// The count of entries is up to date.
    pub closed spec fn is_counted(&self) -> bool {
        all_counted(self.inner)
    }

    /// An empty cache for at most `max_entries`.
    pub fn new(max_entries: u64) -> (r: Self)
        ensures
            r@ == nothing_put(),
            r.limit() == max_entries,
            r.is_counted(),
    {
        RewriteCache { inner: moka_new(max_entries) }
    }

    /// The key of a rewrite: the SHA-256 digest, in hexadecimal, of the exact content,
    /// the target ratio and the model. `ratio` is the ratio with three decimals.
    pub fn key(content: &str, ratio: &str, model: &str) -> (r: String)
        ensures
            r@ == cache_key(content@, ratio@, model@),
            r@.len() == 64,
    {
        let mut bytes: Vec<u8> = Vec::new();
        push_bytes(&mut bytes, model.as_bytes());
        bytes.push(0);
        push_bytes(&mut bytes, ratio.as_bytes());
        bytes.push(0);
        push_bytes(&mut bytes, content.as_bytes());
        assert(bytes@ == key_bytes(content@, ratio@, model@));
        let digest: Vec<u8> = sha256(bytes.as_slice());
        hex_encode(digest.as_slice())
    }

    /// A rewrite from memory: a hit is what was last put under the key. A key that was
    /// put is found, as long as no more keys were put than the cache was made for.
    pub fn get(&self, key: &str) -> (r: Option<String>)
        ensures
            r matches Some(v) ==> self@.contains_key(key@) && v@ == self@[key@],
            self@.contains_key(key@) && self.has_room() ==> r is Some,
    {
        moka_get(&self.inner, key)
    }

    /// What a lookup comes to, once memory has missed and the durable tier has
    /// answered: a hit there is put into memory.
    pub fn promote(&mut self, key: &str, found: Option<String>) -> (r: Option<String>)
        ensures
            opt_text(r) == tiers_answer(None, opt_text(found)),
            match found {
                Some(v) => r matches Some(w) && w@ == v@ && final(self)@ == old(self)@.insert(key@, v@),
                None => r is None && final(self)@ == old(self)@,
            },
            final(self).limit() == old(self).limit(),
    {
        match found {
            Some(v) => {
                let copy: String = v.as_str().to_owned();
                moka_insert(&mut self.inner, key.to_owned(), copy);
                Some(v)
            },
            None => None,
        }
    }

    /// Puts an accepted rewrite under its key.
    pub fn put(&mut self, key: String, value: String)
        ensures
            final(self)@ == old(self)@.insert(key@, value@),
            final(self).limit() == old(self).limit(),
    {
        moka_insert(&mut self.inner, key, value);
    }

    /// How many entries there are, about: no more than keys were put, and exactly as many
    /// if the count is up to date and no more keys were put than the cache was made for.
    pub fn entry_count(&self) -> (r: u64)
        ensures
            self@.dom().finite() ==> r <= self@.dom().len(),
            self.is_counted() && self.has_room() ==> r == self@.dom().len(),
    {
        moka_entry_count(&self.inner)
    }

    /// Brings the count of entries up to date.
    pub fn sync(&mut self)
        ensures
            final(self)@ == old(self)@,
            final(self).limit() == old(self).limit(),
            final(self).is_counted(),
    {
        moka_sync(&mut self.inner);
    }
}

// --- Keys ----------------------------------------------------------------------

/// No element of `s` is zero.
spec fn no_zero(s: Seq<u8>) -> bool {
    forall|i: int| 0 <= i < s.len() ==> #[trigger] s[i] != 0
}

proof fn lemma_scalar_has_no_zero(c: u32)
    requires
        c != 0,
    ensures
        no_zero(encode_scalar(c)),
{
    assert(0 < c < 0x80 ==> (c & 0x7F) as u8 != 0) by (bit_vector);
    assert((0xC0u8 | ((c >> 6) & 0x1F) as u8) != 0) by (bit_vector);
    assert((0xE0u8 | ((c >> 12) & 0x0F) as u8) != 0) by (bit_vector);
    assert((0xF0u8 | ((c >> 18) & 0x7) as u8) != 0) by (bit_vector);
    assert((0x80u8 | (c & 0x3F) as u8) != 0) by (bit_vector);
    assert((0x80u8 | ((c >> 6) & 0x3F) as u8) != 0) by (bit_vector);
    assert((0x80u8 | ((c >> 12) & 0x3F) as u8) != 0) by (bit_vector);
}

proof fn lemma_text_has_no_zero(s: Seq<char>)
    requires
        !s.contains('\0'),
    ensures
        no_zero(encode_utf8(s)),
    decreases s.len(),
{
    if s.len() > 0 {
        let rest = s.drop_first();
        assert(s.contains(s[0]));
        assert(!rest.contains('\0')) by {
            if rest.contains('\0') {
                let j = choose|j: int| 0 <= j < rest.len() && rest[j] == '\0';
                assert(s[j + 1] == '\0');
            }
        }
        char_u32_cast(s[0], s[0] as u32);
        char_u32_cast('\0', 0);
        lemma_scalar_has_no_zero(s[0] as u32);
        lemma_text_has_no_zero(rest);
    }
}

/// Where the first part ends in a sequence of bytes that a zero divides.
proof fn lemma_parts(a1: Seq<u8>, b1: Seq<u8>, a2: Seq<u8>, b2: Seq<u8>)
    requires
        no_zero(a1),
        no_zero(a2),
        a1 + seq![0u8] + b1 == a2 + seq![0u8] + b2,
    ensures
        a1 == a2,
        b1 == b2,
{
    let whole = a1 + seq![0u8] + b1;
    assert(whole[a1.len() as int] == 0);
    assert(whole[a2.len() as int] == 0);
    if a1.len() < a2.len() {
        assert(whole[a1.len() as int] == a2[a1.len() as int]);
    } else if a2.len() < a1.len() {
        assert(whole[a2.len() as int] == a1[a2.len() as int]);
    }
    assert(a1 == whole.take(a1.len() as int));
    assert(a2 == whole.take(a2.len() as int));
    assert(b1 == whole.skip(a1.len() as int + 1));
    assert(b2 == whole.skip(a2.len() as int + 1));
}

/// What is hashed tells apart any two contents, ratios or models, as long as no
/// ratio or model holds a zero character: two different rewrites share a key only
/// where SHA-256 itself collides.
pub proof fn law_key_bytes_tell_apart(
    content1: Seq<char>,
    ratio1: Seq<char>,
    model1: Seq<char>,
    content2: Seq<char>,
    ratio2: Seq<char>,
    model2: Seq<char>,
)
    requires
        !ratio1.contains('\0'),
        !ratio2.contains('\0'),
        !model1.contains('\0'),
        !model2.contains('\0'),
        key_bytes(content1, ratio1, model1) == key_bytes(content2, ratio2, model2),
    ensures
        content1 == content2,
        ratio1 == ratio2,
        model1 == model2,
{
    let (m1, r1, c1) = (encode_utf8(model1), encode_utf8(ratio1), encode_utf8(content1));
    let (m2, r2, c2) = (encode_utf8(model2), encode_utf8(ratio2), encode_utf8(content2));
    lemma_text_has_no_zero(model1);
    lemma_text_has_no_zero(model2);
    lemma_text_has_no_zero(ratio1);
    lemma_text_has_no_zero(ratio2);
    assert(m1 + seq![0u8] + r1 + seq![0u8] + c1 == m1 + seq![0u8] + (r1 + seq![0u8] + c1));
    assert(m2 + seq![0u8] + r2 + seq![0u8] + c2 == m2 + seq![0u8] + (r2 + seq![0u8] + c2));
    lemma_parts(m1, r1 + seq![0u8] + c1, m2, r2 + seq![0u8] + c2);
    lemma_parts(r1, c1, r2, c2);
    encode_utf8_decode_utf8(model1);
    encode_utf8_decode_utf8(model2);
    encode_utf8_decode_utf8(ratio1);
    encode_utf8_decode_utf8(ratio2);
    encode_utf8_decode_utf8(content1);
    encode_utf8_decode_utf8(content2);
}

// --- The durable tier ----------------------------------------------------------

/// What a lookup comes to: what memory has, or else what the durable tier has.
pub open spec fn tiers_answer(memory: Option<Seq<char>>, disk: Option<Seq<char>>) -> Option<Seq<char>> {
    match memory {
        Some(v) => Some(v),
        None => disk,
    }
}

/// The tiers do not contradict each other: where both have a key, they have the same value
/// under it.
pub open spec fn tiers_agree(
    memory: Map<Seq<char>, Seq<char>>,
    disk: Map<Seq<char>, Seq<char>>,
) -> bool {
    forall|k: Seq<char>|
        #[trigger] memory.contains_key(k) && disk.contains_key(k) ==> memory[k] == disk[k]
}

/// The tiers go on agreeing, whatever is put into both of them, promoted from the durable
/// tier, or pruned from it, and after a restart, which leaves memory with nothing.
pub proof fn law_tiers_go_on_agreeing(
    memory: Map<Seq<char>, Seq<char>>,
    disk: Map<Seq<char>, Seq<char>>,
    key: Seq<char>,
    value: Seq<char>,
)
    requires
        tiers_agree(memory, disk),
    ensures
        tiers_agree(memory.insert(key, value), disk.insert(key, value)),
        disk.contains_key(key) ==> tiers_agree(memory.insert(key, disk[key]), disk),
        tiers_agree(memory, disk.remove(key)),
        tiers_agree(nothing_put(), disk),
{
    let both = memory.insert(key, value);
    let stored = disk.insert(key, value);
    assert forall|k: Seq<char>|
        #[trigger] both.contains_key(k) && stored.contains_key(k) implies both[k] == stored[k] by {
        if k != key {
            assert(memory.contains_key(k));
        }
    }
    if disk.contains_key(key) {
        let promoted = memory.insert(key, disk[key]);
        assert forall|k: Seq<char>|
            #[trigger] promoted.contains_key(k) && disk.contains_key(k) implies promoted[k] == disk[k] by {
            if k != key {
                assert(memory.contains_key(k));
            }
        }
    }
}

/// What the durable tier holds under a key is what a lookup comes to, on the instance that
/// put it and on every later one: whether memory hits, with what was put into it, or
/// misses.
pub proof fn law_durable_rewrites_come_back(
    memory: Map<Seq<char>, Seq<char>>,
    disk: Map<Seq<char>, Seq<char>>,
    key: Seq<char>,
    hit: Option<Seq<char>>,
)
    requires
        tiers_agree(memory, disk),
        disk.contains_key(key),
        match hit {
            Some(v) => memory.contains_key(key) && v == memory[key],
            None => true,
        },
    ensures
        tiers_answer(hit, Some(disk[key])) == Some(disk[key]),
{
}


/// How many writes pass between two prunes of the durable tier.
pub const PRUNE_EVERY: u64 = 1024;

/// Counts the writes to the durable tier.
pub struct PruneGate {
    puts: u64,
}

impl PruneGate {
    /// How many writes were counted.
    pub closed spec fn puts(&self) -> u64 {
        self.puts
    }

    pub fn new() -> (r: Self)
        ensures
            r.puts() == 0,
    {
        PruneGate { puts: 0 }
    }

    /// Counts a write, and says whether a prune is due after it: after the first one,
    /// and then after every [`PRUNE_EVERY`].
    pub fn count_put(&mut self) -> (due: bool)
        ensures
            final(self).puts() == old(self).puts().wrapping_add(1),
            due == (old(self).puts() % PRUNE_EVERY == 0),
    {
        let due: bool = self.puts % PRUNE_EVERY == 0;
        self.puts = self.puts.wrapping_add(1);
        due
    }
}

/// How many rows the durable tier has, where a negative count counts as none.
pub fn row_count(count: i64) -> (r: u64)
    ensures
        r == if count >= 0 {
            count as int
        } else {
            0
        },
{
    if count >= 0 {
        count as u64
    } else {
        0
    }
}

/// How many of the `count` rows to take out so that at most `cap` are left, if any.
pub fn prune_excess(count: i64, cap: u64) -> (r: Option<i64>)
    ensures
        match r {
            Some(n) => count > cap && n == count - cap,
            None => count <= cap,
        },
{
    let rows: u64 = row_count(count);
    if rows > cap {
        Some((rows - cap) as i64)
    } else {
        None
    }
}

/// Where the durable tier is: where it was told to be, or else in the platform's
/// cache directory, or else in the working directory.
pub open spec fn cache_path(explicit: Option<Seq<char>>, cache_dir: Option<Seq<char>>) -> Seq<char> {
    match (explicit, cache_dir) {
        (Some(path), _) => path,
        (None, Some(dir)) => path_in(dir, "prompt-codec/rewrites.sqlite3"@),
        (None, None) => "./prompt-codec-cache.sqlite3"@,
    }
}

/// Where the durable tier is.
pub fn resolve_cache_path(explicit: Option<String>, cache_dir: Option<String>) -> (r: String)
    ensures
        r@ == cache_path(opt_text(explicit), opt_text(cache_dir)),
{
    match explicit {
        Some(path) => path,
        None => match cache_dir {
            Some(dir) => join_path(dir.as_str(), "prompt-codec/rewrites.sqlite3"),
            None => "./prompt-codec-cache.sqlite3".to_owned(),
        },
    }
}

/// The durable tier: where it is, and how many rows it keeps.
#[derive(Debug)]
pub struct DiskCacheConfig {
    pub path: String,
    pub max_disk_entries: u64,
}

/// The durable tier that a configuration asks for, if it asks for one.
pub fn disk_cache(cfg: &CacheConfig, cache_dir: Option<String>) -> (r: Option<DiskCacheConfig>)
    ensures
        match r {
            Some(disk) => {
                &&& cfg.persist
                &&& disk.path@ == cache_path(opt_text(cfg.path), opt_text(cache_dir))
                &&& disk.max_disk_entries == cfg.max_disk_entries
            },
            None => !cfg.persist,
        },
{
    if !cfg.persist {
        return None;
    }
    let explicit: Option<String> = match &cfg.path {
        Some(p) => Some(p.as_str().to_owned()),
        None => None,
    };
    Some(
        DiskCacheConfig {
            path: resolve_cache_path(explicit, cache_dir),
            max_disk_entries: cfg.max_disk_entries,
        },
    )
}

/// A warning that is given once.
pub struct WarnOnce {
    given: bool,
}

impl WarnOnce {
    /// Whether the warning was given.
    pub closed spec fn given(&self) -> bool {
        self.given
    }

    pub fn new() -> (r: Self)
        ensures
            !r.given(),
    {
        WarnOnce { given: false }
    }

    /// Whether the warning is to be given now, because it was not before.
    pub fn is_first(&mut self) -> (r: bool)
        ensures
            r == !old(self).given(),
            final(self).given(),
    {
        let first: bool = !self.given;
        self.given = true;
        first
    }
}

} // verus!
