//! Everything this library takes on trust: the calls into other crates and the
//! parts of the standard library that have no specification of their own.

use crate::config::{RawConfig, RawKey, RawSection, Tree};
use crate::json::{Json, Shape};
use crate::text::{is_subsequence, opt_text};
use serde_yaml::Value as Yaml;
use std::collections::VecDeque;
use vstd::prelude::*;
use vstd::utf8::{decode_utf8, encode_utf8, valid_utf8};

verus! {

// --- regex ---------------------------------------------------------------------

/// What is left of `text` once every match of `pattern` is taken out.
pub uninterp spec fn regex_removed(pattern: Seq<char>, text: Seq<char>) -> Seq<char>;

/// Politeness at the start of a line, with the phrase it introduces.
pub const PLEASE_PHRASE: &'static str =
    r"(?im)^[ \t]*please[, ]+(i would like you to |help me with |remember to )?";

/// Politeness at the start of a line.
pub const PLEASE: &'static str = r"(?im)^[ \t]*please\s+";

/// Thanks, if punctuation or the end of the line follows.
pub const THANKS: &'static str = r"(?im)\b(thank you|thanks)( so much)?( in advance)?(!|\.|$)[ \t]*";

/// A clause about being an AI.
pub const AS_AN_AI: &'static str = r"(?i)\bas an ai\b[^.!\n]*[.!]?[ \t]*";

/// A closing hope.
pub const HOPE: &'static str = r"(?i)\bi hope this helps[^.!\n]*[.!]?[ \t]*";

/// A wordy request at the start of a line.
pub const WOULD_LIKE: &'static str = r"(?im)^[ \t]*i would like you to\s+";

/// Exhortations about code quality: the phrase, never the rest of the line.
pub const EXHORTATION: &'static str =
    r"(?i)\b(write clean code|follow best practices|make it production ready)\b[.!,]?[ \t]*";

/// A request for comments.
pub const COMMENTS: &'static str = r"(?i)\badd comments where needed\b[.!,]?[ \t]*";

/// A line that is fluff and nothing else.
pub const FLUFF_LINE: &'static str =
    r"(?im)^[ \t]*[-*•]?[ \t]*(please be careful|be careful|this is important|note: this is important)[.!]?[ \t]*$";

/// A bullet with nothing behind it.
pub const EMPTY_BULLET: &'static str = r"(?im)^[ \t]*[-*•][ \t]*$";

/// The boilerplate patterns, in the order in which they are applied.
pub open spec fn boilerplate() -> Seq<Seq<char>> {
    seq![
        PLEASE_PHRASE@,
        PLEASE@,
        THANKS@,
        AS_AN_AI@,
        HOPE@,
        WOULD_LIKE@,
        EXHORTATION@,
        COMMENTS@,
        FLUFF_LINE@,
        EMPTY_BULLET@,
    ]
}

/// `regex::Regex::new` and `Regex::replace_all` with an empty replacement: takes every
/// match of `pattern` out of each of the texts. What counts as a match is left to the
/// crate; trusted here is that a result depends on the pattern and its own text alone,
/// and that it is that text with characters left out: none is added or moved. The
/// patterns are limited to the boilerplate list, all of which compile.
#[verifier::external_body]
pub(crate) fn remove_matches(pattern: &str, from: &Vec<String>) -> (r: Vec<String>)
    requires
        boilerplate().contains(pattern@),
    ensures
        r@.len() == from@.len(),
        forall|i: int| 0 <= i < r@.len() ==> (#[trigger] r@[i])@ == regex_removed(pattern@, from@[i]@),
        forall|i: int| 0 <= i < r@.len() ==> is_subsequence((#[trigger] r@[i])@, from@[i]@),
{
    let regex = regex::Regex::new(pattern).unwrap();
    from.iter().map(|text| regex.replace_all(text, "").into_owned()).collect()
}

/// The key of a cached-token count in a usage block, and the count.
pub const CACHED_TOKENS: &'static str =
    r#""(?:cached_tokens|cache_read_input_tokens)"\s*:\s*(\d+)"#;

/// What the first group of `pattern` holds, for each of its matches in `text`.
pub uninterp spec fn regex_captures(pattern: Seq<char>, text: Seq<char>) -> Seq<Seq<char>>;

/// The texts that a list of strings holds.
pub open spec fn texts(v: Seq<String>) -> Seq<Seq<char>> {
    v.map_values(|s: String| s@)
}

/// `regex::Regex::new` and `Regex::captures_iter`: what the pattern's one group
/// holds in each match, from first to last. What counts as a match is left to
/// the crate; trusted here is that it depends on the two texts alone. The pattern
/// is the one for cached-token counts, which compiles and whose group takes part
/// in every match.
#[verifier::external_body]
pub(crate) fn captures(pattern: &str, text: &str) -> (r: Vec<String>)
    requires
        pattern@ == CACHED_TOKENS@,
    ensures
        texts(r@) == regex_captures(pattern@, text@),
{
    regex::Regex::new(pattern).unwrap().captures_iter(text).map(|c| c[1].to_owned()).collect()
}

// --- std -----------------------------------------------------------------------

/// `String::push` appends one character.
pub assume_specification[ String::push ](s: &mut String, c: char)
    ensures
        final(s)@ == old(s)@.push(c),
;

/// The bytes read as UTF-8, whatever they are.
pub uninterp spec fn utf8_lossy(bytes: Seq<u8>) -> Seq<char>;

/// `String::from_utf8_lossy`: the bytes read as UTF-8, with replacement characters
/// where they are not. Trusted here is that the result depends on the bytes alone,
/// and that valid UTF-8 is read as what it encodes.
#[verifier::external_body]
pub(crate) fn from_utf8_lossy(bytes: &[u8]) -> (r: String)
    ensures
        r@ == utf8_lossy(bytes@),
        valid_utf8(bytes@) ==> r@ == decode_utf8(bytes@),
{
    String::from_utf8_lossy(bytes).into_owned()
}

/// `VecDeque::make_contiguous`: hands the elements out as one slice, in order, and
/// keeps them all.
#[verifier::external_body]
pub(crate) fn contiguous(buf: &mut VecDeque<u8>) -> (r: &[u8])
    ensures
        r@ == old(buf)@,
        final(buf)@ == old(buf)@,
{
    buf.make_contiguous()
}

/// `SystemTime::elapsed` on the Unix epoch: the whole seconds since then, or `None` on a
/// clock that is behind it. Nothing is promised of what the clock says.
#[verifier::external_body]
pub(crate) fn seconds_since_epoch() -> (r: Option<u64>) {
    std::time::UNIX_EPOCH.elapsed().ok().map(|d| d.as_secs())
}

// --- tiktoken-rs ---------------------------------------------------------------

/// How many cl100k_base tokens `text` is, with no special tokens, or `None` where
/// the encoder gives up on it.
pub uninterp spec fn cl100k_len(text: Seq<char>) -> Option<usize>;

/// `tiktoken_rs::cl100k_base_singleton` and `CoreBPE::encode` with no special token
/// allowed: how many tokens come out, or `None` where the splitting of the text
/// fails. Trusted here is that the answer depends on the text alone; how a text is
/// cut into tokens is left to the crate.
#[verifier::external_body]
pub(crate) fn count_cl100k(text: &str) -> (r: Option<usize>)
    ensures
        r == cl100k_len(text@),
{
    let none_allowed = std::collections::HashSet::new();
    tiktoken_rs::cl100k_base_singleton().encode(text, &none_allowed).ok().map(|t| t.0.len())
}

// --- sha2 and hex --------------------------------------------------------------

/// The SHA-256 digest of `bytes`.
pub uninterp spec fn sha256_digest(bytes: Seq<u8>) -> Seq<u8>;

/// `sha2::Sha256::digest`: 32 bytes that depend on the input alone.
#[verifier::external_body]
pub(crate) fn sha256(bytes: &[u8]) -> (r: Vec<u8>)
    ensures
        r@ == sha256_digest(bytes@),
        r@.len() == 32,
{
    <sha2::Sha256 as sha2::Digest>::digest(bytes).to_vec()
}

/// A hexadecimal digit, in lower case.
pub open spec fn hex_digit(n: int) -> char {
    if n < 10 {
        ((48 + n) as u8) as char
    } else {
        ((87 + n) as u8) as char
    }
}

/// The bytes in hexadecimal: two digits each, the high one first.
pub open spec fn hex_text(bytes: Seq<u8>) -> Seq<char> {
    Seq::new(
        2 * bytes.len(),
        |i: int|
            if i % 2 == 0 {
                hex_digit(bytes[i / 2] as int / 16)
            } else {
                hex_digit(bytes[i / 2] as int % 16)
            },
    )
}

/// `hex::encode`: the bytes in hexadecimal, in lower case.
#[verifier::external_body]
pub(crate) fn hex_encode(bytes: &[u8]) -> (r: String)
    ensures
        r@ == hex_text(bytes@),
{
    hex::encode(bytes)
}

// --- serde_json ----------------------------------------------------------------

/// `text` as compact JSON, if it is JSON.
pub uninterp spec fn json_compact(text: Seq<char>) -> Option<Seq<char>>;

/// `serde_json::from_str` and `serde_json::to_string`: reads a JSON value and writes
/// it again without white space, its keys in the order they came in. Trusted here
/// is that the answer depends on the text alone; the grammar is left to the crate.
#[verifier::external_body]
pub(crate) fn compact_json(text: &str) -> (r: Option<String>)
    ensures
        opt_text(r) == json_compact(text@),
{
    match serde_json::from_str::<serde_json::Value>(text) {
        Ok(value) => serde_json::to_string(&value).ok(),
        Err(_) => None,
    }
}

/// What `bytes` hold, if they are JSON, one level deep.
pub uninterp spec fn json_read(bytes: Seq<u8>) -> Shape;

/// `serde_json::from_slice`: reads a JSON value. What is in an array or an object is
/// handed out as `serde_json::Value` writes it, without white space; of an object's keys
/// each comes once, in the order they came in. Trusted here is that the answer depends on
/// the bytes alone; the grammar is left to the crate.
#[verifier::external_body]
pub(crate) fn read_json(bytes: &[u8]) -> (r: Json)
    ensures
        r@ == json_read(bytes@),
{
    match serde_json::from_slice::<serde_json::Value>(bytes) {
        Err(_) => Json::Invalid,
        Ok(serde_json::Value::Null) => Json::Null,
        Ok(serde_json::Value::String(s)) => Json::Text(s),
        Ok(serde_json::Value::Array(a)) => Json::Array(a.iter().map(|v| v.to_string()).collect()),
        Ok(serde_json::Value::Object(o)) => Json::Object(o.iter().map(|(k, v)| (k.clone(), v.to_string())).collect()),
        Ok(other) => Json::Other(other.to_string()),
    }
}

/// How a character stands in a JSON string.
pub open spec fn json_char(c: char) -> Seq<char> {
    let n = c as u32;
    if c == '"' || c == '\\' {
        seq!['\\', c]
    } else if n == 8 {
        seq!['\\', 'b']
    } else if n == 9 {
        seq!['\\', 't']
    } else if n == 10 {
        seq!['\\', 'n']
    } else if n == 12 {
        seq!['\\', 'f']
    } else if n == 13 {
        seq!['\\', 'r']
    } else if n < 32 {
        seq!['\\', 'u', '0', '0', hex_digit(n as int / 16), hex_digit(n as int % 16)]
    } else {
        seq![c]
    }
}

/// How characters stand in a JSON string.
pub open spec fn json_chars(s: Seq<char>) -> Seq<char>
    decreases s.len(),
{
    if s.len() == 0 {
        seq![]
    } else {
        json_chars(s.drop_last()) + json_char(s.last())
    }
}

/// `s` as a JSON string, quotes and all.
pub open spec fn json_quoted(s: Seq<char>) -> Seq<char> {
    seq!['"'] + json_chars(s) + seq!['"']
}

/// `serde_json::Value::from` and how it is written: a JSON string that says `s`. Quotes,
/// backslashes and control characters are escaped, and nothing else.
#[verifier::external_body]
pub(crate) fn quote_json(s: &str) -> (r: String)
    ensures
        r@ == json_quoted(s@),
{
    serde_json::Value::from(s).to_string()
}

// --- serde_yaml ----------------------------------------------------------------

/// The keys of `text`, one level deep, if it is YAML.
pub uninterp spec fn yaml_outline(text: Seq<char>) -> Option<Tree>;

/// `serde_yaml::from_str`: reads a YAML value, of which the keys are handed out, and
/// those of the mappings in it; a key that is no string as `serde_yaml::to_string`
/// writes it. Trusted here is that the answer depends on the text alone; the grammar is
/// left to the crate.
#[verifier::external_body]
pub(crate) fn outline_yaml(text: &str) -> (r: Option<RawConfig>)
    ensures
        tree_of(r) == yaml_outline(text@),
{
    let key = |k: &Yaml| match k.as_str() {
        Some(name) => RawKey { text: name.to_owned(), is_name: true },
        None => RawKey { text: serde_yaml::to_string(k).unwrap_or_default(), is_name: false },
    };
    let keys = |v: &Yaml| match v {
        Yaml::Mapping(m) => Some(m.keys().map(key).collect()),
        _ => None,
    };
    match serde_yaml::from_str::<Yaml>(text).ok()? {
        Yaml::Null => Some(RawConfig::Null),
        Yaml::Mapping(m) => Some(RawConfig::Mapping(m.iter().map(|(k, v)| RawSection { key: key(k), keys: keys(v) }).collect())),
        _ => Some(RawConfig::Other),
    }
}

/// What an outline stands for.
pub open spec fn tree_of(r: Option<RawConfig>) -> Option<Tree> {
    match r {
        Some(raw) => Some(raw@),
        None => None,
    }
}

// --- moka ----------------------------------------------------------------------

#[verifier::external_type_specification]
#[verifier::external_body]
#[verifier::reject_recursive_types(K)]
#[verifier::reject_recursive_types(V)]
#[verifier::reject_recursive_types(S)]
pub struct ExMokaCache<K, V, S>(moka::sync::Cache<K, V, S>);

/// The value that was last put under each key, evicted since then or not.
pub uninterp spec fn last_put(cache: moka::sync::Cache<String, String>) -> Map<Seq<char>, Seq<char>>;

/// No key at all.
pub open spec fn nothing_put() -> Map<Seq<char>, Seq<char>> {
    Map::empty()
}

/// How many entries the cache was made for.
pub uninterp spec fn cache_limit(cache: moka::sync::Cache<String, String>) -> u64;

/// No more keys were ever put into the cache than it was made for.
pub open spec fn within_limit(cache: moka::sync::Cache<String, String>) -> bool {
    last_put(cache).dom().finite() && last_put(cache).dom().len() <= cache_limit(cache)
}

/// The cache's own bookkeeping has caught up with everything put into it.
pub uninterp spec fn all_counted(cache: moka::sync::Cache<String, String>) -> bool;

/// `moka::sync::Cache::new`: a cache into which nothing was put yet, with nothing left
/// to count.
#[verifier::external_body]
pub(crate) fn moka_new(max_entries: u64) -> (r: moka::sync::Cache<String, String>)
    ensures
        last_put(r) == nothing_put(),
        cache_limit(r) == max_entries,
        all_counted(r),
{
    moka::sync::Cache::new(max_entries)
}

/// `moka::sync::Cache::get`: a hit is a copy of what was last put under the key. The
/// crate puts an entry into its table at once, and takes entries out, or does not let
/// one stay, only where there are more of them than the cache was made for: up to then,
/// what was put is found. Beyond that a miss says nothing.
#[verifier::external_body]
pub(crate) fn moka_get(cache: &moka::sync::Cache<String, String>, key: &str) -> (r: Option<String>)
    ensures
        r matches Some(v) ==> last_put(*cache).contains_key(key@) && v@ == last_put(*cache)[key@],
        last_put(*cache).contains_key(key@) && within_limit(*cache) ==> r is Some,
{
    cache.get(key)
}

/// `moka::sync::Cache::insert`: from now on, the value is the last one put under the
/// key. The crate changes the cache behind a shared reference; an exclusive one is
/// asked for here, so that the change shows. Whether the entry is counted yet is left
/// open.
#[verifier::external_body]
pub(crate) fn moka_insert(cache: &mut moka::sync::Cache<String, String>, key: String, value: String)
    ensures
        last_put(*final(cache)) == last_put(*old(cache)).insert(key@, value@),
        cache_limit(*final(cache)) == cache_limit(*old(cache)),
{
    cache.insert(key, value)
}

/// `moka::sync::Cache::entry_count`: how many entries are counted as live. Each key that
/// was put counts once at most; and once the bookkeeping has caught up, each counts, as
/// long as the cache has room for all of them. Otherwise the number is an estimate.
#[verifier::external_body]
pub(crate) fn moka_entry_count(cache: &moka::sync::Cache<String, String>) -> (r: u64)
    ensures
        last_put(*cache).dom().finite() ==> r <= last_put(*cache).dom().len(),
        all_counted(*cache) && within_limit(*cache) ==> r == last_put(*cache).dom().len(),
{
    cache.entry_count()
}

/// `moka::sync::Cache::run_pending_tasks`: the bookkeeping catches up with everything
/// that was put. As with `insert`, an exclusive reference is asked for, so that the
/// change shows.
#[verifier::external_body]
pub(crate) fn moka_sync(cache: &mut moka::sync::Cache<String, String>)
    ensures
        last_put(*final(cache)) == last_put(*old(cache)),
        cache_limit(*final(cache)) == cache_limit(*old(cache)),
        all_counted(*final(cache)),
{
    cache.run_pending_tasks()
}

// --- http, as axum hands it on -------------------------------------------------

/// A byte that may stand in the value of a header.
pub open spec fn header_byte(b: u8) -> bool {
    (b >= 32 && b != 127) || b == 9
}

/// `axum::http::HeaderValue::from_str`: whether a text can be the value of a header,
/// which it can unless one of its bytes is a control character other than a tab.
#[verifier::external_body]
pub(crate) fn is_header_value(text: &str) -> (r: bool)
    ensures
        r == (forall|i: int| 0 <= i < encode_utf8(text@).len() ==> header_byte(#[trigger] encode_utf8(text@)[i])),
{
    axum::http::HeaderValue::from_str(text).is_ok()
}

} // verus!
