//! Configuration: what the rules, the local model, the cache and the proxy are told
//! to do, which keys of a configuration file count, and which file is taken.
//!
//! Fractions (the target ratio, the temperature, the timeout, the price) are not
//! held here.

use crate::outside::{outline_yaml, texts, yaml_outline};
use crate::text::{join2, join3, join_path, opt_text, path_in, same_text, trim, trim_text};
use vstd::prelude::*;

verus! {

broadcast use vstd::string::group_string_axioms;

// --- Settings ------------------------------------------------------------------

/// Which messages may be handed to the local model.
#[derive(Debug, Clone, Copy, PartialEq, Eq, Structural)]
pub enum LlmScope {
    LastUser,
    All,
    Never,
}

impl Default for LlmScope {
    fn default() -> (r: Self)
        ensures
            r == LlmScope::LastUser,
    {
        LlmScope::LastUser
    }
}

/// The local model.
#[derive(Debug)]
pub struct LocalConfig {
    pub base_url: String,
    pub api_key: String,
    pub model: String,
    pub max_tokens: u32,
    /// Sent along with requests unless it is empty, so that a thinking model does not
    /// spend its whole output on hidden reasoning.
    pub reasoning_effort: String,
    /// How long the server keeps the model loaded; not sent if it is empty.
    pub keep_alive: String,
}

/// The settings as they are where none are given.
pub open spec fn default_local(c: LocalConfig) -> bool {
    &&& c.base_url@ == "http://127.0.0.1:11434/v1"@
    &&& c.api_key@ == "ollama"@
    &&& c.model@ == "gemma4:12b-mlx"@
    &&& c.max_tokens == 2048
    &&& c.reasoning_effort@ == "none"@
    &&& c.keep_alive@ == "60m"@
}

impl Default for LocalConfig {
    fn default() -> (r: Self)
        ensures
            default_local(r),
    {
        LocalConfig {
            base_url: "http://127.0.0.1:11434/v1".to_owned(),
            api_key: "ollama".to_owned(),
            model: "gemma4:12b-mlx".to_owned(),
            max_tokens: 2048,
            reasoning_effort: "none".to_owned(),
            keep_alive: "60m".to_owned(),
        }
    }
}

/// How prompts are compressed.
#[derive(Debug)]
pub struct EncoderConfig {
    /// `rules`, `local` or `hybrid`.
    pub mode: String,
    /// System messages with fewer characters are left alone.
    pub protect_system_under_chars: usize,
    /// Texts with fewer characters are not handed to the model.
    pub min_chars_to_compress: usize,
    pub rules_enabled: bool,
    pub llm_scope: LlmScope,
    /// Known, but without effect.
    pub list_trim_enabled: bool,
}

/// The settings as they are where none are given.
pub open spec fn default_encoder(c: EncoderConfig) -> bool {
    &&& c.mode@ == "hybrid"@
    &&& c.protect_system_under_chars == 800
    &&& c.min_chars_to_compress == 400
    &&& c.rules_enabled
    &&& c.llm_scope == LlmScope::LastUser
    &&& !c.list_trim_enabled
}

impl Default for EncoderConfig {
    fn default() -> (r: Self)
        ensures
            default_encoder(r),
    {
        EncoderConfig {
            mode: "hybrid".to_owned(),
            protect_system_under_chars: 800,
            min_chars_to_compress: 400,
            rules_enabled: true,
            llm_scope: LlmScope::LastUser,
            list_trim_enabled: false,
        }
    }
}

/// The cache of rewrites.
#[derive(Debug)]
pub struct CacheConfig {
    pub max_entries: u64,
    /// Whether there is a durable tier.
    pub persist: bool,
    /// Where the durable tier is, if not in the usual place.
    pub path: Option<String>,
    pub max_disk_entries: u64,
}

/// The settings as they are where none are given.
pub open spec fn default_cache(c: CacheConfig) -> bool {
    &&& c.max_entries == 4096
    &&& c.persist
    &&& c.path is None
    &&& c.max_disk_entries == 100_000
}

impl Default for CacheConfig {
    fn default() -> (r: Self)
        ensures
            default_cache(r),
    {
        CacheConfig { max_entries: 4096, persist: true, path: None, max_disk_entries: 100_000 }
    }
}

/// The proxy.
#[derive(Debug)]
pub struct ProxyConfig {
    pub host: String,
    pub port: u16,
    pub upstream_base_url: String,
    pub upstream_api_key_env: String,
    /// `bearer` or `x_api_key`.
    pub upstream_auth_style: String,
    pub pass_client_auth: bool,
    pub require_client_auth: bool,
    pub log_stats: bool,
}

/// The settings as they are where none are given.
pub open spec fn default_proxy(c: ProxyConfig) -> bool {
    &&& c.host@ == "127.0.0.1"@
    &&& c.port == 8787
    &&& c.upstream_base_url@ == "https://api.x.ai/v1"@
    &&& c.upstream_api_key_env@ == "X_API_KEY"@
    &&& c.upstream_auth_style@ == "bearer"@
    &&& c.pass_client_auth
    &&& !c.require_client_auth
    &&& c.log_stats
}

impl Default for ProxyConfig {
    fn default() -> (r: Self)
        ensures
            default_proxy(r),
    {
        ProxyConfig {
            host: "127.0.0.1".to_owned(),
            port: 8787,
            upstream_base_url: "https://api.x.ai/v1".to_owned(),
            upstream_api_key_env: "X_API_KEY".to_owned(),
            upstream_auth_style: "bearer".to_owned(),
            pass_client_auth: true,
            require_client_auth: false,
            log_stats: true,
        }
    }
}

/// All settings.
#[derive(Debug)]
pub struct AppConfig {
    pub local: LocalConfig,
    pub encoder: EncoderConfig,
    pub cache: CacheConfig,
    pub proxy: ProxyConfig,
}

impl Default for AppConfig {
    fn default() -> (r: Self)
        ensures
            default_local(r.local),
            default_encoder(r.encoder),
            default_cache(r.cache),
            default_proxy(r.proxy),
    {
        AppConfig {
            local: LocalConfig::default(),
            encoder: EncoderConfig::default(),
            cache: CacheConfig::default(),
            proxy: ProxyConfig::default(),
        }
    }
}

// --- Known keys ----------------------------------------------------------------

/// The keys that a section of the configuration file may hold, if there is such a
/// section.
pub open spec fn known_keys(section: Seq<char>) -> Option<Seq<Seq<char>>> {
    if section == "local"@ {
        Some(
            seq![
                "base_url"@,
                "api_key"@,
                "model"@,
                "temperature"@,
                "max_tokens"@,
                "reasoning_effort"@,
                "keep_alive"@,
            ],
        )
    } else if section == "encoder"@ {
        Some(
            seq![
                "mode"@,
                "target_ratio"@,
                "protect_system_under_chars"@,
                "min_chars_to_compress"@,
                "rules_enabled"@,
                "llm_scope"@,
                "llm_timeout_s"@,
                "list_trim_enabled"@,
            ],
        )
    } else if section == "cache"@ {
        Some(seq!["max_entries"@, "persist"@, "path"@, "max_disk_entries"@])
    } else if section == "proxy"@ {
        Some(
            seq![
                "host"@,
                "port"@,
                "upstream_base_url"@,
                "upstream_api_key_env"@,
                "upstream_auth_style"@,
                "pass_client_auth"@,
                "require_client_auth"@,
                "log_stats"@,
            ],
        )
    } else if section == "stats"@ {
        Some(seq!["usd_per_mtok_input"@])
    } else {
        None
    }
}

/// What a list of string slices holds.
pub open spec fn str_texts(v: Seq<&'static str>) -> Seq<Seq<char>> {
    v.map_values(|s: &'static str| s@)
}

/// The keys that a section may hold, if there is such a section.
fn known_keys_of(section: &str) -> (r: Option<Vec<&'static str>>)
    ensures
        match r {
            Some(keys) => known_keys(section@) == Some(str_texts(keys@)),
            None => known_keys(section@) is None,
        },
{
    let keys: Vec<&'static str> = if same_text(section, "local") {
        vec![
            "base_url",
            "api_key",
            "model",
            "temperature",
            "max_tokens",
            "reasoning_effort",
            "keep_alive",
        ]
    } else if same_text(section, "encoder") {
        vec![
            "mode",
            "target_ratio",
            "protect_system_under_chars",
            "min_chars_to_compress",
            "rules_enabled",
            "llm_scope",
            "llm_timeout_s",
            "list_trim_enabled",
        ]
    } else if same_text(section, "cache") {
        vec!["max_entries", "persist", "path", "max_disk_entries"]
    } else if same_text(section, "proxy") {
        vec![
            "host",
            "port",
            "upstream_base_url",
            "upstream_api_key_env",
            "upstream_auth_style",
            "pass_client_auth",
            "require_client_auth",
            "log_stats",
        ]
    } else if same_text(section, "stats") {
        vec!["usd_per_mtok_input"]
    } else {
        return None;
    };
    assert(known_keys(section@)->Some_0 =~= str_texts(keys@));
    Some(keys)
}

/// What is said about a key of earlier versions that no longer counts.
pub open spec fn superseded(section: Seq<char>, key: Seq<char>) -> Option<Seq<char>> {
    if section == "local"@ && key == "timeout_s"@ {
        Some("local.timeout_s is ignored in v2; use encoder.llm_timeout_s"@)
    } else if section == "encoder"@ && key == "roles"@ {
        Some("encoder.roles is ignored; role policy is fixed in v2"@)
    } else if section == "stats"@ && key == "encoding"@ {
        Some("stats.encoding is ignored in v2; tokenizer is fixed to cl100k_base"@)
    } else {
        None
    }
}

/// What is said about a key of earlier versions that no longer counts.
pub fn superseded_message(section: &str, key: &str) -> (r: Option<String>)
    ensures
        opt_text(r) == superseded(section@, key@),
{
    if same_text(section, "local") && same_text(key, "timeout_s") {
        Some("local.timeout_s is ignored in v2; use encoder.llm_timeout_s".to_owned())
    } else if same_text(section, "encoder") && same_text(key, "roles") {
        Some("encoder.roles is ignored; role policy is fixed in v2".to_owned())
    } else if same_text(section, "stats") && same_text(key, "encoding") {
        Some("stats.encoding is ignored in v2; tokenizer is fixed to cl100k_base".to_owned())
    } else {
        None
    }
}

// --- Sorting out the keys of a file --------------------------------------------

/// A key of a configuration file: its name, if it is a string, or else how it is
/// written.
#[derive(Debug)]
pub struct RawKey {
    pub text: String,
    pub is_name: bool,
}

/// A section of a configuration file: its key, and the keys in it, if its value is a
/// mapping.
#[derive(Debug)]
pub struct RawSection {
    pub key: RawKey,
    pub keys: Option<Vec<RawKey>>,
}

/// A configuration file, as far as its keys go.
#[derive(Debug)]
pub enum RawConfig {
    /// Nothing at all.
    Null,
    Mapping(Vec<RawSection>),
    /// Something that is no mapping.
    Other,
}

/// What a [`RawKey`] stands for.
pub struct Key {
    pub text: Seq<char>,
    pub is_name: bool,
}

/// What a [`RawSection`] stands for.
pub struct Section {
    pub key: Key,
    pub keys: Option<Seq<Key>>,
}

/// What a [`RawConfig`] stands for.
pub enum Tree {
    Null,
    Mapping(Seq<Section>),
    Other,
}

impl View for RawKey {
    type V = Key;

    open spec fn view(&self) -> Key {
        Key { text: self.text@, is_name: self.is_name }
    }
}

/// What a list of keys stands for.
pub open spec fn key_views(keys: Seq<RawKey>) -> Seq<Key> {
    keys.map_values(|k: RawKey| k@)
}

impl View for RawSection {
    type V = Section;

    open spec fn view(&self) -> Section {
        Section {
            key: self.key@,
            keys: match self.keys {
                Some(keys) => Some(key_views(keys@)),
                None => None,
            },
        }
    }
}

/// What a list of sections stands for.
pub open spec fn sections(v: Seq<RawSection>) -> Seq<Section> {
    v.map_values(|s: RawSection| s@)
}

impl View for RawConfig {
    type V = Tree;

    open spec fn view(&self) -> Tree {
        match self {
            RawConfig::Null => Tree::Null,
            RawConfig::Mapping(v) => Tree::Mapping(sections(v@)),
            RawConfig::Other => Tree::Other,
        }
    }
}

/// A key stays: it is a known name.
pub open spec fn key_stays(known: Seq<Seq<char>>, key: Key) -> bool {
    key.is_name && known.contains(key.text)
}

/// The keys that stay.
pub open spec fn kept_keys(known: Seq<Seq<char>>, keys: Seq<Key>) -> Seq<Key>
    decreases keys.len(),
{
    if keys.len() == 0 {
        seq![]
    } else if key_stays(known, keys.last()) {
        kept_keys(known, keys.drop_last()).push(keys.last())
    } else {
        kept_keys(known, keys.drop_last())
    }
}

/// How a key is shown in a warning.
pub open spec fn shown(key: Key) -> Seq<char> {
    if key.is_name {
        key.text
    } else {
        trim(key.text)
    }
}

/// What is said about a key that does not stay.
pub open spec fn key_warning(section: Seq<char>, key: Key) -> Seq<char> {
    match superseded(section, key.text) {
        Some(message) if key.is_name => message,
        _ => "unknown config key ignored: "@ + section + ("."@ + shown(key)),
    }
}

/// What is said about the keys that do not stay: one warning each.
pub open spec fn key_warnings(
    section: Seq<char>,
    known: Seq<Seq<char>>,
    keys: Seq<Key>,
) -> Seq<Seq<char>>
    decreases keys.len(),
{
    if keys.len() == 0 {
        seq![]
    } else {
        let before = key_warnings(section, known, keys.drop_last());
        if key_stays(known, keys.last()) {
            before
        } else {
            before.push(key_warning(section, keys.last()))
        }
    }
}

/// A section stays: its key is a known name.
pub open spec fn section_stays(s: Section) -> bool {
    s.key.is_name && known_keys(s.key.text) is Some
}

/// A section that stays, with the keys that stay.
pub open spec fn kept_section(s: Section) -> Section {
    match (known_keys(s.key.text), s.keys) {
        (Some(known), Some(keys)) => Section { key: s.key, keys: Some(kept_keys(known, keys)) },
        _ => s,
    }
}

/// The sections that stay, with the keys that stay.
pub open spec fn kept_sections(v: Seq<Section>) -> Seq<Section>
    decreases v.len(),
{
    if v.len() == 0 {
        seq![]
    } else if section_stays(v.last()) {
        kept_sections(v.drop_last()).push(kept_section(v.last()))
    } else {
        kept_sections(v.drop_last())
    }
}

/// What is said about a section: one warning if it does not stay, or else one for each
/// of its keys that does not.
pub open spec fn section_warnings(s: Section) -> Seq<Seq<char>> {
    if section_stays(s) {
        match (known_keys(s.key.text), s.keys) {
            (Some(known), Some(keys)) => key_warnings(s.key.text, known, keys),
            _ => seq![],
        }
    } else {
        seq!["unknown config section ignored: "@ + shown(s.key)]
    }
}

/// What is said about all sections.
pub open spec fn all_warnings(v: Seq<Section>) -> Seq<Seq<char>>
    decreases v.len(),
{
    if v.len() == 0 {
        seq![]
    } else {
        all_warnings(v.drop_last()) + section_warnings(v.last())
    }
}

/// What is left of a configuration file: known sections with known keys. An empty
/// file counts as an empty mapping.
pub open spec fn sanitized(t: Tree) -> Tree {
    match t {
        Tree::Null => Tree::Mapping(seq![]),
        Tree::Mapping(v) => Tree::Mapping(kept_sections(v)),
        Tree::Other => Tree::Other,
    }
}

/// What is said about what is not left.
pub open spec fn sanitize_warnings(t: Tree) -> Seq<Seq<char>> {
    match t {
        Tree::Mapping(v) => all_warnings(v),
        _ => seq![],
    }
}

fn is_known(known: &Vec<&'static str>, key: &str) -> (r: bool)
    ensures
        r == str_texts(known@).contains(key@),
{
    let mut i: usize = 0;
    while i < known.len()
        invariant
            i <= known@.len(),
            forall|j: int| 0 <= j < i ==> #[trigger] str_texts(known@)[j] != key@,
        decreases known@.len() - i,
    {
        assert(str_texts(known@)[i as int] == known@[i as int]@);
        if same_text(known[i], key) {
            return true;
        }
        i = i + 1;
    }
    false
}

fn push_warning(warnings: &mut Vec<String>, line: String)
    ensures
        texts(final(warnings)@) == texts(old(warnings)@).push(line@),
{
    let ghost was = texts(warnings@);
    let ghost lv = line@;
    warnings.push(line);
    assert(texts(warnings@) == was.push(lv));
}

fn copy_key(key: &RawKey) -> (r: RawKey)
    ensures
        r@ == key@,
{
    RawKey { text: key.text.as_str().to_owned(), is_name: key.is_name }
}

/// How a key is shown in a warning.
fn show(key: &RawKey) -> (r: String)
    ensures
        r@ == shown(key@),
{
    if key.is_name {
        key.text.as_str().to_owned()
    } else {
        trim_text(key.text.as_str())
    }
}

/// What is said about a key that does not stay.
fn warn_key(section: &str, key: &RawKey) -> (r: String)
    ensures
        r@ == key_warning(section@, key@),
{
    if key.is_name {
        if let Some(message) = superseded_message(section, key.text.as_str()) {
            return message;
        }
    }
    let name: String = show(key);
    let tail: String = join2(".", name.as_str());
    join3("unknown config key ignored: ", section, tail.as_str())
}

fn sanitize_keys(
    section: &str,
    known: &Vec<&'static str>,
    keys: &Vec<RawKey>,
    warnings: &mut Vec<String>,
) -> (r: Vec<RawKey>)
    ensures
        key_views(r@) == kept_keys(str_texts(known@), key_views(keys@)),
        texts(final(warnings)@) == texts(old(warnings)@) + key_warnings(
            section@,
            str_texts(known@),
            key_views(keys@),
        ),
{
    let ghost all = key_views(keys@);
    let ghost model = str_texts(known@);
    let ghost before = texts(warnings@);
    let mut out: Vec<RawKey> = Vec::new();
    let mut i: usize = 0;
    proof {
        assert(key_views(out@) == Seq::<Key>::empty());
        assert(before + Seq::<Seq<char>>::empty() == before);
    }
    while i < keys.len()
        invariant
            i <= keys@.len(),
            all == key_views(keys@),
            model == str_texts(known@),
            key_views(out@) == kept_keys(model, all.take(i as int)),
            texts(warnings@) == before + key_warnings(section@, model, all.take(i as int)),
        decreases keys@.len() - i,
    {
        let ghost kept = key_views(out@);
        let ghost said = key_warnings(section@, model, all.take(i as int));
        proof {
            assert(all.take(i + 1).drop_last() == all.take(i as int));
            assert(all.take(i + 1).last() == keys@[i as int]@);
        }
        if keys[i].is_name && is_known(known, keys[i].text.as_str()) {
            let key: RawKey = copy_key(&keys[i]);
            let ghost kv = key@;
            out.push(key);
            assert(key_views(out@) == kept.push(kv));
        } else {
            let line: String = warn_key(section, &keys[i]);
            let ghost lv = line@;
            push_warning(warnings, line);
            assert((before + said).push(lv) == before + said.push(lv));
        }
        i = i + 1;
    }
    assert(all.take(all.len() as int) == all);
    out
}

/// One section: what stays of it, if it does.
fn sanitize_section(s: &RawSection, warnings: &mut Vec<String>) -> (r: Option<RawSection>)
    ensures
        match r {
            Some(kept) => section_stays(s@) && kept@ == kept_section(s@),
            None => !section_stays(s@),
        },
        texts(final(warnings)@) == texts(old(warnings)@) + section_warnings(s@),
{
    let ghost before = texts(warnings@);
    assert(before + Seq::<Seq<char>>::empty() == before);
    if s.key.is_name {
        if let Some(known) = known_keys_of(s.key.text.as_str()) {
            let keys: Option<Vec<RawKey>> = match &s.keys {
                Some(keys) => Some(sanitize_keys(s.key.text.as_str(), &known, keys, warnings)),
                None => None,
            };
            return Some(RawSection { key: copy_key(&s.key), keys });
        }
    }
    let name: String = show(&s.key);
    push_warning(warnings, join2("unknown config section ignored: ", name.as_str()));
    assert(texts(warnings@) == before + section_warnings(s@));
    None
}

/// Drops unknown sections and keys, and those of earlier versions, and says so for
/// each of them. Only known keys are left.
pub fn sanitize(raw: &RawConfig, warnings: &mut Vec<String>) -> (r: RawConfig)
    ensures
        r@ == sanitized(raw@),
        texts(final(warnings)@) == texts(old(warnings)@) + sanitize_warnings(raw@),
{
    let ghost before = texts(warnings@);
    assert(before + Seq::<Seq<char>>::empty() == before);
    match raw {
        RawConfig::Null => {
            let none: Vec<RawSection> = Vec::new();
            assert(sections(none@) == Seq::<Section>::empty());
            RawConfig::Mapping(none)
        },
        RawConfig::Other => RawConfig::Other,
        RawConfig::Mapping(v) => {
            let ghost all = sections(v@);
            let mut out: Vec<RawSection> = Vec::new();
            let mut i: usize = 0;
            assert(sections(out@) == Seq::<Section>::empty());
            while i < v.len()
                invariant
                    i <= v@.len(),
                    all == sections(v@),
                    sections(out@) == kept_sections(all.take(i as int)),
                    texts(warnings@) == before + all_warnings(all.take(i as int)),
                decreases v@.len() - i,
            {
                let ghost kept = sections(out@);
                let ghost said = all_warnings(all.take(i as int));
                proof {
                    assert(all.take(i + 1).drop_last() == all.take(i as int));
                    assert(all.take(i + 1).last() == v@[i as int]@);
                    assert((before + said) + section_warnings(v@[i as int]@) == before + (said
                        + section_warnings(v@[i as int]@)));
                }
                if let Some(s) = sanitize_section(&v[i], warnings) {
                    let ghost sv = s@;
                    out.push(s);
                    assert(sections(out@) == kept.push(sv));
                }
                i = i + 1;
            }
            assert(all.take(all.len() as int) == all);
            RawConfig::Mapping(out)
        },
    }
}

/// Reads the keys of a configuration file and drops what is not known, if the file is
/// YAML.
pub fn sanitize_yaml(raw: &str, warnings: &mut Vec<String>) -> (r: Option<RawConfig>)
    ensures
        match r {
            Some(kept) => yaml_outline(raw@) is Some && kept@ == sanitized(yaml_outline(raw@)->Some_0),
            None => yaml_outline(raw@) is None,
        },
        texts(final(warnings)@) == texts(old(warnings)@) + match yaml_outline(raw@) {
            Some(t) => sanitize_warnings(t),
            None => seq![],
        },
{
    let ghost before = texts(warnings@);
    assert(before + Seq::<Seq<char>>::empty() == before);
    match outline_yaml(raw) {
        Some(outline) => Some(sanitize(&outline, warnings)),
        None => None,
    }
}

proof fn lemma_kept_keys(section: Seq<char>, known: Seq<Seq<char>>, keys: Seq<Key>)
    ensures
        kept_keys(known, kept_keys(known, keys)) == kept_keys(known, keys),
        key_warnings(section, known, kept_keys(known, keys)) == Seq::<Seq<char>>::empty(),
    decreases keys.len(),
{
    if keys.len() > 0 {
        let init = kept_keys(known, keys.drop_last());
        lemma_kept_keys(section, known, keys.drop_last());
        if key_stays(known, keys.last()) {
            assert(init.push(keys.last()).drop_last() == init);
        }
    }
}

proof fn lemma_kept_sections(v: Seq<Section>)
    ensures
        kept_sections(kept_sections(v)) == kept_sections(v),
        all_warnings(kept_sections(v)) == Seq::<Seq<char>>::empty(),
    decreases v.len(),
{
    if v.len() > 0 {
        let init = kept_sections(v.drop_last());
        let s = v.last();
        lemma_kept_sections(v.drop_last());
        if section_stays(s) {
            let kept = kept_section(s);
            assert(init.push(kept).drop_last() == init);
            match (known_keys(s.key.text), s.keys) {
                (Some(known), Some(keys)) => {
                    lemma_kept_keys(s.key.text, known, keys);
                },
                _ => {},
            }
        }
    }
}

/// A configuration that was sorted out once has nothing left to sort out: a second
/// time drops nothing and says nothing.
pub proof fn law_sanitize_is_idempotent(t: Tree)
    ensures
        sanitized(sanitized(t)) == sanitized(t),
        sanitize_warnings(sanitized(t)) == Seq::<Seq<char>>::empty(),
{
    match t {
        Tree::Mapping(v) => {
            lemma_kept_sections(v);
        },
        _ => {},
    }
}

proof fn lemma_kept_are_known(v: Seq<Section>, i: int)
    requires
        0 <= i < kept_sections(v).len(),
    ensures
        section_stays(kept_sections(v)[i]),
        match (known_keys(kept_sections(v)[i].key.text), kept_sections(v)[i].keys) {
            (Some(known), Some(keys)) => forall|j: int|
                0 <= j < keys.len() ==> key_stays(known, #[trigger] keys[j]),
            _ => true,
        },
    decreases v.len(),
{
    if v.len() > 0 {
        let init = kept_sections(v.drop_last());
        if i < init.len() {
            lemma_kept_are_known(v.drop_last(), i);
        } else {
            match (known_keys(v.last().key.text), v.last().keys) {
                (Some(known), Some(keys)) => {
                    lemma_kept_keys_are_known(known, keys);
                },
                _ => {},
            }
        }
    }
}

proof fn lemma_kept_keys_are_known(known: Seq<Seq<char>>, keys: Seq<Key>)
    ensures
        forall|j: int|
            0 <= j < kept_keys(known, keys).len() ==> key_stays(
                known,
                #[trigger] kept_keys(known, keys)[j],
            ),
    decreases keys.len(),
{
    if keys.len() > 0 {
        let init = kept_keys(known, keys.drop_last());
        let all = kept_keys(known, keys);
        lemma_kept_keys_are_known(known, keys.drop_last());
        assert forall|j: int| 0 <= j < all.len() implies key_stays(known, #[trigger] all[j]) by {
            if j < init.len() {
                assert(all[j] == init[j]);
            }
        }
    }
}

/// Only known sections are left, and in each of them only known keys.
pub proof fn law_only_known_keys_are_left(v: Seq<Section>, i: int)
    requires
        0 <= i < kept_sections(v).len(),
    ensures
        kept_sections(v)[i].key.is_name,
        known_keys(kept_sections(v)[i].key.text) is Some,
        match kept_sections(v)[i].keys {
            Some(keys) => forall|j: int|
                0 <= j < keys.len() ==> key_stays(
                    known_keys(kept_sections(v)[i].key.text)->Some_0,
                    #[trigger] keys[j],
                ),
            None => true,
        },
{
    lemma_kept_are_known(v, i);
}

// --- Which file is taken -------------------------------------------------------

/// A file that may hold the configuration, and whether it is there.
#[derive(Debug)]
pub struct Candidate {
    pub path: String,
    pub exists: bool,
}

/// Where the configuration comes from.
#[derive(Debug)]
pub enum ConfigSource {
    File(String),
    Defaults,
}

/// Where configurations are looked for when none is named: where the environment
/// says, in the working directory, and in the home directory.
pub open spec fn candidate_paths(env: Option<Seq<char>>, home: Option<Seq<char>>) -> Seq<Seq<char>> {
    let here = match env {
        Some(path) => seq![path, "config.yaml"@],
        None => seq!["config.yaml"@],
    };
    match home {
        Some(dir) => here.push(path_in(dir, ".config/prompt-codec/config.yaml"@)),
        None => here,
    }
}

/// Where configurations are looked for when none is named.
pub fn config_candidates(env: Option<String>, home: Option<String>) -> (r: Vec<String>)
    ensures
        texts(r@) == candidate_paths(opt_text(env), opt_text(home)),
{
    let ghost model = candidate_paths(opt_text(env), opt_text(home));
    let mut out: Vec<String> = Vec::new();
    if let Some(path) = env {
        out.push(path);
    }
    out.push("config.yaml".to_owned());
    if let Some(dir) = home {
        out.push(join_path(dir.as_str(), ".config/prompt-codec/config.yaml"));
    }
    assert(texts(out@) == model);
    out
}

/// The first candidate that is there.
pub open spec fn first_there(candidates: Seq<Candidate>) -> Option<Seq<char>>
    decreases candidates.len(),
{
    if candidates.len() == 0 {
        None
    } else if candidates[0].exists {
        Some(candidates[0].path@)
    } else {
        first_there(candidates.skip(1))
    }
}

/// Which file is taken: the one that was named, which has to be there, or else the
/// first candidate that is there, or else none.
pub fn resolve_config_with_candidates(
    explicit: Option<Candidate>,
    candidates: &Vec<Candidate>,
) -> (r: Result<ConfigSource, String>)
    ensures
        match explicit {
            Some(file) => match r {
                Ok(ConfigSource::File(path)) => file.exists && path@ == file.path@,
                Ok(ConfigSource::Defaults) => false,
                Err(e) => !file.exists && e@ == "config file not found: "@ + file.path@,
            },
            None => match r {
                Ok(ConfigSource::File(path)) => first_there(candidates@) == Some(path@),
                Ok(ConfigSource::Defaults) => first_there(candidates@) is None,
                Err(_) => false,
            },
        },
{
    if let Some(file) = explicit {
        if !file.exists {
            return Err(join2("config file not found: ", file.path.as_str()));
        }
        return Ok(ConfigSource::File(file.path));
    }
    let mut i: usize = 0;
    assert(candidates@.skip(0) == candidates@);
    while i < candidates.len()
        invariant
            i <= candidates@.len(),
            explicit is None,
            first_there(candidates@.skip(i as int)) == first_there(candidates@),
        decreases candidates@.len() - i,
    {
        if candidates[i].exists {
            return Ok(ConfigSource::File(candidates[i].path.as_str().to_owned()));
        }
        assert(candidates@.skip(i as int).skip(1) == candidates@.skip(i + 1));
        i = i + 1;
    }
    Ok(ConfigSource::Defaults)
}

/// The name of a configuration's source.
pub fn source_name(source: &ConfigSource) -> (r: String)
    ensures
        r@ == match source {
            ConfigSource::File(path) => path@,
            ConfigSource::Defaults => "built-in defaults"@,
        },
{
    match source {
        ConfigSource::File(path) => path.as_str().to_owned(),
        ConfigSource::Defaults => "built-in defaults".to_owned(),
    }
}

/// What can go wrong with a configuration file.
#[derive(Debug, Clone, Copy, PartialEq, Eq, Structural)]
pub enum LoadFailure {
    /// It cannot be read.
    Read,
    /// It is not YAML.
    Parse,
    /// Its values are not of the right types.
    Load,
}

/// What is said when a configuration file cannot be taken.
pub fn load_error(failure: LoadFailure, path: &str) -> (r: String)
    ensures
        r@ == (match failure {
            LoadFailure::Read => "failed to read config file: "@,
            LoadFailure::Parse => "failed to parse YAML config: "@,
            LoadFailure::Load => "failed to load config: "@,
        }) + path@,
{
    match failure {
        LoadFailure::Read => join2("failed to read config file: ", path),
        LoadFailure::Parse => join2("failed to parse YAML config: ", path),
        LoadFailure::Load => join2("failed to load config: ", path),
    }
}

/// Says so, if a knob is turned that has no effect.
pub fn warn_reserved(list_trim_enabled: bool, warnings: &mut Vec<String>)
    ensures
        texts(final(warnings)@) == if list_trim_enabled {
            texts(old(warnings)@).push(
                "encoder.list_trim_enabled is reserved and not implemented in v2; ignored"@,
            )
        } else {
            texts(old(warnings)@)
        },
{
    if list_trim_enabled {
        push_warning(
            warnings,
            "encoder.list_trim_enabled is reserved and not implemented in v2; ignored".to_owned(),
        );
    }
}

} // verus!
