//! The local model: what it is asked, and what its answers count as.

use crate::codec::{front, truncate_chars};
use crate::config::LocalConfig;
use crate::decimal::{decimal, decimal_chars};
use crate::json::{
    find_member, find_string, json_of, member, shape_of, string_member, Json, Shape,
};
use crate::outside::{json_read, read_json, texts};
use crate::text::{blank, is_blank, join2, join3, opt_text, same_text, string_of, trim, trim_text};
use crate::url::{trim_end_char, without_trailing};
use vstd::prelude::*;

verus! {

broadcast use vstd::string::group_string_axioms;

/// What the model is told to do.
pub const ENCODE_SYSTEM: &'static str = r#"You are a PROMPT COMPRESSOR for paid LLM APIs.
Your job: rewrite the user's message so a strong cloud model still does the task correctly,
but with far fewer tokens.

Hard rules:
1. Preserve: goals, constraints, file paths, function/class names, error text, exact quotes, IDs, URLs, numbers, durations/TTLs/timeouts, limits and thresholds, quantities with their units, version numbers, acceptance criteria. Every concrete value in the original must appear in your output.
2. Remove: fluff, politeness, repetition, obvious commentary, restated instructions, markdown decoration that adds no info.
3. Prefer: short imperative bullets, dense technical English, tables only if denser than prose.
4. Do NOT answer the task. Only output the compressed prompt text.
5. Do NOT invent requirements. If unsure, keep the original phrase.
6. Keep code blocks if they are necessary evidence; otherwise summarize with path + signature + 1-line intent.
7. Target roughly the requested compression ratio, but never drop task-critical detail.
8. Output ONLY the compressed prompt — no preamble, no "here's the compressed version"."#;

// --- The request ---------------------------------------------------------------

/// The target in percent, as it is put to the model: from 5 to 95.
pub open spec fn target_pct(raw: int) -> int {
    if raw < 5 {
        5
    } else if raw > 95 {
        95
    } else {
        raw
    }
}

/// How many tokens the model may answer with: what the job asks for, from 256 up to
/// the configured limit.
pub open spec fn budget(raw: int, max_tokens: int) -> int {
    if raw < 256 || max_tokens < 256 {
        256
    } else if raw > max_tokens {
        max_tokens
    } else {
        raw
    }
}

/// How the text is put to the model.
pub open spec fn user_prompt(text: Seq<char>, pct: int) -> Seq<char> {
    "Target length: about "@ + decimal(pct as nat)
        + "% of the original token count.\n\n--- ORIGINAL PROMPT ---\n"@ + text
        + "\n--- END ---\n\nCarry over EVERY concrete value from the original (paths, IDs, error text, durations, TTLs, limits, versions). A compressed prompt missing any of them is wrong."@
}

/// A request to the model.
#[derive(Debug)]
pub struct ChatRequest {
    pub url: String,
    pub model: String,
    pub system: String,
    pub user: String,
    pub max_tokens: u32,
    /// Sent where it is there.
    pub reasoning_effort: Option<String>,
    /// Sent where it is there.
    pub keep_alive: Option<String>,
}

/// A setting that is sent unless it is empty.
pub open spec fn unless_empty(s: Seq<char>) -> Option<Seq<char>> {
    if s.len() == 0 {
        None
    } else {
        Some(s)
    }
}

fn some_unless_empty(s: &str) -> (r: Option<String>)
    ensures
        opt_text(r) == unless_empty(s@),
{
    if s.is_empty() {
        None
    } else {
        Some(s.to_owned())
    }
}

// --- The reply -----------------------------------------------------------------

/// One of the answers in a reply.
#[derive(Debug)]
pub struct Choice {
    pub content: Option<String>,
    pub finish_reason: Option<String>,
}

/// What came of a request.
#[derive(Debug)]
pub enum Exchange {
    /// Nothing could be sent, or nothing came back.
    SendFailed,
    /// The body of the reply could not be read.
    BodyFailed,
    /// A reply: its status, as a number and in words, its body, and the answers in
    /// it, if the body could be understood.
    Reply { status: u16, status_text: String, body: String, choices: Option<Vec<Choice>> },
}

/// The status of a reply that went well.
pub open spec fn is_success(status: u16) -> bool {
    200 <= status < 300
}

/// The text of an answer.
pub open spec fn choice_text(c: Choice) -> Seq<char> {
    match c.content {
        Some(s) => s@,
        None => seq![],
    }
}

/// What an answer counts as. One that was cut off always looks like a saving and is
/// turned down.
pub open spec fn read_choice(c: Choice) -> Result<Seq<char>, Seq<char>> {
    if opt_text(c.finish_reason) == Some("length"@) {
        Err("local LLM output truncated (finish_reason=length)"@)
    } else if is_blank(choice_text(c)) {
        Err("local LLM returned empty content"@)
    } else {
        Ok(trim(choice_text(c)))
    }
}

/// What an exchange with the model counts as: the text of the first answer, without
/// the white space around it, or what went wrong.
pub open spec fn read_exchange(e: Exchange) -> Result<Seq<char>, Seq<char>> {
    match e {
        Exchange::SendFailed => Err("local LLM request failed"@),
        Exchange::BodyFailed => Err("failed to read local LLM response body"@),
        Exchange::Reply { status, status_text, body, choices } => if !is_success(status) {
            Err("local LLM returned "@ + status_text@ + (": "@ + front(body@, 200)))
        } else {
            match choices {
                None => Err("failed to parse local LLM response: "@ + front(body@, 200)),
                Some(v) => if v@.len() == 0 {
                    Err("local LLM response had no choices"@)
                } else {
                    read_choice(v@[0])
                },
            }
        },
    }
}

/// What a result says.
pub open spec fn said(r: Result<String, String>) -> Result<Seq<char>, Seq<char>> {
    match r {
        Ok(s) => Ok(s@),
        Err(e) => Err(e@),
    }
}

fn interpret_choice(c: &Choice) -> (r: Result<String, String>)
    ensures
        said(r) == read_choice(*c),
{
    if let Some(reason) = &c.finish_reason {
        if same_text(reason.as_str(), "length") {
            return Err("local LLM output truncated (finish_reason=length)".to_owned());
        }
    }
    match &c.content {
        Some(s) => {
            if blank(s.as_str()) {
                Err("local LLM returned empty content".to_owned())
            } else {
                Ok(trim_text(s.as_str()))
            }
        },
        None => Err("local LLM returned empty content".to_owned()),
    }
}

/// What an exchange with the model counts as.
pub fn interpret(exchange: &Exchange) -> (r: Result<String, String>)
    ensures
        said(r) == read_exchange(*exchange),
{
    match exchange {
        Exchange::SendFailed => Err("local LLM request failed".to_owned()),
        Exchange::BodyFailed => Err("failed to read local LLM response body".to_owned()),
        Exchange::Reply { status, status_text, body, choices } => {
            let start: String = truncate_chars(body.as_str(), 200);
            if *status < 200 || *status >= 300 {
                let tail: String = join2(": ", start.as_str());
                return Err(join3("local LLM returned ", status_text.as_str(), tail.as_str()));
            }
            match choices {
                None => Err(join2("failed to parse local LLM response: ", start.as_str())),
                Some(v) => {
                    if v.len() == 0 {
                        Err("local LLM response had no choices".to_owned())
                    } else {
                        interpret_choice(&v[0])
                    }
                },
            }
        },
    }
}

/// A text that the model is credited with says something, and comes out of a reply
/// that went well and was not cut off.
pub proof fn law_credited_text_says_something(e: Exchange)
    requires
        read_exchange(e) is Ok,
    ensures
        read_exchange(e)->Ok_0.len() > 0,
        match e {
            Exchange::Reply { status, status_text, body, choices } => is_success(status) && match choices {
                Some(v) => v@.len() > 0 && opt_text(v@[0].finish_reason) != Some("length"@),
                None => false,
            },
            _ => false,
        },
{
}

// --- Health --------------------------------------------------------------------

/// The listing of models in a reply.
#[derive(Debug)]
pub enum Listing {
    /// The reply is no listing.
    Unknown,
    /// A listing of nothing.
    Nothing,
    /// The names of the models, where they have names.
    Models(Vec<Option<String>>),
}

/// What came of asking for the models.
#[derive(Debug)]
pub enum Probe {
    /// Nothing came back; the error says why.
    Failed(String),
    Reply { status: u16, listing: Listing },
}

/// How the local model is doing.
#[derive(Debug)]
pub struct LlmHealth {
    pub ok: bool,
    pub status: Option<u16>,
    pub error: Option<String>,
    pub base_url: String,
    pub model: String,
    /// Whether the model is in the listing; `None` where there is no listing. It does
    /// not matter to `ok`.
    pub model_present: Option<bool>,
}

/// One of the models has this name.
pub open spec fn lists(models: Seq<Option<String>>, model: Seq<char>) -> bool {
    exists|i: int| 0 <= i < models.len() && opt_text(#[trigger] models[i]) == Some(model)
}

/// Whether a listing holds the model, as far as it says.
pub open spec fn listed(listing: Listing, model: Seq<char>) -> Option<bool> {
    match listing {
        Listing::Unknown => None,
        Listing::Nothing => Some(false),
        Listing::Models(v) => Some(lists(v@, model)),
    }
}

/// What a listing stands for.
pub enum Names {
    Unknown,
    Nothing,
    Models(Seq<Option<Seq<char>>>),
}

impl View for Listing {
    type V = Names;

    open spec fn view(&self) -> Names {
        match self {
            Listing::Unknown => Names::Unknown,
            Listing::Nothing => Names::Nothing,
            Listing::Models(v) => Names::Models(v@.map_values(|n: Option<String>| opt_text(n))),
        }
    }
}

/// The name of a model in a listing.
pub open spec fn model_name(item: Seq<char>) -> Option<Seq<char>> {
    match shape_of(item) {
        Shape::Object(ms) => string_member(ms, "id"@),
        _ => None,
    }
}

/// The listing that JSON is: an object with `data`, which is a list of models, or nothing
/// where there are none. Anything else is no listing.
pub open spec fn names_given(shape: Shape) -> Names {
    match shape {
        Shape::Object(ms) => match member(ms, "data"@) {
            Some(data) => match shape_of(data) {
                Shape::Array(items) => Names::Models(items.map_values(|t: Seq<char>| model_name(t))),
                Shape::Null => Names::Nothing,
                _ => Names::Unknown,
            },
            None => Names::Unknown,
        },
        _ => Names::Unknown,
    }
}

/// The listing in the body of a reply, if the body could be read.
pub open spec fn names_in(body: Option<Seq<u8>>) -> Names {
    match body {
        Some(bytes) => names_given(json_read(bytes)),
        None => Names::Unknown,
    }
}

fn name_of(item: &str) -> (r: Option<String>)
    ensures
        opt_text(r) == model_name(item@),
{
    match json_of(item) {
        Json::Object(ms) => find_string(&ms, "id"),
        _ => None,
    }
}

/// The listing that JSON is.
pub fn listing_from(json: Json) -> (r: Listing)
    ensures
        r@ == names_given(json@),
{
    if let Json::Object(ms) = json {
        if let Some(data) = find_member(&ms, "data") {
            return match json_of(data) {
                Json::Null => Listing::Nothing,
                Json::Array(items) => {
                    let mut names: Vec<Option<String>> = Vec::new();
                    let mut i: usize = 0;
                    while i < items.len()
                        invariant
                            i <= items@.len(),
                            names@.len() == i,
                            forall|k: int|
                                0 <= k < i ==> opt_text(#[trigger] names@[k]) == model_name(
                                    items@[k]@,
                                ),
                        decreases items@.len() - i,
                    {
                        names.push(name_of(items[i].as_str()));
                        i = i + 1;
                    }
                    assert(names@.map_values(|n: Option<String>| opt_text(n)) =~= texts(
                        items@,
                    ).map_values(|t: Seq<char>| model_name(t)));
                    Listing::Models(names)
                },
                _ => Listing::Unknown,
            };
        }
    }
    Listing::Unknown
}

/// The listing in the body of a reply, if the body could be read.
pub fn read_listing(body: Option<&[u8]>) -> (r: Listing)
    ensures
        r@ == names_in(
            match body {
                Some(b) => Some(b@),
                None => None,
            },
        ),
{
    match body {
        Some(bytes) => listing_from(read_json(bytes)),
        None => Listing::Unknown,
    }
}

fn has_model(models: &Vec<Option<String>>, model: &str) -> (r: bool)
    ensures
        r == lists(models@, model@),
{
    let mut i: usize = 0;
    while i < models.len()
        invariant
            i <= models@.len(),
            forall|j: int| 0 <= j < i ==> opt_text(#[trigger] models@[j]) != Some(model@),
        decreases models@.len() - i,
    {
        if let Some(name) = &models[i] {
            if same_text(name.as_str(), model) {
                assert(opt_text(models@[i as int]) == Some(model@));
                return true;
            }
        }
        i = i + 1;
    }
    false
}

// --- The client ----------------------------------------------------------------

/// What is known of the local model.
#[derive(Debug)]
pub struct LlmClient {
    base_url: String,
    api_key: String,
    model: String,
    max_tokens: u32,
    reasoning_effort: String,
    keep_alive: String,
}

impl LlmClient {
    /// The base of its addresses, without a slash at its end.
    pub closed spec fn spec_base_url(&self) -> Seq<char> {
        self.base_url@
    }

    pub closed spec fn spec_api_key(&self) -> Seq<char> {
        self.api_key@
    }

    pub closed spec fn spec_model(&self) -> Seq<char> {
        self.model@
    }

    pub closed spec fn spec_max_tokens(&self) -> u32 {
        self.max_tokens
    }

    pub closed spec fn spec_reasoning_effort(&self) -> Seq<char> {
        self.reasoning_effort@
    }

    pub closed spec fn spec_keep_alive(&self) -> Seq<char> {
        self.keep_alive@
    }

    pub fn new(cfg: &LocalConfig) -> (r: Self)
        ensures
            r.spec_base_url() == without_trailing(cfg.base_url@, '/'),
            r.spec_api_key() == cfg.api_key@,
            r.spec_model() == cfg.model@,
            r.spec_max_tokens() == cfg.max_tokens,
            r.spec_reasoning_effort() == cfg.reasoning_effort@,
            r.spec_keep_alive() == cfg.keep_alive@,
    {
        LlmClient {
            base_url: trim_end_char(cfg.base_url.as_str(), '/'),
            api_key: cfg.api_key.as_str().to_owned(),
            model: cfg.model.as_str().to_owned(),
            max_tokens: cfg.max_tokens,
            reasoning_effort: cfg.reasoning_effort.as_str().to_owned(),
            keep_alive: cfg.keep_alive.as_str().to_owned(),
        }
    }

    /// The model's name.
    pub fn model(&self) -> (r: &str)
        ensures
            r@ == self.spec_model(),
    {
        self.model.as_str()
    }

    /// What the model is reached with.
    pub fn api_key(&self) -> (r: &str)
        ensures
            r@ == self.spec_api_key(),
    {
        self.api_key.as_str()
    }

    /// What the model is asked, to compress a text. `raw_pct` is the target in percent
    /// and `raw_budget` the number of tokens that the job asks for, before either is
    /// brought into its range.
    pub fn encode_text(&self, text: &str, raw_pct: i64, raw_budget: u32) -> (r: ChatRequest)
        ensures
            r.url@ == self.spec_base_url() + "/chat/completions"@,
            r.model@ == self.spec_model(),
            r.system@ == ENCODE_SYSTEM@,
            r.user@ == user_prompt(text@, target_pct(raw_pct as int)),
            r.max_tokens == budget(raw_budget as int, self.spec_max_tokens() as int),
            opt_text(r.reasoning_effort) == unless_empty(self.spec_reasoning_effort()),
            opt_text(r.keep_alive) == unless_empty(self.spec_keep_alive()),
    {
        let pct: u64 = if raw_pct < 5 {
            5
        } else if raw_pct > 95 {
            95
        } else {
            raw_pct as u64
        };
        let max_tokens: u32 = if raw_budget < 256 || self.max_tokens < 256 {
            256
        } else if raw_budget > self.max_tokens {
            self.max_tokens
        } else {
            raw_budget
        };
        let number: String = string_of(decimal_chars(pct).as_slice());
        let head: String = join3(
            "Target length: about ",
            number.as_str(),
            "% of the original token count.\n\n--- ORIGINAL PROMPT ---\n",
        );
        let user: String = join3(
            head.as_str(),
            text,
            "\n--- END ---\n\nCarry over EVERY concrete value from the original (paths, IDs, error text, durations, TTLs, limits, versions). A compressed prompt missing any of them is wrong.",
        );
        ChatRequest {
            url: join2(self.base_url.as_str(), "/chat/completions"),
            model: self.model.as_str().to_owned(),
            system: ENCODE_SYSTEM.to_owned(),
            user,
            max_tokens,
            reasoning_effort: some_unless_empty(self.reasoning_effort.as_str()),
            keep_alive: some_unless_empty(self.keep_alive.as_str()),
        }
    }

    /// Where the models are listed.
    pub fn models_url(&self) -> (r: String)
        ensures
            r@ == self.spec_base_url() + "/models"@,
    {
        join2(self.base_url.as_str(), "/models")
    }

    /// How the local model is doing, given what came of asking for the models.
    pub fn health(&self, probe: Probe) -> (r: LlmHealth)
        ensures
            r.base_url@ == self.spec_base_url(),
            r.model@ == self.spec_model(),
            match probe {
                Probe::Failed(e) => {
                    &&& !r.ok
                    &&& r.status is None
                    &&& opt_text(r.error) == Some(e@)
                    &&& r.model_present is None
                },
                Probe::Reply { status, listing } => {
                    &&& r.ok == (status < 400)
                    &&& r.status == Some(status)
                    &&& r.error is None
                    &&& r.model_present == listed(listing, self.spec_model())
                },
            },
    {
        let base_url: String = self.base_url.as_str().to_owned();
        let model: String = self.model.as_str().to_owned();
        match probe {
            Probe::Failed(e) => LlmHealth {
                ok: false,
                status: None,
                error: Some(e),
                base_url,
                model,
                model_present: None,
            },
            Probe::Reply { status, listing } => {
                let model_present: Option<bool> = match &listing {
                    Listing::Unknown => None,
                    Listing::Nothing => Some(false),
                    Listing::Models(v) => Some(has_model(v, self.model.as_str())),
                };
                LlmHealth {
                    ok: status < 400,
                    status: Some(status),
                    error: None,
                    base_url,
                    model,
                    model_present,
                }
            },
        }
    }
}

/// The timeout of a request, in nanoseconds: what is configured, or one second where
/// that is nothing or no length of time at all.
pub fn request_timeout_nanos(configured: Option<u128>) -> (r: u128)
    ensures
        r == match configured {
            Some(n) => if n > 0 {
                n
            } else {
                1_000_000_000
            },
            None => 1_000_000_000,
        },
{
    match configured {
        Some(n) => if n > 0 {
            n
        } else {
            1_000_000_000
        },
        None => 1_000_000_000,
    }
}

} // verus!
