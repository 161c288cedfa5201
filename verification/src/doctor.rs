//! Readiness: is the local model there, is upstream, and what is to be done if not.

use crate::config::AppConfig;
use crate::decimal::{decimal, decimal_text};
use crate::llm::LlmHealth;
use crate::outside::texts;
use crate::text::{join2, join3, opt_text, same_text};
use crate::url::{trim_end_char, trim_end_text, without_endings, without_trailing};
use vstd::prelude::*;

verus! {

broadcast use vstd::string::group_string_axioms;

// --- Another local server ------------------------------------------------------

/// Where a local server commonly listens.
pub open spec fn common_bases() -> Seq<Seq<char>> {
    seq!["http://127.0.0.1:11434/v1"@, "http://127.0.0.1:8080/v1"@]
}

/// The common bases, but for the configured one.
pub open spec fn other_bases(bases: Seq<Seq<char>>, configured: Seq<char>) -> Seq<Seq<char>>
    decreases bases.len(),
{
    if bases.len() == 0 {
        seq![]
    } else {
        let init = other_bases(bases.drop_last(), configured);
        if bases.last() == without_trailing(configured, '/') {
            init
        } else {
            init.push(bases.last())
        }
    }
}

/// The search for a local server that answers, while it is under way.
pub struct Search {
    pub bases: Seq<Seq<char>>,
    pub next: nat,
    pub found: Option<Seq<char>>,
}

/// The base that is to be asked next.
pub open spec fn to_ask(s: Search) -> Option<Seq<char>> {
    if s.found is None && s.next < s.bases.len() {
        Some(s.bases[s.next as int])
    } else {
        None
    }
}

/// The base that was to be asked has answered, well or not.
pub open spec fn after_answer(s: Search, healthy: bool) -> Search {
    match to_ask(s) {
        Some(base) => if healthy {
            Search { found: Some(base), ..s }
        } else {
            Search { next: s.next + 1, ..s }
        },
        None => s,
    }
}

/// The search for a local server that answers.
pub struct BaseSearch {
    bases: Vec<String>,
    next: usize,
    found: Option<String>,
}

impl View for BaseSearch {
    type V = Search;

    closed spec fn view(&self) -> Search {
        Search { bases: texts(self.bases@), next: self.next as nat, found: opt_text(self.found) }
    }
}

impl BaseSearch {
    /// The search among the common bases, but for the configured one. Where the local
    /// model answers, nothing is searched for.
    pub fn suggest_local_base(configured: &str, local_ok: bool) -> (r: Self)
        ensures
            r@ == (Search {
                bases: if local_ok {
                    seq![]
                } else {
                    other_bases(common_bases(), configured@)
                },
                next: 0,
                found: None,
            }),
    {
        if local_ok {
            let r: BaseSearch = BaseSearch { bases: Vec::new(), next: 0, found: None };
            assert(texts(r.bases@) == Seq::<Seq<char>>::empty());
            return r;
        }
        let own: String = trim_end_char(configured, '/');
        let all: Vec<&'static str> = vec!["http://127.0.0.1:11434/v1", "http://127.0.0.1:8080/v1"];
        let ghost model = common_bases();
        let mut bases: Vec<String> = Vec::new();
        let mut i: usize = 0;
        assert(texts(bases@) == Seq::<Seq<char>>::empty());
        while i < all.len()
            invariant
                i <= all@.len(),
                all@.len() == model.len(),
                forall|k: int| 0 <= k < all@.len() ==> (#[trigger] all@[k])@ == model[k],
                own@ == without_trailing(configured@, '/'),
                texts(bases@) == other_bases(model.take(i as int), configured@),
            decreases all@.len() - i,
        {
            let ghost before = texts(bases@);
            proof {
                assert(model.take(i + 1).drop_last() == model.take(i as int));
                assert(model.take(i + 1).last() == all@[i as int]@);
            }
            if !same_text(all[i], own.as_str()) {
                bases.push(all[i].to_owned());
                assert(texts(bases@) == before.push(all@[i as int]@));
            }
            i = i + 1;
        }
        assert(model.take(model.len() as int) == model);
        BaseSearch { bases, next: 0, found: None }
    }

    /// The base that is to be asked next, if there is one.
    pub fn current(&self) -> (r: Option<String>)
        ensures
            opt_text(r) == to_ask(self@),
    {
        if self.found.is_none() && self.next < self.bases.len() {
            assert(texts(self.bases@)[self.next as int] == self.bases@[self.next as int]@);
            Some(self.bases[self.next].as_str().to_owned())
        } else {
            None
        }
    }

    /// Goes on, now that it is known whether that base is healthy.
    pub fn answered(&mut self, healthy: bool)
        ensures
            final(self)@ == after_answer(old(self)@, healthy),
    {
        if let Some(base) = self.current() {
            if healthy {
                self.found = Some(base);
            } else {
                let n: usize = self.bases.len();
                assert(self.next < n);
                self.next = self.next + 1;
            }
        }
    }

    /// The base that was found.
    pub fn finish(self) -> (r: Option<String>)
        ensures
            opt_text(r) == self@.found,
    {
        self.found
    }
}

/// The bases that are asked are never the configured one, however many slashes it ends
/// in.
pub proof fn law_configured_base_is_not_asked(bases: Seq<Seq<char>>, configured: Seq<char>)
    ensures
        !other_bases(bases, configured).contains(without_trailing(configured, '/')),
    decreases bases.len(),
{
    if bases.len() > 0 {
        let init = other_bases(bases.drop_last(), configured);
        let own = without_trailing(configured, '/');
        law_configured_base_is_not_asked(bases.drop_last(), configured);
        if init.push(bases.last()).contains(own) && bases.last() != own {
            let k = choose|k: int|
                0 <= k < init.push(bases.last()).len() && init.push(bases.last())[k] == own;
            assert(init[k] == own);
        }
    }
}

/// Where a search ends up, if the bases answer it like this.
pub open spec fn searched(s: Search, healthy: spec_fn(Seq<char>) -> bool) -> Search
    decreases
            if s.found is None && s.next < s.bases.len() {
                s.bases.len() - s.next
            } else {
                0
            },
{
    match to_ask(s) {
        Some(base) => searched(after_answer(s, healthy(base)), healthy),
        None => s,
    }
}

proof fn lemma_searched(s: Search, healthy: spec_fn(Seq<char>) -> bool)
    requires
        s.found is None,
        s.next <= s.bases.len(),
        forall|j: int| 0 <= j < s.next ==> !healthy(#[trigger] s.bases[j]),
    ensures
        match searched(s, healthy).found {
            Some(base) => exists|k: int|
                0 <= k < s.bases.len() && base == #[trigger] s.bases[k] && healthy(base) && forall|
                    j: int,
                | 0 <= j < k ==> !healthy(#[trigger] s.bases[j]),
            None => forall|j: int| 0 <= j < s.bases.len() ==> !healthy(#[trigger] s.bases[j]),
        },
    decreases s.bases.len() - s.next,
{
    if s.next < s.bases.len() {
        let base = s.bases[s.next as int];
        let t = after_answer(s, healthy(base));
        if healthy(base) {
            assert(to_ask(t) is None);
            assert(searched(s, healthy) == searched(t, healthy));
            assert(searched(t, healthy) == t);
        } else {
            lemma_searched(t, healthy);
        }
    }
}

/// A search finds the first base that is healthy, and nothing only if none is.
pub proof fn law_search_finds_the_first_healthy(
    configured: Seq<char>,
    healthy: spec_fn(Seq<char>) -> bool,
)
    ensures
        ({
            let bases = other_bases(common_bases(), configured);
            let start = Search { bases, next: 0, found: None };
            match searched(start, healthy).found {
                Some(base) => exists|k: int|
                    0 <= k < bases.len() && base == #[trigger] bases[k] && healthy(base) && forall|
                        j: int,
                    | 0 <= j < k ==> !healthy(#[trigger] bases[j]),
                None => forall|j: int| 0 <= j < bases.len() ==> !healthy(#[trigger] bases[j]),
            }
        }),
{
    let bases = other_bases(common_bases(), configured);
    lemma_searched(Search { bases, next: 0, found: None }, healthy);
}

// --- Upstream ------------------------------------------------------------------

/// What asking upstream came to.
#[derive(Debug)]
pub struct UpstreamCheck {
    pub base_url: String,
    pub ok: bool,
    pub status: Option<u16>,
    pub error: Option<String>,
}

/// Where upstream is asked: for its models, and then for its health.
pub open spec fn upstream_urls(base_url: Seq<char>) -> Seq<Seq<char>> {
    let base = without_trailing(base_url, '/');
    seq![base + "/models"@, without_endings(base, "/v1"@) + "/health"@]
}

/// What one address of upstream answered.
#[derive(Debug)]
pub enum Answer {
    Status(u16),
    /// Nothing came back; the error says why.
    Failed(String),
}

/// The asking of upstream, while it is under way.
pub struct Asking {
    pub base_url: Seq<char>,
    pub urls: Seq<Seq<char>>,
    pub next: nat,
    pub ok: bool,
    pub status: Option<u16>,
    pub error: Option<Seq<char>>,
}

/// The address that is to be asked next.
pub open spec fn url_to_ask(s: Asking) -> Option<Seq<char>> {
    if !s.ok && s.next < s.urls.len() {
        Some(s.urls[s.next as int])
    } else {
        None
    }
}

/// The address that was to be asked has answered. Any answer but a failure of the
/// server's will do; otherwise the last status and the last error are kept.
pub open spec fn after_url(s: Asking, a: Answer) -> Asking {
    if url_to_ask(s) is None {
        s
    } else {
        match a {
            Answer::Status(status) => if status < 500 {
                Asking { ok: true, status: Some(status), error: None, ..s }
            } else {
                Asking {
                    next: s.next + 1,
                    status: Some(status),
                    error: Some("HTTP "@ + decimal(status as nat)),
                    ..s
                }
            },
            Answer::Failed(e) => Asking { next: s.next + 1, error: Some(e@), ..s },
        }
    }
}

/// The asking of upstream.
pub struct UpstreamProbe {
    base_url: String,
    urls: Vec<String>,
    next: usize,
    ok: bool,
    status: Option<u16>,
    error: Option<String>,
}

impl View for UpstreamProbe {
    type V = Asking;

    closed spec fn view(&self) -> Asking {
        Asking {
            base_url: self.base_url@,
            urls: texts(self.urls@),
            next: self.next as nat,
            ok: self.ok,
            status: self.status,
            error: opt_text(self.error),
        }
    }
}

impl UpstreamProbe {
    /// Starts to ask upstream.
    pub fn check_upstream(base_url: &str) -> (r: Self)
        ensures
            r@ == (Asking {
                base_url: base_url@,
                urls: upstream_urls(base_url@),
                next: 0,
                ok: false,
                status: None,
                error: None,
            }),
    {
        let base: String = trim_end_char(base_url, '/');
        let root: String = trim_end_text(base.as_str(), "/v1");
        let mut urls: Vec<String> = Vec::new();
        urls.push(join2(base.as_str(), "/models"));
        urls.push(join2(root.as_str(), "/health"));
        assert(texts(urls@) =~= upstream_urls(base_url@));
        UpstreamProbe {
            base_url: base_url.to_owned(),
            urls,
            next: 0,
            ok: false,
            status: None,
            error: None,
        }
    }

    /// The address that is to be asked next, if there is one.
    pub fn current(&self) -> (r: Option<String>)
        ensures
            opt_text(r) == url_to_ask(self@),
    {
        if !self.ok && self.next < self.urls.len() {
            assert(texts(self.urls@)[self.next as int] == self.urls@[self.next as int]@);
            Some(self.urls[self.next].as_str().to_owned())
        } else {
            None
        }
    }

    /// Goes on with what that address answered.
    pub fn answered(&mut self, answer: Answer)
        ensures
            final(self)@ == after_url(old(self)@, answer),
    {
        if self.ok || self.next >= self.urls.len() {
            return;
        }
        let n: usize = self.urls.len();
        match answer {
            Answer::Status(status) => {
                self.status = Some(status);
                if status < 500 {
                    self.ok = true;
                    self.error = None;
                } else {
                    let code: String = decimal_text(status as usize);
                    self.error = Some(join2("HTTP ", code.as_str()));
                    self.next = self.next + 1;
                }
            },
            Answer::Failed(e) => {
                self.error = Some(e);
                self.next = self.next + 1;
            },
        }
    }

    /// What it came to.
    pub fn finish(self) -> (r: UpstreamCheck)
        ensures
            r.base_url@ == self@.base_url,
            r.ok == self@.ok,
            r.status == self@.status,
            opt_text(r.error) == self@.error,
    {
        UpstreamCheck {
            base_url: self.base_url,
            ok: self.ok,
            status: self.status,
            error: self.error,
        }
    }
}

// --- The report ----------------------------------------------------------------

/// What was found, and what is to be done.
#[derive(Debug)]
pub struct DoctorReport {
    pub ok: bool,
    pub config_source: String,
    pub encoder_mode: String,
    pub local: LlmHealth,
    pub keep_alive: String,
    pub suggested_base_url: Option<String>,
    pub upstream: UpstreamCheck,
    pub hints: Vec<String>,
}

/// What the report goes by.
pub struct Findings {
    pub base_url: Seq<char>,
    pub model: Seq<char>,
    pub keep_alive: Seq<char>,
    pub mode: Seq<char>,
    pub upstream_url: Seq<char>,
    pub local_ok: bool,
    pub model_present: Option<bool>,
    pub suggested: Option<Seq<char>>,
    pub upstream_ok: bool,
}

/// Hints about the local model: it does not answer, and another server might do; or it
/// is known not to be there.
pub open spec fn local_hints(f: Findings) -> Seq<Seq<char>> {
    if !f.local_ok {
        let down = "local endpoint unreachable at "@ + f.base_url
            + " — start Ollama (`ollama serve`) or MLX-LM"@;
        match f.suggested {
            Some(alt) => seq![
                down,
                "found a healthy OpenAI-compatible server at "@ + alt
                    + "; set local.base_url to that"@,
            ],
            None => seq![down],
        }
    } else if f.model_present == Some(false) {
        seq!["model '"@ + f.model + "' not in listing — run: ollama pull "@ + f.model]
    } else {
        seq![]
    }
}

/// A hint about a model that may have to be loaded anew for each request.
pub open spec fn keep_alive_hints(f: Findings) -> Seq<Seq<char>> {
    if f.keep_alive.len() == 0 && (f.mode == "local"@ || f.mode == "hybrid"@) {
        seq![
            "local.keep_alive is empty — cold MLX/Ollama loads may exceed llm_timeout_s; set keep_alive: \"60m\""@,
        ]
    } else {
        seq![]
    }
}

/// A hint about upstream.
pub open spec fn upstream_hints(f: Findings) -> Seq<Seq<char>> {
    if !f.upstream_ok {
        seq![
            "upstream "@ + f.upstream_url
                + " not reachable — for Hermes+xAI OAuth try http://127.0.0.1:8317/v1 (`hermes proxy start --provider xai`)"@,
        ]
    } else {
        seq![]
    }
}

/// A hint about a mode that leaves the model out.
pub open spec fn mode_hints(f: Findings) -> Seq<Seq<char>> {
    if f.mode == "rules"@ {
        seq!["encoder.mode is rules — no local model pin; densify is rules-only"@]
    } else {
        seq![]
    }
}

/// All hints; if there are none, that all is ready.
pub open spec fn all_hints(f: Findings) -> Seq<Seq<char>> {
    let hints = local_hints(f) + keep_alive_hints(f) + upstream_hints(f) + mode_hints(f);
    if hints.len() == 0 {
        seq![ready_hint()]
    } else {
        hints
    }
}

/// What the report goes by.
pub open spec fn findings(
    cfg: AppConfig,
    local: LlmHealth,
    suggested: Option<String>,
    upstream: UpstreamCheck,
) -> Findings {
    Findings {
        base_url: cfg.local.base_url@,
        model: cfg.local.model@,
        keep_alive: cfg.local.keep_alive@,
        mode: cfg.encoder.mode@,
        upstream_url: cfg.proxy.upstream_base_url@,
        local_ok: local.ok,
        model_present: local.model_present,
        suggested: opt_text(suggested),
        upstream_ok: upstream.ok,
    }
}

fn push_hint(hints: &mut Vec<String>, line: String)
    ensures
        texts(final(hints)@) == texts(old(hints)@).push(line@),
{
    let ghost was = texts(hints@);
    let ghost lv = line@;
    hints.push(line);
    assert(texts(hints@) == was.push(lv));
}

fn hint_local(
    cfg: &AppConfig,
    local: &LlmHealth,
    suggested: &Option<String>,
    hints: &mut Vec<String>,
    f: Ghost<Findings>,
)
    requires
        f@.base_url == cfg.local.base_url@,
        f@.model == cfg.local.model@,
        f@.local_ok == local.ok,
        f@.model_present == local.model_present,
        f@.suggested == opt_text(*suggested),
    ensures
        texts(final(hints)@) =~= texts(old(hints)@) + local_hints(f@),
{
    if !local.ok {
        push_hint(
            hints,
            join3(
                "local endpoint unreachable at ",
                cfg.local.base_url.as_str(),
                " — start Ollama (`ollama serve`) or MLX-LM",
            ),
        );
        if let Some(alt) = suggested {
            push_hint(
                hints,
                join3(
                    "found a healthy OpenAI-compatible server at ",
                    alt.as_str(),
                    "; set local.base_url to that",
                ),
            );
        }
    } else if let Some(present) = local.model_present {
        if !present {
            let start: String = join3(
                "model '",
                cfg.local.model.as_str(),
                "' not in listing — run: ollama pull ",
            );
            push_hint(hints, join2(start.as_str(), cfg.local.model.as_str()));
        }
    }
}

/// The report on a configuration, given how the local model is doing, what other local
/// server was found, and what asking upstream came to. All is well if the local model
/// answers and is not known not to be there; another server is suggested only if it does
/// not answer.
pub fn run_doctor(
    cfg: &AppConfig,
    config_source: &str,
    local: LlmHealth,
    suggested: Option<String>,
    upstream: UpstreamCheck,
) -> (r: DoctorReport)
    ensures
        r.ok == (local.ok && local.model_present != Some(false)),
        r.config_source@ == config_source@,
        r.encoder_mode@ == cfg.encoder.mode@,
        r.local == local,
        r.keep_alive@ == cfg.local.keep_alive@,
        r.suggested_base_url == (if local.ok {
            None
        } else {
            suggested
        }),
        r.upstream == upstream,
        texts(r.hints@) == all_hints(findings(*cfg, local, suggested, upstream)),
{
    let ghost f = findings(*cfg, local, suggested, upstream);
    let mode: &str = cfg.encoder.mode.as_str();
    let mut hints: Vec<String> = Vec::new();
    hint_local(cfg, &local, &suggested, &mut hints, Ghost(f));
    assert(texts(hints@) =~= local_hints(f));
    if cfg.local.keep_alive.as_str().is_empty() && (same_text(mode, "local") || same_text(
        mode,
        "hybrid",
    )) {
        push_hint(
            &mut hints,
            "local.keep_alive is empty — cold MLX/Ollama loads may exceed llm_timeout_s; set keep_alive: \"60m\"".to_owned(),
        );
    }
    assert(texts(hints@) =~= local_hints(f) + keep_alive_hints(f));
    if !upstream.ok {
        push_hint(
            &mut hints,
            join3(
                "upstream ",
                cfg.proxy.upstream_base_url.as_str(),
                " not reachable — for Hermes+xAI OAuth try http://127.0.0.1:8317/v1 (`hermes proxy start --provider xai`)",
            ),
        );
    }
    assert(texts(hints@) =~= local_hints(f) + keep_alive_hints(f) + upstream_hints(f));
    if same_text(mode, "rules") {
        push_hint(
            &mut hints,
            "encoder.mode is rules — no local model pin; densify is rules-only".to_owned(),
        );
    }
    assert(texts(hints@) =~= local_hints(f) + keep_alive_hints(f) + upstream_hints(f) + mode_hints(f));
    if hints.len() == 0 {
        push_hint(
            &mut hints,
            "ready for Hermes: point providers.prompt_codec.api at http://127.0.0.1:8787/v1".to_owned(),
        );
    }
    assert(texts(hints@) =~= all_hints(f));
    let suggested_base_url: Option<String> = if local.ok {
        None
    } else {
        suggested
    };
    let absent: bool = match local.model_present {
        Some(present) => !present,
        None => false,
    };
    DoctorReport {
        ok: local.ok && !absent,
        config_source: config_source.to_owned(),
        encoder_mode: mode.to_owned(),
        local,
        keep_alive: cfg.local.keep_alive.as_str().to_owned(),
        suggested_base_url,
        upstream,
        hints,
    }
}

/// The hint that all is ready.
pub open spec fn ready_hint() -> Seq<char> {
    "ready for Hermes: point providers.prompt_codec.api at http://127.0.0.1:8787/v1"@
}

/// There is always a hint; and the one that all is ready is given, alone, exactly where
/// the local model answers and is not known not to be there, upstream answers, the model
/// takes part, and it is kept loaded.
pub proof fn law_doctor_says_ready_only_if_so(f: Findings)
    ensures
        all_hints(f).len() > 0,
        all_hints(f) == seq![ready_hint()] <==> (f.local_ok && f.model_present != Some(false)
            && f.upstream_ok && f.mode != "rules"@ && !(f.keep_alive.len() == 0 && (f.mode == "local"@
            || f.mode == "hybrid"@))),
{
    let hints = local_hints(f) + keep_alive_hints(f) + upstream_hints(f) + mode_hints(f);
    if hints.len() > 0 && hints[0] == ready_hint() {
        reveal_strlit("ready for Hermes: point providers.prompt_codec.api at http://127.0.0.1:8787/v1");
        assert(ready_hint()[0] == 'r');
        reveal_strlit("local endpoint unreachable at ");
        reveal_strlit("model '");
        reveal_strlit(
            "local.keep_alive is empty — cold MLX/Ollama loads may exceed llm_timeout_s; set keep_alive: \"60m\"",
        );
        reveal_strlit("upstream ");
        reveal_strlit("encoder.mode is rules — no local model pin; densify is rules-only");
        if !f.local_ok {
            assert(hints[0] == local_hints(f)[0]);
            assert(local_hints(f)[0][0] == 'l');
        } else if f.model_present == Some(false) {
            assert(hints[0] == local_hints(f)[0]);
            assert(local_hints(f)[0][0] == 'm');
        } else if keep_alive_hints(f).len() > 0 {
            assert(hints[0] == keep_alive_hints(f)[0]);
            assert(keep_alive_hints(f)[0][0] == 'l');
        } else if upstream_hints(f).len() > 0 {
            assert(hints[0] == upstream_hints(f)[0]);
            assert(upstream_hints(f)[0][0] == 'u');
        } else {
            assert(hints[0] == mode_hints(f)[0]);
            assert(mode_hints(f)[0][0] == 'e');
        }
    }
}

} // verus!
