//! The command line: where its input comes from, and what it prints.

use crate::decimal::{decimal, decimal_text};
use crate::outside::texts;
use crate::stats::{saved, TokenStats};
use crate::text::{chars_of, join2, join3, opt_text, push_all, same_text, string_of};
use vstd::prelude::*;

verus! {

broadcast use vstd::string::group_string_axioms;

/// How a prompt is encoded.
#[derive(Debug, Clone, Copy, PartialEq, Eq, Structural)]
pub enum Mode {
    /// The rules alone.
    Rules,
    /// The local model alone.
    Local,
    /// The rules first, then the local model.
    Hybrid,
}

/// The name of a mode.
pub open spec fn mode_name(mode: Mode) -> Seq<char> {
    match mode {
        Mode::Rules => "rules"@,
        Mode::Local => "local"@,
        Mode::Hybrid => "hybrid"@,
    }
}

impl Mode {
    /// The name of the mode.
    pub fn as_str(self) -> (r: &'static str)
        ensures
            r@ == mode_name(self),
    {
        match self {
            Mode::Rules => "rules",
            Mode::Local => "local",
            Mode::Hybrid => "hybrid",
        }
    }

    /// The mode of this name, if there is one.
    pub fn from_name(name: &str) -> (r: Option<Self>)
        ensures
            match r {
                Some(mode) => name@ == mode_name(mode),
                None => forall|mode: Mode| name@ != #[trigger] mode_name(mode),
            },
    {
        if same_text(name, "rules") {
            Some(Mode::Rules)
        } else if same_text(name, "local") {
            Some(Mode::Local)
        } else if same_text(name, "hybrid") {
            Some(Mode::Hybrid)
        } else {
            None
        }
    }
}

/// Whether a health check fails: the local model does not answer, or it is known not
/// to be there. Not knowing is no failure.
pub fn health_failed(ok: bool, model_present: Option<bool>) -> (r: bool)
    ensures
        r == (!ok || model_present == Some(false)),
{
    if !ok {
        return true;
    }
    match model_present {
        Some(present) => !present,
        None => false,
    }
}

/// A file that was named on the command line, and what is in it, if it could be read.
#[derive(Debug)]
pub struct FileInput {
    pub path: String,
    pub content: Option<String>,
}

/// The input of `encode`: a file that was named, or else a text, or else what is
/// piped in.
pub open spec fn input_of(
    text: Option<Seq<char>>,
    file: Option<(Seq<char>, Option<Seq<char>>)>,
    piped: Option<Seq<char>>,
) -> Result<Seq<char>, Seq<char>> {
    match file {
        Some((_, Some(content))) => Ok(content),
        Some((path, None)) => Err("failed to read file "@ + path),
        None => match (text, piped) {
            (Some(t), _) => Ok(t),
            (None, Some(s)) => Ok(s),
            (None, None) => Err("Provide text, --file, or pipe stdin"@),
        },
    }
}

/// What a named file stands for.
pub open spec fn file_view(file: Option<FileInput>) -> Option<(Seq<char>, Option<Seq<char>>)> {
    match file {
        Some(f) => Some((f.path@, opt_text(f.content))),
        None => None,
    }
}

/// The input of `encode`, or what is wrong with it.
pub fn read_input(
    text: Option<String>,
    file: Option<FileInput>,
    stdin_content: Option<String>,
) -> (r: Result<String, String>)
    ensures
        (match r {
            Ok(s) => Ok(s@),
            Err(e) => Err(e@),
        }) == input_of(opt_text(text), file_view(file), opt_text(stdin_content)),
{
    if let Some(f) = file {
        return match f.content {
            Some(content) => Ok(content),
            None => Err(join2("failed to read file ", f.path.as_str())),
        };
    }
    if let Some(t) = text {
        return Ok(t);
    }
    match stdin_content {
        Some(s) => Ok(s),
        None => Err("Provide text, --file, or pipe stdin".to_owned()),
    }
}

/// The notes, with a comma and a space between each two.
pub open spec fn listed_notes(notes: Seq<Seq<char>>) -> Seq<char>
    decreases notes.len(),
{
    if notes.len() == 0 {
        seq![]
    } else if notes.len() == 1 {
        notes[0]
    } else {
        listed_notes(notes.drop_last()) + ", "@ + notes.last()
    }
}

fn list_notes(notes: &[String]) -> (r: String)
    ensures
        r@ == listed_notes(texts(notes@)),
{
    let ghost all = texts(notes@);
    let mut out: Vec<char> = Vec::new();
    let mut i: usize = 0;
    while i < notes.len()
        invariant
            i <= notes@.len(),
            all == texts(notes@),
            out@ == listed_notes(all.take(i as int)),
        decreases notes@.len() - i,
    {
        let ghost before = out@;
        if i > 0 {
            push_all(&mut out, chars_of(", ").as_slice());
        }
        push_all(&mut out, chars_of(notes[i].as_str()).as_slice());
        proof {
            assert(all.take(i + 1).drop_last() == all.take(i as int));
            assert(all.take(i + 1).last() == notes@[i as int]@);
            if i == 0 {
                assert(all.take(1)[0] == notes@[0]@);
                assert(before == Seq::<char>::empty());
                assert(out@ == notes@[0]@);
            }
        }
        i = i + 1;
    }
    assert(all.take(all.len() as int) == all);
    string_of(out.as_slice())
}

/// The report of what was saved.
pub open spec fn savings_report(
    before: nat,
    after: nat,
    pct: Seq<char>,
    usd: Seq<char>,
    mode: Seq<char>,
    notes: Seq<Seq<char>>,
) -> Seq<char> {
    "Token savings\n-------------\nBefore: "@ + decimal(before) + "\nAfter:  "@ + decimal(after)
        + "\nSaved:  "@ + decimal(saved(before as int, after as int) as nat) + " ("@ + pct
        + "%)\nEst. $ saved / call: $"@ + usd + "\nMode:   "@ + mode + "\nNotes:  "@ + if notes.len()
        == 0 {
        "—"@
    } else {
        listed_notes(notes)
    }
}

/// The report of what was saved. `pct` is the saving in percent, with one decimal, and
/// `usd` the saving in dollars, with six.
pub fn render_savings(
    stats: &TokenStats,
    pct: &str,
    usd: &str,
    mode_used: &str,
    notes: &[String],
) -> (r: String)
    ensures
        r@ == savings_report(
            stats.before_tokens as nat,
            stats.after_tokens as nat,
            pct@,
            usd@,
            mode_used@,
            texts(notes@),
        ),
{
    let before: String = decimal_text(stats.before_tokens);
    let after: String = decimal_text(stats.after_tokens);
    let less: String = decimal_text(stats.saved_tokens());
    let trail: String = if notes.len() == 0 {
        "—".to_owned()
    } else {
        list_notes(notes)
    };
    let a: String = join3(
        "Token savings\n-------------\nBefore: ",
        before.as_str(),
        "\nAfter:  ",
    );
    let b: String = join3(a.as_str(), after.as_str(), "\nSaved:  ");
    let c: String = join3(b.as_str(), less.as_str(), " (");
    let d: String = join3(c.as_str(), pct, "%)\nEst. $ saved / call: $");
    let e: String = join3(d.as_str(), usd, "\nMode:   ");
    let f: String = join3(e.as_str(), mode_used, "\nNotes:  ");
    join2(f.as_str(), trail.as_str())
}

/// A host that the proxy may be bound to without a warning.
pub open spec fn is_quiet_host(host: Seq<char>) -> bool {
    host == "127.0.0.1"@ || host == "localhost"@ || host == "::1"@
}

/// Whether the proxy may be bound to a host without a warning.
pub fn is_loopback_host(host: &str) -> (r: bool)
    ensures
        r == is_quiet_host(host@),
{
    same_text(host, "127.0.0.1") || same_text(host, "localhost") || same_text(host, "::1")
}

} // verus!
