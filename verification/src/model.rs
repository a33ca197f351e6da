//! Types both processes agree on: model kinds, subtitle segments, the engine
//! event protocol and the job description.

use std::path::PathBuf;
use vstd::prelude::*;

use crate::text::{chars_of, push_str, string_of};

verus! {

#[verifier::external_type_specification]
#[verifier::external_body]
pub struct ExPathBuf(std::path::PathBuf);

/// Bundled whisper models. Tiny / Base / Small only.
#[derive(Clone, Copy, PartialEq, Eq, Debug, Structural)]
pub enum Kind {
    Tiny,
    Base,
    Small,
}

pub open spec fn kind_file(k: Kind) -> Seq<char> {
    match k {
        Kind::Tiny => "ggml-tiny-q5_1.bin"@,
        Kind::Base => "ggml-base-q5_1.bin"@,
        Kind::Small => "ggml-small-q5_1.bin"@,
    }
}

pub open spec fn kind_label(k: Kind) -> Seq<char> {
    match k {
        Kind::Tiny => "Tiny  (32 MB - fastest)"@,
        Kind::Base => "Base  (60 MB - balanced)"@,
        Kind::Small => "Small (190 MB - best quality)"@,
    }
}

pub open spec fn kind_name(k: Kind) -> Seq<char> {
    match k {
        Kind::Tiny => "tiny"@,
        Kind::Base => "base"@,
        Kind::Small => "small"@,
    }
}

/// `str::to_ascii_lowercase`: only `A`..=`Z` change.
pub open spec fn ascii_lower_char(c: char) -> char {
    if 'A' <= c && c <= 'Z' {
        ((c as u32) + 32) as char
    } else {
        c
    }
}

pub open spec fn ascii_lower(s: Seq<char>) -> Seq<char> {
    s.map_values(|c: char| ascii_lower_char(c))
}

/// The message `Kind::parse` gives for a name it does not know (`lower` is
/// the name in ASCII lower case).
pub open spec fn unknown_model_message(lower: Seq<char>) -> Seq<char> {
    "unknown model '"@ + lower + "' (tiny|base|small)"@
}

/// What `Kind::parse` returns for the name `s`.
pub open spec fn kind_parse(s: Seq<char>) -> Result<Kind, Seq<char>> {
    let l = ascii_lower(s);
    if l == "tiny"@ {
        Ok(Kind::Tiny)
    } else if l == "base"@ {
        Ok(Kind::Base)
    } else if l == "small"@ {
        Ok(Kind::Small)
    } else {
        Err(unknown_model_message(l))
    }
}

pub fn eq_chars(a: &Vec<char>, b: &Vec<char>) -> (r: bool)
    ensures
        r == (a@ == b@),
{
    if a.len() != b.len() {
        return false;
    }
    let mut i: usize = 0;
    while i < a.len()
        invariant
            i <= a.len(),
            a.len() == b.len(),
            forall|k: int| 0 <= k < i ==> a@[k] == b@[k],
        decreases a.len() - i,
    {
        if a[i] != b[i] {
            return false;
        }
        i += 1;
    }
    assert(a@ =~= b@);
    true
}

pub fn ascii_lower_exec(s: &str) -> (r: Vec<char>)
    ensures
        r@ == ascii_lower(s@),
{
    let v = chars_of(s);
    let mut r: Vec<char> = Vec::new();
    let mut i: usize = 0;
    while i < v.len()
        invariant
            i <= v.len(),
            r@ == ascii_lower(v@.take(i as int)),
        decreases v.len() - i,
    {
        let c = v[i];
        let d = if 'A' <= c && c <= 'Z' {
            ((c as u8) + 32) as char
        } else {
            c
        };
        r.push(d);
        i += 1;
        assert(r@ =~= ascii_lower(v@.take(i as int)));
    }
    assert(v@.take(v.len() as int) =~= v@);
    r
}

impl Kind {
    pub fn all() -> (r: [Kind; 3])
        ensures
            r@ == seq![Kind::Tiny, Kind::Base, Kind::Small],
    {
        [Kind::Tiny, Kind::Base, Kind::Small]
    }

    /// File name of the bundled model.
    pub fn file(self) -> (r: &'static str)
        ensures
            r@ == kind_file(self),
    {
        match self {
            Kind::Tiny => "ggml-tiny-q5_1.bin",
            Kind::Base => "ggml-base-q5_1.bin",
            Kind::Small => "ggml-small-q5_1.bin",
        }
    }

    /// Label shown next to the model's radio button.
    pub fn label(self) -> (r: &'static str)
        ensures
            r@ == kind_label(self),
    {
        match self {
            Kind::Tiny => "Tiny  (32 MB - fastest)",
            Kind::Base => "Base  (60 MB - balanced)",
            Kind::Small => "Small (190 MB - best quality)",
        }
    }

    /// Name used on the command line and in logs.
    pub fn as_str(self) -> (r: &'static str)
        ensures
            r@ == kind_name(self),
    {
        match self {
            Kind::Tiny => "tiny",
            Kind::Base => "base",
            Kind::Small => "small",
        }
    }

    /// Parses a model name, ignoring ASCII case.
    pub fn parse(s: &str) -> (r: Result<Kind, String>)
        ensures
            r matches Ok(k) ==> kind_parse(s@) == Ok::<Kind, Seq<char>>(k),
            r matches Err(e) ==> kind_parse(s@) == Err::<Kind, Seq<char>>(e@),
    {
        let l = ascii_lower_exec(s);
        if eq_chars(&l, &chars_of("tiny")) {
            Ok(Kind::Tiny)
        } else if eq_chars(&l, &chars_of("base")) {
            Ok(Kind::Base)
        } else if eq_chars(&l, &chars_of("small")) {
            Ok(Kind::Small)
        } else {
            let mut m = String::new();
            push_str(&mut m, "unknown model '");
            let ls = string_of(&l);
            push_str(&mut m, ls.as_str());
            push_str(&mut m, "' (tiny|base|small)");
            Err(m)
        }
    }
}

/// `Kind::parse` undoes `Kind::as_str`.
pub proof fn law_parse_undoes_as_str(k: Kind)
    ensures
        kind_parse(kind_name(k)) == Ok::<Kind, Seq<char>>(k),
{
    reveal_strlit("tiny");
    reveal_strlit("base");
    reveal_strlit("small");
    assert(ascii_lower("tiny"@) =~= "tiny"@);
    assert(ascii_lower("base"@) =~= "base"@);
    assert(ascii_lower("small"@) =~= "small"@);
    assert("tiny"@[0] != "base"@[0]);
    assert("tiny"@.len() != "small"@.len());
    assert("base"@.len() != "small"@.len());
}

/// `Kind::parse` ignores ASCII case.
pub proof fn law_parse_ignores_ascii_case(s: Seq<char>)
    ensures
        kind_parse(s) == kind_parse(ascii_lower(s)),
{
    assert(ascii_lower(ascii_lower(s)) =~= ascii_lower(s));
}

/// One timed subtitle line (times in milliseconds).
#[derive(Clone, Debug)]
pub struct Seg {
    pub t0: i64,
    pub t1: i64,
    pub tr: String,
    pub ar: String,
}

/// One recognised speech segment (times in milliseconds).
#[derive(Clone, Debug)]
pub struct RawSeg {
    pub t0: i64,
    pub t1: i64,
    pub text: String,
}

/// Event protocol: the engine prints one such event per line on stdout.
#[derive(Clone, Debug)]
pub enum EngineEvent {
    /// Free-form log line for the UI log pane.
    Log { s: String },
    /// Named pipeline stage (extracting / loading-model / transcribe / ...).
    Stage { s: String },
    /// Translation progress: a of b lines.
    Mt { a: usize, b: usize },
    /// Engine still alive while whisper runs (seconds elapsed).
    Heartbeat { s: u64 },
    /// Pipeline finished successfully.
    Done { segs: Vec<Seg> },
    /// Pipeline failed with a readable message.
    Failed { err: String },
}

/// Whether the event ends a run (`Done` or `Failed`).
pub open spec fn is_terminal_spec(ev: EngineEvent) -> bool {
    ev is Done || ev is Failed
}

impl EngineEvent {
    pub fn is_terminal(&self) -> (r: bool)
        ensures
            r == is_terminal_spec(*self),
    {
        match self {
            EngineEvent::Done { .. } | EngineEvent::Failed { .. } => true,
            _ => false,
        }
    }
}

/// A full translation job for the engine.
pub struct JobSpec {
    pub input: PathBuf,
    pub model: Kind,
    pub context: String,
    pub glossary: String,
    pub models_dir: PathBuf,
    /// Explicit ffmpeg path; empty = resolve automatically.
    pub ffmpeg: String,
    /// When set, the engine also writes subtitle files with this prefix.
    pub out_prefix: Option<PathBuf>,
    /// 0 = automatic thread count.
    pub n_threads: i32,
}

/// Job parameters of the single-process edition.
pub struct Params {
    pub input: PathBuf,
    pub model: Kind,
    pub context: String,
    pub glossary: String,
}

/// `anyhow`'s alternate rendering of an error with context: `msg: cause`.
pub open spec fn with_context(msg: Seq<char>, cause: Seq<char>) -> Seq<char> {
    msg + ": "@ + cause
}

/// An error with a context: the context message, and the cause as its own
/// alternate rendering shows it.
pub struct ContextError {
    pub context: String,
    pub cause: String,
}

impl ContextError {
    /// What the error shows by itself (`{}`): the context.
    pub fn message(&self) -> (r: String)
        ensures
            r@ == self.context@,
    {
        self.context.clone()
    }

    /// What the error shows with its causes (`{:#}`): `context: cause`.
    pub fn alternate(&self) -> (r: String)
        ensures
            r@ == with_context(self.context@, self.cause@),
    {
        let mut o = String::new();
        push_str(&mut o, self.context.as_str());
        push_str(&mut o, ": ");
        push_str(&mut o, self.cause.as_str());
        o
    }
}

/// Wraps an error in a context; `Ok` passes through.
pub fn wrap_err<T>(r: Result<T, String>, msg: &str) -> (out: Result<T, ContextError>)
    ensures
        match r {
            Ok(v) => out == Ok::<T, ContextError>(v),
            Err(e) => out matches Err(x) && x.context@ == msg@ && x.cause@ == e@,
        },
{
    match r {
        Ok(v) => Ok(v),
        Err(e) => {
            let mut c = String::new();
            push_str(&mut c, msg);
            Err(ContextError { context: c, cause: e })
        },
    }
}

} // verus!
