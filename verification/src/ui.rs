//! The GUI's state and its reaction to user actions and engine events:
//! stage display, progress, results, errors, cancellation, and the automatic
//! retry with the maximum-compatibility engine after a native crash.
//!
//! Drawing, file dialogs, processes and clocks belong to the caller, which
//! performs the returned effects and reports back.

use std::path::PathBuf;
use vstd::prelude::*;

use crate::model::{kind_name, EngineEvent, Kind, Seg};
use crate::pipeline::{seg_v, segs_v, SegV};
use crate::text::{
    debug_code, dec, owned, pad_int, push_debug_code, push_dec, push_pad_int, push_str,
};

verus! {

/// A progress bar value `num / den` (`den >= 1`).
#[derive(Clone, Copy, PartialEq, Eq, Structural)]
pub struct Progress {
    pub num: usize,
    pub den: usize,
}

/// What the engine runner reports.
pub enum Prog {
    Engine(EngineEvent),
    /// The engine process ended; `saw_terminal` when it printed Done/Failed.
    Exited { variant: String, code: Option<i32>, stderr: String, saw_terminal: bool },
}

/// What the caller must do.
pub enum Effect {
    /// Mirror a log line on stdout.
    Print(String),
    /// Restart (`true`) or stop (`false`) the clock of the current stage.
    StageClock(bool),
    /// Start the given engine build for the current job, then report with
    /// `spawned` (or, for a fallback, `fallback_spawned`).
    Spawn { variant: String, fallback: bool },
    /// Kill the running engine.
    Kill,
    /// Write all subtitle formats next to the input, then report with
    /// `export_done`.
    Export,
    /// Write the autotest marker file with this content.
    WriteMarker(String),
    /// Start the clock after which an autotest run exits.
    AutotestClock,
    /// Close the application.
    Exit,
    /// Act as if Start was pressed (call `start`).
    Start,
    /// Pick the preferred engine build and call `launch` with it.
    ChooseVariant,
}

pub struct Ui {
    pub model: Kind,
    pub file: Option<PathBuf>,
    pub context: String,
    pub running: bool,
    pub cancel_requested: bool,
    pub has_child: bool,
    pub child_variant: Option<String>,
    pub retried_safe: bool,
    pub base_stage: String,
    pub stage: String,
    pub stage_timed: bool,
    pub progress: Progress,
    pub logs: String,
    pub segs: Vec<Seg>,
    pub err: Option<String>,
    pub exported: bool,
    pub autostart: bool,
    pub autotest: bool,
    pub autotest_done: bool,
}

/// Spec view of the GUI state.
#[verifier::ext_equal]
pub struct UiV {
    pub model: Kind,
    pub has_file: bool,
    pub context: Seq<char>,
    pub running: bool,
    pub cancel_requested: bool,
    pub has_child: bool,
    pub child_variant: Option<Seq<char>>,
    pub retried_safe: bool,
    pub base_stage: Seq<char>,
    pub stage: Seq<char>,
    pub stage_timed: bool,
    pub progress: Progress,
    pub logs: Seq<char>,
    pub segs: Seq<SegV>,
    pub err: Option<Seq<char>>,
    pub exported: bool,
    pub autostart: bool,
    pub autotest: bool,
    pub autotest_done: bool,
}

pub open spec fn opt_v(o: Option<String>) -> Option<Seq<char>> {
    match o {
        Some(s) => Some(s@),
        None => None,
    }
}

impl View for Ui {
    type V = UiV;

    open spec fn view(&self) -> UiV {
        UiV {
            model: self.model,
            has_file: self.file is Some,
            context: self.context@,
            running: self.running,
            cancel_requested: self.cancel_requested,
            has_child: self.has_child,
            child_variant: opt_v(self.child_variant),
            retried_safe: self.retried_safe,
            base_stage: self.base_stage@,
            stage: self.stage@,
            stage_timed: self.stage_timed,
            progress: self.progress,
            logs: self.logs@,
            segs: segs_v(self.segs@),
            err: opt_v(self.err),
            exported: self.exported,
            autostart: self.autostart,
            autotest: self.autotest,
            autotest_done: self.autotest_done,
        }
    }
}

/// Spec view of an effect.
pub enum EffectV {
    Print(Seq<char>),
    StageClock(bool),
    Spawn(Seq<char>, bool),
    Kill,
    Export,
    WriteMarker(Seq<char>),
    AutotestClock,
    Exit,
    Start,
    ChooseVariant,
}

pub open spec fn effect_v(e: Effect) -> EffectV {
    match e {
        Effect::Print(s) => EffectV::Print(s@),
        Effect::StageClock(b) => EffectV::StageClock(b),
        Effect::Spawn { variant, fallback } => EffectV::Spawn(variant@, fallback),
        Effect::Kill => EffectV::Kill,
        Effect::Export => EffectV::Export,
        Effect::WriteMarker(s) => EffectV::WriteMarker(s@),
        Effect::AutotestClock => EffectV::AutotestClock,
        Effect::Exit => EffectV::Exit,
        Effect::Start => EffectV::Start,
        Effect::ChooseVariant => EffectV::ChooseVariant,
    }
}

pub open spec fn effects_v(es: Seq<Effect>) -> Seq<EffectV> {
    es.map_values(|e: Effect| effect_v(e))
}

/// Spec view of an engine runner report.
pub enum ProgV {
    Log(Seq<char>),
    Stage(Seq<char>),
    Mt(usize, usize),
    Heartbeat(u64),
    Done(Seq<SegV>),
    Failed(Seq<char>),
    Exited(Seq<char>, Option<i32>, Seq<char>, bool),
}

pub open spec fn prog_v(p: Prog) -> ProgV {
    match p {
        Prog::Engine(EngineEvent::Log { s }) => ProgV::Log(s@),
        Prog::Engine(EngineEvent::Stage { s }) => ProgV::Stage(s@),
        Prog::Engine(EngineEvent::Mt { a, b }) => ProgV::Mt(a, b),
        Prog::Engine(EngineEvent::Heartbeat { s }) => ProgV::Heartbeat(s),
        Prog::Engine(EngineEvent::Done { segs }) => ProgV::Done(segs_v(segs@)),
        Prog::Engine(EngineEvent::Failed { err }) => ProgV::Failed(err@),
        Prog::Exited { variant, code, stderr, saw_terminal } => ProgV::Exited(
            variant@,
            code,
            stderr@,
            saw_terminal,
        ),
    }
}

pub type Out = (UiV, Seq<EffectV>);

// ---------------------------------------------------------------------------
// spec of the transitions
// ---------------------------------------------------------------------------

pub open spec fn idle_stage() -> Seq<char> {
    "Idle - choose a file to begin"@
}

/// Appends a line to the log pane (and mirrors it on stdout).
pub open spec fn log_spec(o: Out, line: Seq<char>) -> Out {
    (UiV { logs: o.0.logs + line + seq!['\n'], ..o.0 }, o.1.push(EffectV::Print(line)))
}

/// Sets the stage line, with or without a running clock.
pub open spec fn stage_spec(o: Out, base: Seq<char>, timed: bool) -> Out {
    (
        UiV { base_stage: base, stage: base, stage_timed: timed, ..o.0 },
        o.1.push(EffectV::StageClock(timed)),
    )
}

/// "<base> (<secs>s)"
pub open spec fn timed_label(base: Seq<char>, secs: nat) -> Seq<char> {
    base + " ("@ + dec(secs) + "s)"@
}

/// The stage line a protocol stage name stands for, and whether it runs a
/// clock.
pub open spec fn stage_label(model: Kind, s: Seq<char>) -> (Seq<char>, bool) {
    if s == "extracting"@ {
        ("Extracting audio..."@, true)
    } else if s == "loading-model"@ {
        ("Loading whisper model ("@ + kind_name(model) + ")..."@, true)
    } else if s == "transcribe"@ {
        ("Transcribing Turkish speech..."@, true)
    } else if s == "loading-mt"@ {
        ("Loading translation model..."@, true)
    } else if s == "translate"@ {
        ("Translating to Arabic..."@, true)
    } else {
        (s, false)
    }
}

pub open spec fn crash_message(variant: Seq<char>, code: Option<i32>, stderr: Seq<char>) -> Seq<
    char,
> {
    "The engine crashed (exit code "@ + debug_code(code) + ", variant "@ + variant + ")."@ + (if stderr.len()
        == 0 {
        Seq::<char>::empty()
    } else {
        " Details: "@ + stderr
    }) + " Suggestions: try the Tiny model, use a shorter file, or close other memory-heavy programs."@
}

/// The log line when the GPU build crashed and the fast build takes over.
pub open spec fn gpu_retry_message(code: Option<i32>) -> Seq<char> {
    "The GPU engine (gpu) crashed (exit "@ + debug_code(code)
        + ") - switching to the fast engine and retrying automatically..."@
}

pub open spec fn retry_message(variant: Seq<char>, code: Option<i32>) -> Seq<char> {
    "The fast engine ("@ + variant + ") crashed (exit "@ + debug_code(code)
        + ") - switching to the maximum-compatibility engine and retrying automatically..."@
}

/// Starting an engine build (`init_half`: the bar starts half full).
pub open spec fn launch_spec(o: Out, variant: Seq<char>, init_half: bool) -> Out {
    let s = o.0;
    (
        UiV {
            progress: if init_half {
                Progress { num: 1, den: 2 }
            } else {
                s.progress
            },
            child_variant: Some(variant),
            ..s
        },
        o.1.push(EffectV::Spawn(variant, false)),
    )
}

pub open spec fn marker_ok(n: nat, model: Kind, variant: Option<Seq<char>>) -> Seq<char> {
    dec(n) + " "@ + kind_name(model) + " variant="@ + match variant {
        Some(v) => v,
        None => "?"@,
    } + seq!['\n']
}

/// Asks for the subtitle files to be written, when there are any.
pub open spec fn export_spec(o: Out) -> Out {
    if o.0.segs.len() > 0 {
        (o.0, o.1.push(EffectV::Export))
    } else {
        o
    }
}

/// The engine finished with these subtitle lines.
pub open spec fn done_spec(s: UiV, segs: Seq<SegV>) -> Out {
    let o1 = log_spec(
        (
            UiV {
                running: false,
                progress: Progress { num: 1, den: 1 },
                stage: "Done - "@ + dec(segs.len()) + " subtitle lines ready"@,
                ..s
            },
            seq![],
        ),
        "DONE: "@ + dec(segs.len()) + " lines produced"@,
    );
    let o2: Out = (UiV { segs: segs, ..o1.0 }, o1.1);
    if s.autotest {
        let o3 = export_spec(o2);
        let o4: Out = (
            o3.0,
            o3.1.push(EffectV::WriteMarker(marker_ok(segs.len(), s.model, s.child_variant))),
        );
        let o5 = log_spec(o4, "AUTOTEST COMPLETE"@);
        (UiV { autotest_done: true, ..o5.0 }, o5.1.push(EffectV::AutotestClock))
    } else {
        o2
    }
}

/// The engine reported a failure.
pub open spec fn failed_spec(s: UiV, e: Seq<char>) -> Out {
    let o1 = stage_spec((UiV { running: false, err: Some(e), ..s }, seq![]), "Failed"@, false);
    let o2 = log_spec(o1, "ERROR: "@ + e);
    if s.autotest {
        (o2.0, o2.1.push(EffectV::WriteMarker("FAILED: "@ + e + seq!['\n'])))
    } else {
        o2
    }
}

/// The engine process ended.
pub open spec fn exited_spec(
    s: UiV,
    variant: Seq<char>,
    code: Option<i32>,
    stderr: Seq<char>,
    saw_terminal: bool,
) -> Out {
    let s1 = UiV { has_child: false, ..s };
    if !s1.running {
        (s1, seq![])
    } else if s1.cancel_requested {
        let o1 = stage_spec((UiV { running: false, ..s1 }, seq![]), "Cancelled"@, false);
        log_spec(o1, "Stopped by user"@)
    } else if saw_terminal || code == Some(0i32) {
        (UiV { running: false, ..s1 }, seq![])
    } else if variant == "fast"@ && !s1.retried_safe {
        let o1 = log_spec((UiV { retried_safe: true, ..s1 }, seq![]), retry_message(variant, code));
        let o2 = stage_spec(o1, "Restarting with compatibility engine..."@, false);
        if s1.has_file {
            launch_spec(o2, "safe"@, true)
        } else {
            o2
        }
    } else if variant == "gpu"@ {
        // the downgrade chain: the GPU build falls back to the fast one
        let o1 = log_spec((s1, seq![]), gpu_retry_message(code));
        let o2 = stage_spec(o1, "Restarting with the fast engine..."@, false);
        if s1.has_file {
            launch_spec(o2, "fast"@, true)
        } else {
            o2
        }
    } else {
        let o1 = stage_spec(
            (UiV { running: false, err: Some(crash_message(variant, code, stderr)), ..s1 }, seq![]),
            "Failed"@,
            false,
        );
        log_spec(o1, "ERROR: engine crash"@)
    }
}

/// Reaction to one engine runner report.
pub open spec fn on_prog_spec(s: UiV, p: ProgV) -> Out {
    let o: Out = (s, seq![]);
    match p {
        ProgV::Log(l) => log_spec(o, l),
        ProgV::Stage(n) => {
            let (label, timed) = stage_label(s.model, n);
            stage_spec((UiV { progress: Progress { num: 0, den: 1 }, ..s }, seq![]), label, timed)
        },
        ProgV::Heartbeat(secs) => (UiV { stage: timed_label(s.base_stage, secs as nat), ..s }, seq![]),
        ProgV::Mt(a, b) => stage_spec(
            (
                UiV {
                    progress: if b > 0 {
                        Progress { num: a, den: b }
                    } else {
                        Progress { num: 0, den: 1 }
                    },
                    ..s
                },
                seq![],
            ),
            "Translating to Arabic ("@ + dec(a as nat) + "/"@ + dec(b as nat) + ")..."@,
            true,
        ),
        ProgV::Done(segs) => done_spec(s, segs),
        ProgV::Failed(e) => failed_spec(s, e),
        ProgV::Exited(variant, code, stderr, saw_terminal) => exited_spec(
            s,
            variant,
            code,
            stderr,
            saw_terminal,
        ),
    }
}

/// Start pressed; `models` is whether the models folder could be found.
pub open spec fn start_spec(s: UiV, models: Result<(), Seq<char>>) -> Out {
    if s.running {
        (s, seq![])
    } else if !s.has_file {
        (UiV { err: Some("Choose a video or audio file first"@), ..s }, seq![])
    } else {
        match models {
            Err(e) => (UiV { err: Some(e), ..s }, seq![]),
            Ok(_) => {
                let s1 = UiV {
                    err: None,
                    segs: Seq::<SegV>::empty(),
                    exported: false,
                    progress: Progress { num: 0, den: 1 },
                    ..s
                };
                let o1 = stage_spec((s1, seq![]), "Starting engine..."@, false);
                (
                    UiV { running: true, cancel_requested: false, retried_safe: false, ..o1.0 },
                    o1.1.push(EffectV::ChooseVariant),
                )
            },
        }
    }
}

/// The build that is tried when `variant` cannot be started.
pub open spec fn other_variant(variant: Seq<char>) -> Seq<char> {
    if variant == "fast"@ {
        "safe"@
    } else {
        "fast"@
    }
}

/// Outcome of starting the engine build `variant`: `Ok(pid)` or the error;
/// `fallback` tells whether `variant` is missing while the other build is
/// installed.
pub open spec fn spawned_spec(
    s: UiV,
    variant: Seq<char>,
    r: Result<Seq<char>, Seq<char>>,
    fallback: bool,
) -> Out {
    let o: Out = (s, seq![]);
    match r {
        Ok(pid) => {
            let o1 = log_spec(o, "Engine started ("@ + variant + " build, pid "@ + pid + ")"@);
            (UiV { has_child: true, ..o1.0 }, o1.1)
        },
        Err(e) => if fallback {
            let other = other_variant(variant);
            let o1 = log_spec(
                o,
                variant + " engine not found - falling back to "@ + other + " engine"@,
            );
            (
                UiV {
                    retried_safe: if variant == "fast"@ {
                        true
                    } else {
                        o1.0.retried_safe
                    },
                    child_variant: Some(other),
                    ..o1.0
                },
                o1.1.push(EffectV::Spawn(other, true)),
            )
        } else {
            stage_spec((UiV { running: false, err: Some(e), ..s }, seq![]), "Failed"@, false)
        },
    }
}

/// Outcome of starting the fallback build.
pub open spec fn fallback_spawned_spec(s: UiV, r: Result<(), Seq<char>>) -> UiV {
    match r {
        Ok(_) => UiV { has_child: true, ..s },
        Err(e) => UiV { running: false, err: Some(e), ..s },
    }
}

/// Cancel pressed.
pub open spec fn cancel_spec(s: UiV) -> Out {
    if s.running {
        let fx: Seq<EffectV> = if s.has_child {
            seq![EffectV::Kill]
        } else {
            seq![]
        };
        log_spec((UiV { cancel_requested: true, ..s }, fx), "Cancel requested - stopping engine..."@)
    } else {
        (s, seq![])
    }
}

/// The end of one poll tick: the live stage clock, the autotest exit and the
/// automatic start.
pub open spec fn poll_end_spec(s: UiV, stage_secs: u64, autotest_expired: bool) -> Out {
    let s1 = if s.running && s.stage_timed && stage_secs >= 3 {
        UiV { stage: timed_label(s.base_stage, stage_secs as nat), ..s }
    } else {
        s
    };
    if s1.autotest_done && autotest_expired {
        (s1, seq![EffectV::Exit])
    } else if s1.autostart && s1.has_file && !s1.running && s1.segs.len() == 0 && s1.err is None {
        (UiV { autostart: false, ..s1 }, seq![EffectV::Start])
    } else {
        (s1, seq![])
    }
}

/// The log lines and the flag of a finished export: each entry is the file
/// written and `None`, or the file and the error.
pub open spec fn export_log(results: Seq<(Seq<char>, Option<Seq<char>>)>) -> Seq<Seq<char>> {
    results.map_values(
        |r: (Seq<char>, Option<Seq<char>>)|
            match r.1 {
                None => "Exported: "@ + r.0,
                Some(e) => "Export FAILED "@ + r.0 + ": "@ + e,
            },
    )
}

pub open spec fn result_views(v: Seq<(String, Option<String>)>) -> Seq<(Seq<char>, Option<Seq<char>>)> {
    v.map_values(|r: (String, Option<String>)| (r.0@, opt_v(r.1)))
}

pub open spec fn any_ok(results: Seq<(Seq<char>, Option<Seq<char>>)>) -> bool {
    exists|i: int| 0 <= i < results.len() && (#[trigger] results[i]).1 is None
}

/// Appends several lines to the log pane.
pub open spec fn log_all(o: Out, lines: Seq<Seq<char>>) -> Out
    decreases lines.len(),
{
    if lines.len() == 0 {
        o
    } else {
        log_spec(log_all(o, lines.drop_last()), lines.last())
    }
}

/// Truncating division and remainder, as Rust computes them on integers.
pub open spec fn tdiv(a: int, b: int) -> int {
    if a >= 0 {
        a / b
    } else {
        -((-a) / b)
    }
}

pub open spec fn trem(a: int, b: int) -> int {
    a - b * tdiv(a, b)
}

/// "mm:ss" of a time in milliseconds, as the result list shows it.
pub open spec fn clock(ms: int) -> Seq<char> {
    pad_int(tdiv(ms, 60000), 2) + ":"@ + pad_int(trem(tdiv(ms, 1000), 60), 2)
}

/// "mm:ss -> mm:ss" of a subtitle line.
pub open spec fn time_label(s: SegV) -> Seq<char> {
    clock(s.0 as int) + " -> "@ + clock(s.1 as int)
}

// ---------------------------------------------------------------------------
// implementation
// ---------------------------------------------------------------------------

/// The build tried when `variant` is not installed.
pub fn fallback_variant(variant: &str) -> (r: String)
    ensures
        r@ == other_variant(variant@),
{
    if lit_eq(variant, "fast") {
        owned("safe")
    } else {
        owned("fast")
    }
}

fn lit_eq(s: &str, lit: &str) -> (r: bool)
    ensures
        r == (s@ == lit@),
{
    crate::model::eq_chars(&crate::text::chars_of(s), &crate::text::chars_of(lit))
}

impl Ui {
    pub fn new() -> (u: Ui)
        ensures
            u@ == (UiV {
                model: Kind::Small,
                has_file: false,
                context: Seq::<char>::empty(),
                running: false,
                cancel_requested: false,
                has_child: false,
                child_variant: None,
                retried_safe: false,
                base_stage: idle_stage(),
                stage: idle_stage(),
                stage_timed: false,
                progress: Progress { num: 0, den: 1 },
                logs: Seq::<char>::empty(),
                segs: Seq::<SegV>::empty(),
                err: None,
                exported: false,
                autostart: false,
                autotest: false,
                autotest_done: false,
            }),
    {
        let u = Ui {
            model: Kind::Small,
            file: None,
            context: String::new(),
            running: false,
            cancel_requested: false,
            has_child: false,
            child_variant: None,
            retried_safe: false,
            base_stage: owned("Idle - choose a file to begin"),
            stage: owned("Idle - choose a file to begin"),
            stage_timed: false,
            progress: Progress { num: 0, den: 1 },
            logs: String::new(),
            segs: Vec::new(),
            err: None,
            exported: false,
            autostart: false,
            autotest: false,
            autotest_done: false,
        };
        assert(segs_v(u.segs@) =~= Seq::<SegV>::empty());
        assert(u@ =~= UiV {
            model: Kind::Small,
            has_file: false,
            context: Seq::<char>::empty(),
            running: false,
            cancel_requested: false,
            has_child: false,
            child_variant: None,
            retried_safe: false,
            base_stage: idle_stage(),
            stage: idle_stage(),
            stage_timed: false,
            progress: Progress { num: 0, den: 1 },
            logs: Seq::<char>::empty(),
            segs: Seq::<SegV>::empty(),
            err: None,
            exported: false,
            autostart: false,
            autotest: false,
            autotest_done: false,
        });
        u
    }

    /// Appends a line to the log pane; the effect mirrors it on stdout.
    pub fn log_line(&mut self, line: String, fx: &mut Vec<Effect>)
        ensures
            (final(self)@, effects_v(final(fx)@)) == log_spec(
                (old(self)@, effects_v(old(fx)@)),
                line@,
            ),
            final(self).file == old(self).file,
    {
        push_str(&mut self.logs, line.as_str());
        self.logs.push('\n');
        let ghost before = effects_v(fx@);
        let ghost l = line@;
        fx.push(Effect::Print(line));
        assert(effects_v(fx@) =~= before.push(EffectV::Print(l)));
        assert(self@ =~= log_spec((old(self)@, effects_v(old(fx)@)), l).0);
    }

    fn set_stage(&mut self, base: String, timed: bool, fx: &mut Vec<Effect>)
        ensures
            (final(self)@, effects_v(final(fx)@)) == stage_spec(
                (old(self)@, effects_v(old(fx)@)),
                base@,
                timed,
            ),
            final(self).file == old(self).file,
    {
        self.base_stage = base.clone();
        self.stage = base;
        self.stage_timed = timed;
        let ghost before = effects_v(fx@);
        fx.push(Effect::StageClock(timed));
        assert(effects_v(fx@) =~= before.push(EffectV::StageClock(timed)));
        assert(self@ =~= stage_spec((old(self)@, effects_v(old(fx)@)), base@, timed).0);
    }

    /// Starts an engine build for the current job.
    pub fn launch(&mut self, variant: &str, init_half: bool, fx: &mut Vec<Effect>)
        ensures
            (final(self)@, effects_v(final(fx)@)) == launch_spec(
                (old(self)@, effects_v(old(fx)@)),
                variant@,
                init_half,
            ),
            final(self).file == old(self).file,
    {
        if init_half {
            self.progress = Progress { num: 1, den: 2 };
        }
        self.child_variant = Some(owned(variant));
        let ghost before = effects_v(fx@);
        fx.push(Effect::Spawn { variant: owned(variant), fallback: false });
        assert(effects_v(fx@) =~= before.push(EffectV::Spawn(variant@, false)));
        assert(self@ =~= launch_spec((old(self)@, effects_v(old(fx)@)), variant@, init_half).0);
    }

    /// Reaction to one report of the engine runner.
    pub fn on_prog(&mut self, p: Prog) -> (fx: Vec<Effect>)
        ensures
            (final(self)@, effects_v(fx@)) == on_prog_spec(old(self)@, prog_v(p)),
            final(self).file == old(self).file,
    {
        match p {
            Prog::Engine(EngineEvent::Log { s }) => {
                let mut fx: Vec<Effect> = Vec::new();
                assert(effects_v(fx@) =~= Seq::<EffectV>::empty());
                self.log_line(s, &mut fx);
                fx
            },
            Prog::Engine(EngineEvent::Stage { s }) => self.on_stage(s),
            Prog::Engine(EngineEvent::Heartbeat { s }) => {
                self.on_heartbeat(s);
                let fx: Vec<Effect> = Vec::new();
                assert(effects_v(fx@) =~= Seq::<EffectV>::empty());
                fx
            },
            Prog::Engine(EngineEvent::Mt { a, b }) => self.on_mt(a, b),
            Prog::Engine(EngineEvent::Done { segs }) => self.on_done(segs),
            Prog::Engine(EngineEvent::Failed { err }) => self.on_failed(err),
            Prog::Exited { variant, code, stderr, saw_terminal } => self.on_exited(
                variant,
                code,
                stderr,
                saw_terminal,
            ),
        }
    }

    fn on_stage(&mut self, s: String) -> (fx: Vec<Effect>)
        ensures
            (final(self)@, effects_v(fx@)) == on_prog_spec(old(self)@, ProgV::Stage(s@)),
            final(self).file == old(self).file,
    {
        let mut fx: Vec<Effect> = Vec::new();
        assert(effects_v(fx@) =~= Seq::<EffectV>::empty());
        self.progress = Progress { num: 0, den: 1 };
        let (label, timed) = self.stage_label_exec(s);
        self.set_stage(label, timed, &mut fx);
        fx
    }

    fn on_heartbeat(&mut self, secs: u64)
        ensures
            final(self)@ == on_prog_spec(old(self)@, ProgV::Heartbeat(secs)).0,
            final(self).file == old(self).file,
    {
        let mut st = self.base_stage.clone();
        push_str(&mut st, " (");
        push_dec(&mut st, secs);
        push_str(&mut st, "s)");
        assert(st@ =~= timed_label(self.base_stage@, secs as nat));
        self.stage = st;
        assert(self@ =~= on_prog_spec(old(self)@, ProgV::Heartbeat(secs)).0);
    }

    fn on_mt(&mut self, a: usize, b: usize) -> (fx: Vec<Effect>)
        ensures
            (final(self)@, effects_v(fx@)) == on_prog_spec(old(self)@, ProgV::Mt(a, b)),
            final(self).file == old(self).file,
    {
        let mut fx: Vec<Effect> = Vec::new();
        assert(effects_v(fx@) =~= Seq::<EffectV>::empty());
        self.progress = if b > 0 {
            Progress { num: a, den: b }
        } else {
            Progress { num: 0, den: 1 }
        };
        let mut st = owned("Translating to Arabic (");
        push_dec(&mut st, a as u64);
        push_str(&mut st, "/");
        push_dec(&mut st, b as u64);
        push_str(&mut st, ")...");
        assert(st@ =~= "Translating to Arabic ("@ + dec(a as nat) + "/"@ + dec(b as nat) + ")..."@);
        self.set_stage(st, true, &mut fx);
        fx
    }

    /// Asks for the subtitle files to be written, when there are any.
    pub fn export_request(&self, fx: &mut Vec<Effect>)
        ensures
            (self@, effects_v(final(fx)@)) == export_spec((self@, effects_v(old(fx)@))),
    {
        if self.segs.len() > 0 {
            let ghost before = effects_v(fx@);
            fx.push(Effect::Export);
            assert(effects_v(fx@) =~= before.push(EffectV::Export));
        }
    }

    fn on_done(&mut self, segs: Vec<Seg>) -> (fx: Vec<Effect>)
        ensures
            (final(self)@, effects_v(fx@)) == done_spec(old(self)@, segs_v(segs@)),
            final(self).file == old(self).file,
    {
        let mut fx: Vec<Effect> = Vec::new();
        assert(effects_v(fx@) =~= Seq::<EffectV>::empty());
        let ghost sv = segs_v(segs@);
        let n = segs.len();
        self.running = false;
        self.progress = Progress { num: 1, den: 1 };
        let mut st = owned("Done - ");
        push_dec(&mut st, n as u64);
        push_str(&mut st, " subtitle lines ready");
        self.stage = st;
        let mut l = owned("DONE: ");
        push_dec(&mut l, n as u64);
        push_str(&mut l, " lines produced");
        assert(l@ =~= "DONE: "@ + dec(sv.len()) + " lines produced"@);
        self.log_line(l, &mut fx);
        self.segs = segs;
        assert(self@.segs == sv);
        if self.autotest {
            self.export_request(&mut fx);
            let mut m = String::new();
            push_dec(&mut m, n as u64);
            push_str(&mut m, " ");
            push_str(&mut m, self.model.as_str());
            push_str(&mut m, " variant=");
            match &self.child_variant {
                Some(v) => push_str(&mut m, v.as_str()),
                None => push_str(&mut m, "?"),
            }
            m.push('\n');
            assert(m@ =~= marker_ok(sv.len(), self.model, opt_v(self.child_variant)));
            let ghost before = effects_v(fx@);
            let ghost mv = m@;
            fx.push(Effect::WriteMarker(m));
            assert(effects_v(fx@) =~= before.push(EffectV::WriteMarker(mv)));
            self.log_line(owned("AUTOTEST COMPLETE"), &mut fx);
            self.autotest_done = true;
            let ghost before2 = effects_v(fx@);
            fx.push(Effect::AutotestClock);
            assert(effects_v(fx@) =~= before2.push(EffectV::AutotestClock));
        }
        assert(self@ =~= done_spec(old(self)@, sv).0);
        fx
    }

    fn on_failed(&mut self, err: String) -> (fx: Vec<Effect>)
        ensures
            (final(self)@, effects_v(fx@)) == failed_spec(old(self)@, err@),
            final(self).file == old(self).file,
    {
        let mut fx: Vec<Effect> = Vec::new();
        assert(effects_v(fx@) =~= Seq::<EffectV>::empty());
        self.running = false;
        self.err = Some(err.clone());
        self.set_stage(owned("Failed"), false, &mut fx);
        let mut l = owned("ERROR: ");
        push_str(&mut l, err.as_str());
        self.log_line(l, &mut fx);
        if self.autotest {
            let mut m = owned("FAILED: ");
            push_str(&mut m, err.as_str());
            m.push('\n');
            let ghost before = effects_v(fx@);
            let ghost mv = m@;
            fx.push(Effect::WriteMarker(m));
            assert(effects_v(fx@) =~= before.push(EffectV::WriteMarker(mv)));
            assert(mv =~= "FAILED: "@ + err@ + seq!['\n']);
        }
        fx
    }

    fn on_exited(&mut self, variant: String, code: Option<i32>, stderr: String, saw_terminal: bool) -> (fx:
        Vec<Effect>)
        ensures
            (final(self)@, effects_v(fx@)) == exited_spec(
                old(self)@,
                variant@,
                code,
                stderr@,
                saw_terminal,
            ),
            final(self).file == old(self).file,
    {
        let mut fx: Vec<Effect> = Vec::new();
        assert(effects_v(fx@) =~= Seq::<EffectV>::empty());
        self.has_child = false;
        if !self.running {
            return fx;
        }
        if self.cancel_requested {
            self.running = false;
            self.set_stage(owned("Cancelled"), false, &mut fx);
            self.log_line(owned("Stopped by user"), &mut fx);
            return fx;
        }
        let clean = match code {
            Some(c) => c == 0,
            None => false,
        };
        if saw_terminal || clean {
            self.running = false;
            return fx;
        }
        if lit_eq(variant.as_str(), "fast") && !self.retried_safe {
            self.retry_safe(variant, code, &mut fx);
        } else if lit_eq(variant.as_str(), "gpu") {
            self.retry_fast(code, &mut fx);
        } else {
            self.crash_fail(variant, code, stderr, &mut fx);
        }
        fx
    }

    fn retry_safe(&mut self, variant: String, code: Option<i32>, fx: &mut Vec<Effect>)
        requires
            old(fx)@.len() == 0,
            variant@ == "fast"@,
            old(self).running,
        ensures
            (final(self)@, effects_v(final(fx)@)) == ({
                let s1 = old(self)@;
                let o1 = log_spec((UiV { retried_safe: true, ..s1 }, seq![]), retry_message(variant@, code));
                let o2 = stage_spec(o1, "Restarting with compatibility engine..."@, false);
                if s1.has_file {
                    launch_spec(o2, "safe"@, true)
                } else {
                    o2
                }
            }),
            final(self).file == old(self).file,
    {
        assert(effects_v(fx@) =~= Seq::<EffectV>::empty());
        self.retried_safe = true;
        let mut l = owned("The fast engine (");
        push_str(&mut l, variant.as_str());
        push_str(&mut l, ") crashed (exit ");
        push_debug_code(&mut l, code);
        push_str(
            &mut l,
            ") - switching to the maximum-compatibility engine and retrying automatically...",
        );
        assert(l@ =~= retry_message(variant@, code));
        self.log_line(l, fx);
        self.set_stage(owned("Restarting with compatibility engine..."), false, fx);
        if self.file.is_some() {
            self.launch("safe", true, fx);
        }
    }

    fn retry_fast(&mut self, code: Option<i32>, fx: &mut Vec<Effect>)
        requires
            old(fx)@.len() == 0,
        ensures
            (final(self)@, effects_v(final(fx)@)) == ({
                let s1 = old(self)@;
                let o1 = log_spec((s1, seq![]), gpu_retry_message(code));
                let o2 = stage_spec(o1, "Restarting with the fast engine..."@, false);
                if s1.has_file {
                    launch_spec(o2, "fast"@, true)
                } else {
                    o2
                }
            }),
            final(self).file == old(self).file,
    {
        assert(effects_v(fx@) =~= Seq::<EffectV>::empty());
        let mut l = owned("The GPU engine (gpu) crashed (exit ");
        push_debug_code(&mut l, code);
        push_str(&mut l, ") - switching to the fast engine and retrying automatically...");
        assert(l@ =~= gpu_retry_message(code));
        self.log_line(l, fx);
        self.set_stage(owned("Restarting with the fast engine..."), false, fx);
        if self.file.is_some() {
            self.launch("fast", true, fx);
        }
    }

    fn crash_fail(&mut self, variant: String, code: Option<i32>, stderr: String, fx: &mut Vec<Effect>)
        requires
            old(fx)@.len() == 0,
        ensures
            (final(self)@, effects_v(final(fx)@)) == ({
                let o1 = stage_spec(
                    (
                        UiV {
                            running: false,
                            err: Some(crash_message(variant@, code, stderr@)),
                            ..old(self)@
                        },
                        seq![],
                    ),
                    "Failed"@,
                    false,
                );
                log_spec(o1, "ERROR: engine crash"@)
            }),
            final(self).file == old(self).file,
    {
        assert(effects_v(fx@) =~= Seq::<EffectV>::empty());
        self.running = false;
        let mut msg = owned("The engine crashed (exit code ");
        push_debug_code(&mut msg, code);
        push_str(&mut msg, ", variant ");
        push_str(&mut msg, variant.as_str());
        push_str(&mut msg, ").");
        if !stderr.as_str().is_empty() {
            push_str(&mut msg, " Details: ");
            push_str(&mut msg, stderr.as_str());
        }
        push_str(
            &mut msg,
            " Suggestions: try the Tiny model, use a shorter file, or close other memory-heavy programs.",
        );
        assert(msg@ =~= crash_message(variant@, code, stderr@));
        self.err = Some(msg);
        self.set_stage(owned("Failed"), false, fx);
        self.log_line(owned("ERROR: engine crash"), fx);
    }

    /// Start pressed; `models` is whether the models folder was found
    /// (the error text when it was not).
    pub fn start(&mut self, models: Result<(), String>) -> (fx: Vec<Effect>)
        ensures
            (final(self)@, effects_v(fx@)) == start_spec(
                old(self)@,
                match models {
                    Ok(u) => Ok(u),
                    Err(e) => Err(e@),
                },
            ),
            final(self).file == old(self).file,
    {
        let mut fx: Vec<Effect> = Vec::new();
        assert(effects_v(fx@) =~= Seq::<EffectV>::empty());
        if self.running {
            return fx;
        }
        if self.file.is_none() {
            self.err = Some(owned("Choose a video or audio file first"));
            return fx;
        }
        match models {
            Err(e) => {
                self.err = Some(e);
                fx
            },
            Ok(_) => {
                self.err = None;
                self.segs = Vec::new();
                self.exported = false;
                self.progress = Progress { num: 0, den: 1 };
                assert(segs_v(self.segs@) =~= Seq::<SegV>::empty());
                self.set_stage(owned("Starting engine..."), false, &mut fx);
                self.running = true;
                self.cancel_requested = false;
                self.retried_safe = false;
                let ghost before = effects_v(fx@);
                fx.push(Effect::ChooseVariant);
                assert(effects_v(fx@) =~= before.push(EffectV::ChooseVariant));
                fx
            },
        }
    }

    /// Outcome of starting the engine build `variant`: `Ok(pid)` or the
    /// error; `fallback` is whether `variant` is not installed while the
    /// other build is.
    pub fn spawned(&mut self, variant: &str, r: Result<String, String>, fallback: bool) -> (fx: Vec<
        Effect,
    >)
        ensures
            (final(self)@, effects_v(fx@)) == spawned_spec(
                old(self)@,
                variant@,
                match r {
                    Ok(p) => Ok(p@),
                    Err(e) => Err(e@),
                },
                fallback,
            ),
            final(self).file == old(self).file,
    {
        let mut fx: Vec<Effect> = Vec::new();
        assert(effects_v(fx@) =~= Seq::<EffectV>::empty());
        match r {
            Ok(pid) => {
                let mut l = owned("Engine started (");
                push_str(&mut l, variant);
                push_str(&mut l, " build, pid ");
                push_str(&mut l, pid.as_str());
                push_str(&mut l, ")");
                assert(l@ =~= "Engine started ("@ + variant@ + " build, pid "@ + pid@ + ")"@);
                self.log_line(l, &mut fx);
                self.has_child = true;
                fx
            },
            Err(e) => {
                if fallback {
                    self.fall_back(variant, &mut fx);
                    fx
                } else {
                    self.running = false;
                    self.err = Some(e);
                    self.set_stage(owned("Failed"), false, &mut fx);
                    fx
                }
            },
        }
    }

    fn fall_back(&mut self, variant: &str, fx: &mut Vec<Effect>)
        requires
            old(fx)@.len() == 0,
        ensures
            (final(self)@, effects_v(final(fx)@)) == spawned_spec(
                old(self)@,
                variant@,
                Err(Seq::<char>::empty()),
                true,
            ),
            final(self).file == old(self).file,
    {
        assert(effects_v(fx@) =~= Seq::<EffectV>::empty());
        let is_fast = lit_eq(variant, "fast");
        let other = fallback_variant(variant);
        let mut l = owned(variant);
        push_str(&mut l, " engine not found - falling back to ");
        push_str(&mut l, other.as_str());
        push_str(&mut l, " engine");
        assert(l@ =~= variant@ + " engine not found - falling back to "@ + other@ + " engine"@);
        self.log_line(l, fx);
        if is_fast {
            self.retried_safe = true;
        }
        self.child_variant = Some(other.clone());
        let ghost before = effects_v(fx@);
        let ghost ov = other@;
        fx.push(Effect::Spawn { variant: other, fallback: true });
        assert(effects_v(fx@) =~= before.push(EffectV::Spawn(ov, true)));
        assert(self@ =~= spawned_spec(old(self)@, variant@, Err(Seq::<char>::empty()), true).0);
    }

    /// Outcome of starting the fallback build.
    pub fn fallback_spawned(&mut self, r: Result<(), String>)
        ensures
            final(self)@ == fallback_spawned_spec(
                old(self)@,
                match r {
                    Ok(u) => Ok(u),
                    Err(e) => Err(e@),
                },
            ),
            final(self).file == old(self).file,
    {
        match r {
            Ok(_) => {
                self.has_child = true;
            },
            Err(e) => {
                self.running = false;
                self.err = Some(e);
            },
        }
    }

    /// Cancel pressed.
    pub fn cancel(&mut self) -> (fx: Vec<Effect>)
        ensures
            (final(self)@, effects_v(fx@)) == cancel_spec(old(self)@),
            final(self).file == old(self).file,
    {
        let mut fx: Vec<Effect> = Vec::new();
        assert(effects_v(fx@) =~= Seq::<EffectV>::empty());
        if self.running {
            self.cancel_requested = true;
            if self.has_child {
                fx.push(Effect::Kill);
            }
            assert(effects_v(fx@) =~= (if self.has_child {
                seq![EffectV::Kill]
            } else {
                Seq::<EffectV>::empty()
            }));
            self.log_line(owned("Cancel requested - stopping engine..."), &mut fx);
        }
        fx
    }

    /// The end of a poll tick: `stage_secs` is how long the current stage has
    /// run, `autotest_expired` whether the autotest clock ran out.
    pub fn poll_end(&mut self, stage_secs: u64, autotest_expired: bool) -> (fx: Vec<Effect>)
        ensures
            (final(self)@, effects_v(fx@)) == poll_end_spec(old(self)@, stage_secs, autotest_expired),
            final(self).file == old(self).file,
    {
        let mut fx: Vec<Effect> = Vec::new();
        if self.running && self.stage_timed && stage_secs >= 3 {
            self.on_heartbeat(stage_secs);
        }
        if self.autotest_done && autotest_expired {
            fx.push(Effect::Exit);
            assert(effects_v(fx@) =~= seq![EffectV::Exit]);
            return fx;
        }
        if self.autostart && self.file.is_some() && !self.running && self.segs.len() == 0
            && self.err.is_none() {
            self.autostart = false;
            fx.push(Effect::Start);
            assert(effects_v(fx@) =~= seq![EffectV::Start]);
        } else {
            assert(effects_v(fx@) =~= Seq::<EffectV>::empty());
        }
        fx
    }

    /// A model was picked; ignored while a job runs.
    pub fn model_sel(&mut self, k: Kind)
        ensures
            final(self)@ == (if old(self)@.running {
                old(self)@
            } else {
                UiV { model: k, ..old(self)@ }
            }),
            final(self).file == old(self).file,
    {
        if !self.running {
            self.model = k;
        }
    }

    /// The file dialog closed: the chosen file and how it is shown, or
    /// nothing.
    pub fn file_picked(&mut self, f: Option<(PathBuf, String)>) -> (fx: Vec<Effect>)
        ensures
            (final(self)@, effects_v(fx@)) == (match f {
                Some(p) => {
                    let o = log_spec((old(self)@, seq![]), "Selected: "@ + p.1@);
                    (UiV { has_file: true, err: None, ..o.0 }, o.1)
                },
                None => log_spec((old(self)@, seq![]), "File selection cancelled"@),
            }),
            f matches Some(p) ==> final(self).file == Some(p.0),
            f is None ==> final(self).file == old(self).file,
    {
        let mut fx: Vec<Effect> = Vec::new();
        assert(effects_v(fx@) =~= Seq::<EffectV>::empty());
        match f {
            Some((p, shown)) => {
                let mut l = owned("Selected: ");
                push_str(&mut l, shown.as_str());
                self.log_line(l, &mut fx);
                self.file = Some(p);
                self.err = None;
            },
            None => {
                self.log_line(owned("File selection cancelled"), &mut fx);
            },
        }
        fx
    }

    /// The context hint was edited.
    pub fn context_changed(&mut self, s: String)
        ensures
            final(self)@ == (UiV { context: s@, ..old(self)@ }),
            final(self).file == old(self).file,
    {
        self.context = s;
    }

    /// The export finished: for each file, how it is shown and `None`, or the
    /// error.
    pub fn export_done(&mut self, results: Vec<(String, Option<String>)>) -> (fx: Vec<Effect>)
        ensures
            (final(self)@, effects_v(fx@)) == ({
                let o = log_all((old(self)@, seq![]), export_log(result_views(results@)));
                (UiV { exported: any_ok(result_views(results@)), ..o.0 }, o.1)
            }),
            final(self).file == old(self).file,
    {
        let mut fx: Vec<Effect> = Vec::new();
        assert(effects_v(fx@) =~= Seq::<EffectV>::empty());
        let ghost rv = result_views(results@);
        let ghost s0 = self@;
        let mut ok = false;
        let mut i: usize = 0;
        while i < results.len()
            invariant
                i <= results.len(),
                rv == result_views(results@),
                (self@, effects_v(fx@)) == log_all((s0, seq![]), export_log(rv).take(i as int)),
                ok == any_ok(rv.take(i as int)),
                self.file == old(self).file,
            decreases results.len() - i,
        {
            let mut l = String::new();
            match &results[i].1 {
                None => {
                    push_str(&mut l, "Exported: ");
                    push_str(&mut l, results[i].0.as_str());
                    ok = true;
                },
                Some(e) => {
                    push_str(&mut l, "Export FAILED ");
                    push_str(&mut l, results[i].0.as_str());
                    push_str(&mut l, ": ");
                    push_str(&mut l, e.as_str());
                },
            }
            proof {
                assert(l@ =~= export_log(rv)[i as int]);
                assert(export_log(rv).take(i + 1).drop_last() =~= export_log(rv).take(i as int));
                assert(rv.take(i + 1)[i as int] == rv[i as int]);
                if ok {
                    if rv[i as int].1 is None {
                        assert(rv.take(i + 1)[i as int].1 is None);
                    } else {
                        let j = choose|j: int| 0 <= j < rv.take(i as int).len() && (#[trigger] rv.take(i as int)[j]).1 is None;
                        assert(rv.take(i + 1)[j].1 is None);
                    }
                } else {
                    assert forall|j: int| 0 <= j < rv.take(i + 1).len() implies !((#[trigger] rv.take(i + 1)[j]).1 is None) by {
                        if j < i {
                            assert(rv.take(i + 1)[j] == rv.take(i as int)[j]);
                        }
                    }
                }
            }
            self.log_line(l, &mut fx);
            i = i + 1;
        }
        assert(export_log(rv).take(i as int) =~= export_log(rv));
        assert(rv.take(i as int) =~= rv);
        self.exported = ok;
        fx
    }

    /// The automatic test run: a preset file (and model, when the given
    /// name is known), started on the first poll.
    pub fn preset_autotest(&mut self, file: PathBuf, model: Option<Kind>) -> (fx: Vec<Effect>)
        ensures
            (final(self)@, effects_v(fx@)) == ({
                let o = log_spec((old(self)@, seq![]), "autotest mode: file preset"@);
                (
                    UiV {
                        has_file: true,
                        model: match model {
                            Some(k) => k,
                            None => old(self)@.model,
                        },
                        autostart: true,
                        autotest: true,
                        ..o.0
                    },
                    o.1,
                )
            }),
            final(self).file == Some(file),
    {
        let mut fx: Vec<Effect> = Vec::new();
        assert(effects_v(fx@) =~= Seq::<EffectV>::empty());
        self.file = Some(file);
        if let Some(k) = model {
            self.model = k;
        }
        self.autostart = true;
        self.autotest = true;
        self.log_line(owned("autotest mode: file preset"), &mut fx);
        fx
    }

    fn stage_label_exec(&self, s: String) -> (r: (String, bool))
        ensures
            (r.0@, r.1) == stage_label(self.model, s@),
    {
        if lit_eq(s.as_str(), "extracting") {
            (owned("Extracting audio..."), true)
        } else if lit_eq(s.as_str(), "loading-model") {
            let mut l = owned("Loading whisper model (");
            push_str(&mut l, self.model.as_str());
            push_str(&mut l, ")...");
            assert(l@ =~= "Loading whisper model ("@ + kind_name(self.model) + ")..."@);
            (l, true)
        } else if lit_eq(s.as_str(), "transcribe") {
            (owned("Transcribing Turkish speech..."), true)
        } else if lit_eq(s.as_str(), "loading-mt") {
            (owned("Loading translation model..."), true)
        } else if lit_eq(s.as_str(), "translate") {
            (owned("Translating to Arabic..."), true)
        } else {
            (s, false)
        }
    }
}


/// The file list of an export: `"<stem>.<suffix>"` and the contents.
pub open spec fn export_files_spec(stem: Seq<char>, segs: Seq<Seg>) -> Seq<(Seq<char>, Seq<char>)> {
    crate::srt::export_spec(segs).map_values(
        |p: (Seq<char>, Seq<char>)| (stem + "."@ + p.0, p.1),
    )
}

/// The subtitle files an export writes next to the input, named after its
/// stem.
pub fn export_files(stem: &str, segs: &[Seg]) -> (r: Vec<(String, String)>)
    ensures
        crate::text::pair_views(r@) == export_files_spec(stem@, segs@),
{
    let parts = crate::srt::export_strings(segs);
    let mut r: Vec<(String, String)> = Vec::new();
    let mut i: usize = 0;
    while i < parts.len()
        invariant
            i <= parts.len(),
            crate::text::pair_views(parts@) == crate::srt::export_spec(segs@),
            crate::text::pair_views(r@) == export_files_spec(stem@, segs@).take(i as int),
        decreases parts.len() - i,
    {
        let mut name = owned(stem);
        push_str(&mut name, ".");
        push_str(&mut name, parts[i].0.as_str());
        let body = parts[i].1.clone();
        proof {
            assert(crate::text::pair_views(parts@)[i as int] == (parts@[i as int].0@, parts@[i as int].1@));
        }
        let ghost before = crate::text::pair_views(r@);
        r.push((name, body));
        assert(crate::text::pair_views(r@) =~= before.push((r@[i as int].0@, r@[i as int].1@)));
        assert(crate::text::pair_views(r@) =~= export_files_spec(stem@, segs@).take(i + 1));
        i = i + 1;
    }
    assert(export_files_spec(stem@, segs@).take(i as int) =~= export_files_spec(stem@, segs@));
    r
}

/// Truncating division of a time by a positive unit.
fn div_trunc(a: i64, b: i64) -> (q: i64)
    requires
        b > 0,
    ensures
        q == tdiv(a as int, b as int),
{
    if a >= 0 {
        a / b
    } else {
        let m: i128 = -(a as i128);
        let q: i128 = m / (b as i128);
        assert(q <= m);
        (-q) as i64
    }
}

fn push_clock(out: &mut String, ms: i64)
    ensures
        final(out)@ == old(out)@ + clock(ms as int),
{
    let mins = div_trunc(ms, 60000);
    let secs_total = div_trunc(ms, 1000);
    let q = div_trunc(secs_total, 60);
    proof {
        let t = secs_total as int;
        if t >= 0 {
            assert(t / 60 * 60 <= t);
        } else {
            assert((-t) / 60 * 60 <= -t);
        }
    }
    let secs = secs_total - 60 * q;
    push_pad_int(out, mins, 2);
    push_str(out, ":");
    push_pad_int(out, secs, 2);
    assert(out@ =~= old(out)@ + clock(ms as int));
}

/// `"mm:ss -> mm:ss"` of a subtitle line, as the result list shows it.
pub fn time_label_exec(s: &Seg) -> (r: String)
    ensures
        r@ == time_label(seg_v(*s)),
{
    let mut r = String::new();
    push_clock(&mut r, s.t0);
    push_str(&mut r, " -> ");
    push_clock(&mut r, s.t1);
    assert(r@ =~= time_label(seg_v(*s)));
    r
}


/// The progress bar always has a positive denominator: no reaction to an
/// engine event, to Start, to a spawn or to the end of a poll makes it 0.
pub proof fn law_progress_well_formed(
    s: UiV,
    p: ProgV,
    models: Result<(), Seq<char>>,
    variant: Seq<char>,
    r: Result<Seq<char>, Seq<char>>,
    fallback: bool,
    secs: u64,
    expired: bool,
)
    requires
        s.progress.den >= 1,
    ensures
        on_prog_spec(s, p).0.progress.den >= 1,
        start_spec(s, models).0.progress.den >= 1,
        spawned_spec(s, variant, r, fallback).0.progress.den >= 1,
        launch_spec((s, seq![]), variant, true).0.progress.den >= 1,
        poll_end_spec(s, secs, expired).0.progress.den >= 1,
        cancel_spec(s).0.progress.den >= 1,
{
}

/// A native crash of the fast engine in the middle of a job (no outcome
/// reported, exit code not 0, no cancel) is retried with the
/// maximum-compatibility engine: the job keeps running, nothing is reported
/// as an error, and the safe build is started with the bar half full.
pub proof fn law_fast_crash_retried_with_safe(s: UiV, code: Option<i32>, stderr: Seq<char>)
    requires
        s.running,
        !s.cancel_requested,
        !s.retried_safe,
        s.has_file,
        code != Some(0i32),
    ensures
        ({
            let o = on_prog_spec(s, ProgV::Exited("fast"@, code, stderr, false));
            &&& o.0.running
            &&& o.0.retried_safe
            &&& o.0.err == s.err
            &&& o.0.child_variant == Some("safe"@)
            &&& o.0.progress == Progress { num: 1, den: 2 }
            &&& o.1.len() > 0
            &&& o.1.last() == EffectV::Spawn("safe"@, false)
        }),
{
}

/// A native crash of the GPU build in the middle of a job moves down the
/// chain of builds (`next_variant`): the job keeps running on the fast
/// build, started with the bar half full.
pub proof fn law_gpu_crash_retried_with_fast(s: UiV, code: Option<i32>, stderr: Seq<char>)
    requires
        s.running,
        !s.cancel_requested,
        s.has_file,
        code != Some(0i32),
    ensures
        ({
            let o = on_prog_spec(s, ProgV::Exited("gpu"@, code, stderr, false));
            &&& o.0.running
            &&& o.0.err == s.err
            &&& o.0.child_variant == Some("fast"@)
            &&& o.1.len() > 0
            &&& o.1.last() == EffectV::Spawn("fast"@, false)
            &&& crate::supervisor::next_variant_spec("gpu"@) == Some("fast"@)
        }),
{
    reveal_strlit("gpu");
    reveal_strlit("fast");
    assert("gpu"@ != "fast"@) by {
        assert("gpu"@[0] != "fast"@[0]);
    }
}

/// A GPU crash, then a fast crash: the job runs on, now on the safe build.
pub proof fn law_gpu_then_fast_crash(s: UiV, c1: Option<i32>, c2: Option<i32>, e1: Seq<char>, e2: Seq<char>)
    requires
        s.running,
        !s.cancel_requested,
        !s.retried_safe,
        s.has_file,
        c1 != Some(0i32),
        c2 != Some(0i32),
    ensures
        ({
            let s1 = on_prog_spec(s, ProgV::Exited("gpu"@, c1, e1, false)).0;
            let o2 = on_prog_spec(s1, ProgV::Exited("fast"@, c2, e2, false));
            &&& s1.running
            &&& o2.0.running
            &&& o2.0.child_variant == Some("safe"@)
        }),
{
    law_gpu_crash_retried_with_fast(s, c1, e1);
    let s1 = on_prog_spec(s, ProgV::Exited("gpu"@, c1, e1, false)).0;
    assert(!s1.retried_safe) by {
        reveal_strlit("gpu");
        reveal_strlit("fast");
        assert("gpu"@[0] != "fast"@[0]);
    }
    law_fast_crash_retried_with_safe(s1, c2, e2);
}

/// The retry happens once: when the engine crashes again after the switch,
/// the job fails with the crash explained and no engine is started.
pub proof fn law_crash_after_retry_fails(
    s: UiV,
    variant: Seq<char>,
    code: Option<i32>,
    stderr: Seq<char>,
)
    requires
        s.running,
        !s.cancel_requested,
        s.retried_safe,
        variant != "gpu"@,
        code != Some(0i32),
    ensures
        ({
            let o = on_prog_spec(s, ProgV::Exited(variant, code, stderr, false));
            &&& !o.0.running
            &&& o.0.err == Some(crash_message(variant, code, stderr))
            &&& o.0.stage == "Failed"@
            &&& forall|i: int| 0 <= i < o.1.len() ==> !(#[trigger] o.1[i] is Spawn)
        }),
{
    let o = on_prog_spec(s, ProgV::Exited(variant, code, stderr, false));
    assert forall|i: int| 0 <= i < o.1.len() implies !(#[trigger] o.1[i] is Spawn) by {
        reveal_strlit("Failed");
    }
}

/// Two crashes of the fast engine in a row: the first is retried with the
/// safe build, the second ends the job as failed.
pub proof fn law_two_crashes(s: UiV, c1: Option<i32>, c2: Option<i32>, e1: Seq<char>, e2: Seq<char>)
    requires
        s.running,
        !s.cancel_requested,
        !s.retried_safe,
        s.has_file,
        c1 != Some(0i32),
        c2 != Some(0i32),
    ensures
        ({
            let s1 = on_prog_spec(s, ProgV::Exited("fast"@, c1, e1, false)).0;
            let s2 = on_prog_spec(s1, ProgV::Exited("safe"@, c2, e2, false)).0;
            &&& s1.running
            &&& !s2.running
            &&& s2.err == Some(crash_message("safe"@, c2, e2))
        }),
{
    let s1 = on_prog_spec(s, ProgV::Exited("fast"@, c1, e1, false)).0;
    law_fast_crash_retried_with_safe(s, c1, e1);
    assert("safe"@ != "gpu"@) by {
        reveal_strlit("safe");
        reveal_strlit("gpu");
        assert("safe"@[0] != "gpu"@[0]);
    }
    law_crash_after_retry_fails(s1, "safe"@, c2, e2);
}

/// Once the job has ended (done, failed or cancelled), the engine's exit
/// only forgets the process: nothing else changes and nothing is done.
pub proof fn law_exit_after_end_ignored(
    s: UiV,
    variant: Seq<char>,
    code: Option<i32>,
    stderr: Seq<char>,
    saw_terminal: bool,
)
    requires
        !s.running,
    ensures
        on_prog_spec(s, ProgV::Exited(variant, code, stderr, saw_terminal)) == (
            UiV { has_child: false, ..s },
            Seq::<EffectV>::empty(),
        ),
{
    assert(on_prog_spec(s, ProgV::Exited(variant, code, stderr, saw_terminal)).1 =~= Seq::<
        EffectV,
    >::empty());
}

/// The engine's own outcome ends the job: after Done the lines are shown and
/// the bar is full; after Failed the error is shown.
pub proof fn law_outcome_ends_job(s: UiV, segs: Seq<SegV>, e: Seq<char>)
    ensures
        ({
            let d = on_prog_spec(s, ProgV::Done(segs)).0;
            &&& !d.running
            &&& d.segs == segs
            &&& d.progress == Progress { num: 1, den: 1 }
        }),
        ({
            let f = on_prog_spec(s, ProgV::Failed(e)).0;
            &&& !f.running
            &&& f.err == Some(e)
            &&& f.stage == "Failed"@
        }),
{
}

/// Cancel during a job kills the engine; its exit then ends the job as
/// cancelled, not as a crash, and nothing is retried.
pub proof fn law_cancel_then_exit(s: UiV, variant: Seq<char>, code: Option<i32>, stderr: Seq<char>)
    requires
        s.running,
        s.has_child,
    ensures
        ({
            let c = cancel_spec(s);
            let x = on_prog_spec(c.0, ProgV::Exited(variant, code, stderr, false));
            &&& c.1[0] == EffectV::Kill
            &&& !x.0.running
            &&& x.0.stage == "Cancelled"@
            &&& x.0.err == s.err
            &&& forall|i: int| 0 <= i < x.1.len() ==> !(#[trigger] x.1[i] is Spawn)
        }),
{
}

} // verus!
