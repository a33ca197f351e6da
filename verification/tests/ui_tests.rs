use std::path::PathBuf;
use tarjama::model::{EngineEvent, Kind, Seg};
use tarjama::ui::{export_files, time_label_exec, Effect, Progress, Prog, Ui};

fn fx(e: &Effect) -> String {
    match e {
        Effect::Print(s) => format!("print:{s}"),
        Effect::StageClock(b) => format!("clock:{b}"),
        Effect::Spawn { variant, fallback } => format!("spawn:{variant}:{fallback}"),
        Effect::Kill => "kill".to_string(),
        Effect::Export => "export".to_string(),
        Effect::WriteMarker(s) => format!("marker:{s}"),
        Effect::AutotestClock => "autotest-clock".to_string(),
        Effect::Exit => "exit".to_string(),
        Effect::Start => "start".to_string(),
        Effect::ChooseVariant => "choose".to_string(),
    }
}

fn fxs(v: &[Effect]) -> Vec<String> {
    v.iter().map(fx).collect()
}

fn seg(t0: i64, t1: i64, tr: &str, ar: &str) -> Seg {
    Seg { t0, t1, tr: tr.to_string(), ar: ar.to_string() }
}

fn ev(e: EngineEvent) -> Prog {
    Prog::Engine(e)
}

fn exited(variant: &str, code: Option<i32>, stderr: &str, saw_terminal: bool) -> Prog {
    Prog::Exited { variant: variant.to_string(), code, stderr: stderr.to_string(), saw_terminal }
}

/// A GUI with a file chosen and a job started on the given build.
fn running(variant: &str) -> Ui {
    let mut u = Ui::new();
    u.file_picked(Some((PathBuf::from("/v/clip.mp4"), "/v/clip.mp4".to_string())));
    let f = u.start(Ok(()));
    assert_eq!(fxs(&f), vec!["clock:false", "choose"]);
    let mut f = Vec::new();
    u.launch(variant, false, &mut f);
    assert_eq!(fxs(&f), vec![format!("spawn:{variant}:false")]);
    u.spawned(variant, Ok("4242".to_string()), false);
    u
}

#[test]
fn initial_state() {
    let u = Ui::new();
    assert_eq!(u.stage, "Idle - choose a file to begin");
    assert_eq!(u.model, Kind::Small);
    assert!(!u.running && u.file.is_none() && u.err.is_none());
    assert!(u.progress == Progress { num: 0, den: 1 });
}

#[test]
fn start_needs_a_file_and_models() {
    let mut u = Ui::new();
    assert!(u.start(Ok(())).is_empty());
    assert_eq!(u.err.as_deref(), Some("Choose a video or audio file first"));
    let f = u.file_picked(Some((PathBuf::from("a.mp4"), "a.mp4".to_string())));
    assert_eq!(fxs(&f), vec!["print:Selected: a.mp4"]);
    assert_eq!(u.err, None);
    assert_eq!(u.logs, "Selected: a.mp4\n");
    assert!(u.start(Err("models folder not found".to_string())).is_empty());
    assert_eq!(u.err.as_deref(), Some("models folder not found"));
    assert!(!u.running);
    let f = u.start(Ok(()));
    assert_eq!(fxs(&f), vec!["clock:false", "choose"]);
    assert!(u.running && u.err.is_none());
    assert_eq!(u.stage, "Starting engine...");
    assert!(u.start(Ok(())).is_empty());
}

#[test]
fn file_dialog_cancelled() {
    let mut u = Ui::new();
    let f = u.file_picked(None);
    assert_eq!(fxs(&f), vec!["print:File selection cancelled"]);
    assert!(u.file.is_none());
}

#[test]
fn engine_started_is_logged() {
    let u = running("fast");
    assert!(u.has_child);
    assert_eq!(u.child_variant.as_deref(), Some("fast"));
    assert!(u.logs.ends_with("Engine started (fast build, pid 4242)\n"));
}

#[test]
fn stage_events() {
    let mut u = running("safe");
    let f = u.on_prog(ev(EngineEvent::Stage { s: "extracting".into() }));
    assert_eq!(fxs(&f), vec!["clock:true"]);
    assert_eq!(u.stage, "Extracting audio...");
    u.on_prog(ev(EngineEvent::Stage { s: "loading-model".into() }));
    assert_eq!(u.stage, "Loading whisper model (small)...");
    u.on_prog(ev(EngineEvent::Stage { s: "transcribe".into() }));
    assert_eq!(u.stage, "Transcribing Turkish speech...");
    u.on_prog(ev(EngineEvent::Stage { s: "loading-mt".into() }));
    assert_eq!(u.stage, "Loading translation model...");
    let f = u.on_prog(ev(EngineEvent::Heartbeat { s: 12 }));
    assert!(f.is_empty());
    assert_eq!(u.stage, "Loading translation model... (12s)");
    let f = u.on_prog(ev(EngineEvent::Stage { s: "custom step".into() }));
    assert_eq!(fxs(&f), vec!["clock:false"]);
    assert_eq!(u.stage, "custom step");
    assert!(!u.stage_timed);
}

#[test]
fn translation_progress() {
    let mut u = running("safe");
    let f = u.on_prog(ev(EngineEvent::Mt { a: 3, b: 10 }));
    assert_eq!(fxs(&f), vec!["clock:true"]);
    assert!(u.progress == Progress { num: 3, den: 10 });
    assert_eq!(u.stage, "Translating to Arabic (3/10)...");
    u.on_prog(ev(EngineEvent::Mt { a: 0, b: 0 }));
    assert!(u.progress == Progress { num: 0, den: 1 });
    let f = u.on_prog(ev(EngineEvent::Log { s: "hello".into() }));
    assert_eq!(fxs(&f), vec!["print:hello"]);
}

#[test]
fn done_shows_the_lines() {
    let mut u = running("fast");
    let f = u.on_prog(ev(EngineEvent::Done { segs: vec![seg(0, 1, "a", "b"), seg(1, 2, "c", "d")] }));
    assert_eq!(fxs(&f), vec!["print:DONE: 2 lines produced"]);
    assert!(!u.running);
    assert_eq!(u.segs.len(), 2);
    assert_eq!(u.stage, "Done - 2 subtitle lines ready");
    assert!(u.progress == Progress { num: 1, den: 1 });
    let f = u.on_prog(exited("fast", Some(0), "", true));
    assert!(f.is_empty());
    assert!(!u.has_child && !u.running);
    assert_eq!(u.err, None);
}

#[test]
fn failed_shows_the_error() {
    let mut u = running("fast");
    let f = u.on_prog(ev(EngineEvent::Failed { err: "No speech detected in this file".into() }));
    assert_eq!(fxs(&f), vec!["clock:false", "print:ERROR: No speech detected in this file"]);
    assert!(!u.running);
    assert_eq!(u.stage, "Failed");
    assert_eq!(u.err.as_deref(), Some("No speech detected in this file"));
    let f = u.on_prog(exited("fast", Some(0), "", true));
    assert!(f.is_empty());
    assert_eq!(u.stage, "Failed");
}

#[test]
fn fast_crash_is_retried_with_the_safe_engine() {
    let mut u = running("fast");
    let f = u.on_prog(exited("fast", Some(-1073741795), "illegal instruction", false));
    assert_eq!(
        fxs(&f),
        vec![
            "print:The fast engine (fast) crashed (exit Some(-1073741795)) - switching to the maximum-compatibility engine and retrying automatically...",
            "clock:false",
            "spawn:safe:false",
        ]
    );
    assert!(u.running && u.retried_safe);
    assert_eq!(u.err, None);
    assert_eq!(u.stage, "Restarting with compatibility engine...");
    assert_eq!(u.child_variant.as_deref(), Some("safe"));
    assert!(u.progress == Progress { num: 1, den: 2 });
}

#[test]
fn gpu_crash_is_retried_with_the_fast_engine() {
    let mut u = running("gpu");
    let f = u.on_prog(exited("gpu", Some(-11), "vk lost", false));
    assert_eq!(
        fxs(&f),
        vec![
            "print:The GPU engine (gpu) crashed (exit Some(-11)) - switching to the fast engine and retrying automatically...",
            "clock:false",
            "spawn:fast:false",
        ]
    );
    assert!(u.running && !u.retried_safe);
    assert_eq!(u.err, None);
    assert_eq!(u.stage, "Restarting with the fast engine...");
    assert_eq!(u.child_variant.as_deref(), Some("fast"));
    u.spawned("fast", Ok("99".to_string()), false);
    let f = u.on_prog(exited("fast", None, "", false));
    assert_eq!(
        fxs(&f),
        vec![
            "print:The fast engine (fast) crashed (exit None) - switching to the maximum-compatibility engine and retrying automatically...",
            "clock:false",
            "spawn:safe:false",
        ]
    );
    assert_eq!(u.child_variant.as_deref(), Some("safe"));
}

#[test]
fn second_crash_fails_with_details() {
    let mut u = running("fast");
    u.on_prog(exited("fast", None, "", false));
    u.spawned("safe", Ok("77".to_string()), false);
    let f = u.on_prog(exited("safe", Some(3), "boom", false));
    assert_eq!(fxs(&f), vec!["clock:false", "print:ERROR: engine crash"]);
    assert!(!u.running);
    assert_eq!(u.stage, "Failed");
    assert_eq!(
        u.err.as_deref(),
        Some("The engine crashed (exit code Some(3), variant safe). Details: boom Suggestions: try the Tiny model, use a shorter file, or close other memory-heavy programs.")
    );
}

#[test]
fn crash_of_the_safe_engine_is_not_retried() {
    let mut u = running("safe");
    let f = u.on_prog(exited("safe", None, "", false));
    assert_eq!(fxs(&f), vec!["clock:false", "print:ERROR: engine crash"]);
    assert_eq!(
        u.err.as_deref(),
        Some("The engine crashed (exit code None, variant safe). Suggestions: try the Tiny model, use a shorter file, or close other memory-heavy programs.")
    );
}

#[test]
fn clean_exit_without_outcome_just_ends() {
    let mut u = running("fast");
    let f = u.on_prog(exited("fast", Some(0), "", false));
    assert!(f.is_empty());
    assert!(!u.running);
    assert_eq!(u.err, None);
}

#[test]
fn cancel_kills_and_ends_as_cancelled() {
    let mut u = running("fast");
    let f = u.cancel();
    assert_eq!(fxs(&f), vec!["kill", "print:Cancel requested - stopping engine..."]);
    assert!(u.cancel_requested);
    let f = u.on_prog(exited("fast", None, "", false));
    assert_eq!(fxs(&f), vec!["clock:false", "print:Stopped by user"]);
    assert!(!u.running);
    assert_eq!(u.stage, "Cancelled");
    assert_eq!(u.err, None);
    assert!(u.cancel().is_empty());
}

#[test]
fn missing_engine_falls_back_to_the_other_build() {
    let mut u = Ui::new();
    u.file_picked(Some((PathBuf::from("a.mp4"), "a.mp4".to_string())));
    u.start(Ok(()));
    let mut f = Vec::new();
    u.launch("fast", false, &mut f);
    let f = u.spawned("fast", Err("engine not found".to_string()), true);
    assert_eq!(
        fxs(&f),
        vec!["print:fast engine not found - falling back to safe engine", "spawn:safe:true"]
    );
    assert!(u.retried_safe);
    assert_eq!(u.child_variant.as_deref(), Some("safe"));
    u.fallback_spawned(Err("failed to start".to_string()));
    assert!(!u.running);
    assert_eq!(u.err.as_deref(), Some("failed to start"));
}

#[test]
fn fallback_from_safe_goes_to_fast() {
    let mut u = Ui::new();
    u.file_picked(Some((PathBuf::from("a.mp4"), "a.mp4".to_string())));
    u.start(Ok(()));
    let f = u.spawned("safe", Err("nope".to_string()), true);
    assert_eq!(
        fxs(&f),
        vec!["print:safe engine not found - falling back to fast engine", "spawn:fast:true"]
    );
    assert!(!u.retried_safe);
    u.fallback_spawned(Ok(()));
    assert!(u.has_child && u.running);
}

#[test]
fn spawn_failure_without_fallback_fails() {
    let mut u = Ui::new();
    u.file_picked(Some((PathBuf::from("a.mp4"), "a.mp4".to_string())));
    u.start(Ok(()));
    let f = u.spawned("gpu", Err("failed to start gpu".to_string()), false);
    assert_eq!(fxs(&f), vec!["clock:false"]);
    assert!(!u.running);
    assert_eq!(u.stage, "Failed");
    assert_eq!(u.err.as_deref(), Some("failed to start gpu"));
}

#[test]
fn autotest_run() {
    let mut u = Ui::new();
    let f = u.preset_autotest(PathBuf::from("/t/x.wav"), Some(Kind::Tiny));
    assert_eq!(fxs(&f), vec!["print:autotest mode: file preset"]);
    assert!(u.autostart && u.autotest);
    assert_eq!(u.model, Kind::Tiny);
    let f = u.poll_end(0, false);
    assert_eq!(fxs(&f), vec!["start"]);
    assert!(!u.autostart);
    u.start(Ok(()));
    let mut f = Vec::new();
    u.launch("fast", false, &mut f);
    let f = u.on_prog(ev(EngineEvent::Done { segs: vec![seg(0, 1, "a", "b"), seg(1, 2, "c", "d")] }));
    assert_eq!(
        fxs(&f),
        vec![
            "print:DONE: 2 lines produced",
            "export",
            "marker:2 tiny variant=fast\n",
            "print:AUTOTEST COMPLETE",
            "autotest-clock",
        ]
    );
    assert!(u.autotest_done);
    assert!(u.poll_end(0, false).is_empty());
    assert_eq!(fxs(&u.poll_end(0, true)), vec!["exit"]);
}

#[test]
fn autotest_failure_writes_the_marker() {
    let mut u = Ui::new();
    u.preset_autotest(PathBuf::from("/t/x.wav"), None);
    assert_eq!(u.model, Kind::Small);
    u.start(Ok(()));
    let f = u.on_prog(ev(EngineEvent::Failed { err: "bad".into() }));
    assert_eq!(fxs(&f), vec!["clock:false", "print:ERROR: bad", "marker:FAILED: bad\n"]);
}

#[test]
fn poll_clock_shows_elapsed_seconds() {
    let mut u = running("fast");
    u.on_prog(ev(EngineEvent::Stage { s: "transcribe".into() }));
    u.poll_end(2, false);
    assert_eq!(u.stage, "Transcribing Turkish speech...");
    u.poll_end(7, false);
    assert_eq!(u.stage, "Transcribing Turkish speech... (7s)");
    u.on_prog(ev(EngineEvent::Stage { s: "other".into() }));
    u.poll_end(9, false);
    assert_eq!(u.stage, "other");
}

#[test]
fn model_choice_is_locked_while_running() {
    let mut u = Ui::new();
    u.model_sel(Kind::Base);
    assert_eq!(u.model, Kind::Base);
    let mut r = running("fast");
    r.model_sel(Kind::Tiny);
    assert_eq!(r.model, Kind::Small);
    u.context_changed("haber bülteni".to_string());
    assert_eq!(u.context, "haber bülteni");
}

#[test]
fn export_request_and_outcome() {
    let mut u = Ui::new();
    let mut f = Vec::new();
    u.export_request(&mut f);
    assert!(f.is_empty());
    let mut r = running("fast");
    r.on_prog(ev(EngineEvent::Done { segs: vec![seg(0, 1, "a", "b")] }));
    let mut f = Vec::new();
    r.export_request(&mut f);
    assert_eq!(fxs(&f), vec!["export"]);
    let f = r.export_done(vec![
        ("/v/clip.ar.srt".to_string(), None),
        ("/v/clip.tr.txt".to_string(), Some("permission denied".to_string())),
    ]);
    assert_eq!(
        fxs(&f),
        vec!["print:Exported: /v/clip.ar.srt", "print:Export FAILED /v/clip.tr.txt: permission denied"]
    );
    assert!(r.exported);
    r.export_done(vec![("x".to_string(), Some("e".to_string()))]);
    assert!(!r.exported);
}

#[test]
fn export_file_names() {
    let segs = vec![seg(0, 1000, "bir", "واحد")];
    let files = export_files("clip", &segs);
    let names: Vec<&str> = files.iter().map(|(n, _)| n.as_str()).collect();
    assert_eq!(
        names,
        vec!["clip.ar.srt", "clip.bilingual.srt", "clip.ar.vtt", "clip.ar.txt", "clip.tr.txt"]
    );
    assert_eq!(files[3].1, "واحد\n");
}

#[test]
fn result_time_labels() {
    assert_eq!(time_label_exec(&seg(61_500, 3_600_000, "", "")), "01:01 -> 60:00");
    assert_eq!(time_label_exec(&seg(0, 999, "", "")), "00:00 -> 00:00");
    assert_eq!(time_label_exec(&seg(-61_500, 5_999_999, "", "")), "-1:-1 -> 99:59");
}
