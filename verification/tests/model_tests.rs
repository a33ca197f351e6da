use tarjama::model::{wrap_err, EngineEvent, Kind, Seg};

#[test]
fn kind_all_lists_the_three_bundled_models() {
    assert_eq!(Kind::all(), [Kind::Tiny, Kind::Base, Kind::Small]);
}

#[test]
fn kind_file_names() {
    assert_eq!(Kind::Tiny.file(), "ggml-tiny-q5_1.bin");
    assert_eq!(Kind::Base.file(), "ggml-base-q5_1.bin");
    assert_eq!(Kind::Small.file(), "ggml-small-q5_1.bin");
}

#[test]
fn kind_labels() {
    assert_eq!(Kind::Tiny.label(), "Tiny  (32 MB - fastest)");
    assert_eq!(Kind::Base.label(), "Base  (60 MB - balanced)");
    assert_eq!(Kind::Small.label(), "Small (190 MB - best quality)");
}

#[test]
fn kind_parse_round_trips_as_str() {
    for k in Kind::all() {
        assert_eq!(Kind::parse(k.as_str()), Ok(k));
    }
}

#[test]
fn kind_parse_ignores_ascii_case() {
    assert_eq!(Kind::parse("TINY"), Ok(Kind::Tiny));
    assert_eq!(Kind::parse("Base"), Ok(Kind::Base));
    assert_eq!(Kind::parse("sMaLl"), Ok(Kind::Small));
}

#[test]
fn kind_parse_rejects_unknown_names() {
    assert_eq!(
        Kind::parse("Medium"),
        Err("unknown model 'medium' (tiny|base|small)".to_string())
    );
    assert_eq!(Kind::parse(""), Err("unknown model '' (tiny|base|small)".to_string()));
    assert_eq!(
        Kind::parse(" tiny"),
        Err("unknown model ' tiny' (tiny|base|small)".to_string())
    );
}

#[test]
fn engine_event_terminal_kinds() {
    assert!(EngineEvent::Done { segs: Vec::new() }.is_terminal());
    assert!(EngineEvent::Failed { err: "x".to_string() }.is_terminal());
    assert!(!EngineEvent::Log { s: "x".to_string() }.is_terminal());
    assert!(!EngineEvent::Stage { s: "x".to_string() }.is_terminal());
    assert!(!EngineEvent::Mt { a: 1, b: 2 }.is_terminal());
    assert!(!EngineEvent::Heartbeat { s: 5 }.is_terminal());
}

#[test]
fn wrap_err_prefixes_the_context() {
    match wrap_err::<u32>(Err("disk full".to_string()), "writing job") {
        Ok(_) => panic!("an error stays an error"),
        Err(e) => {
            assert_eq!(e.message(), "writing job".to_string());
            assert_eq!(e.alternate(), "writing job: disk full".to_string());
            assert_eq!(e.context, "writing job".to_string());
            assert_eq!(e.cause, "disk full".to_string());
        }
    }
    match wrap_err::<u32>(Ok(7), "writing job") {
        Ok(v) => assert_eq!(v, 7),
        Err(_) => panic!("a value stays a value"),
    }
}

#[test]
fn seg_clone_keeps_fields() {
    let s = Seg { t0: 1, t1: 2, tr: "a".to_string(), ar: "b".to_string() };
    let c = s.clone();
    assert_eq!((c.t0, c.t1, c.tr.as_str(), c.ar.as_str()), (1, 2, "a", "b"));
}
