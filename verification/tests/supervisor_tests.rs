use tarjama::engine::{caps_line, Caps};
use tarjama::model::{EngineEvent, Seg};
use tarjama::supervisor::{
    engine_env_key, engine_file_name, engine_not_found_message, exe_suffix, forward_line,
    next_variant, parse_caps_output, parse_u32, preferred_variant, stderr_tail, TAIL_BYTES,
};

fn chars(s: &str) -> Vec<char> {
    s.chars().collect()
}

#[test]
fn executable_suffix() {
    assert_eq!(exe_suffix(true), ".exe");
    assert_eq!(exe_suffix(false), "");
}

#[test]
fn downgrade_chain() {
    assert_eq!(next_variant("gpu"), Some("fast"));
    assert_eq!(next_variant("fast"), Some("safe"));
    assert_eq!(next_variant("safe"), None);
    assert_eq!(next_variant("other"), None);
}

#[test]
fn downgrade_chain_ends_within_three_steps() {
    for start in ["gpu", "fast", "safe", "x"] {
        let mut v = start;
        let mut steps = 0;
        while let Some(n) = next_variant(v) {
            assert_ne!(n, v);
            v = n;
            steps += 1;
        }
        assert!(steps <= 2);
    }
}

#[test]
fn preferred_build() {
    assert_eq!(preferred_variant(Some(1), false), "gpu");
    assert_eq!(preferred_variant(Some(3), true), "gpu");
    assert_eq!(preferred_variant(Some(0), true), "fast");
    assert_eq!(preferred_variant(None, true), "fast");
    assert_eq!(preferred_variant(None, false), "safe");
    assert_eq!(preferred_variant(Some(0), false), "safe");
}

#[test]
fn engine_locations() {
    assert_eq!(engine_env_key("gpu"), "TARJAMA_ENGINE_GPU");
    assert_eq!(engine_env_key("fast"), "TARJAMA_ENGINE_FAST");
    assert_eq!(engine_env_key("safe"), "TARJAMA_ENGINE_SAFE");
    assert_eq!(engine_env_key("anything"), "TARJAMA_ENGINE_SAFE");
    assert_eq!(engine_file_name("fast", ".exe"), "tarjama-engine-fast.exe");
    assert_eq!(engine_file_name("safe", ""), "tarjama-engine-safe");
    assert_eq!(
        engine_not_found_message("gpu", ".exe"),
        "engine not found: tarjama-engine-gpu.exe must sit next to tarjama.exe"
    );
}

#[test]
fn unsigned_parsing() {
    assert_eq!(parse_u32(&chars("42")), Some(42));
    assert_eq!(parse_u32(&chars("+7")), Some(7));
    assert_eq!(parse_u32(&chars("007")), Some(7));
    assert_eq!(parse_u32(&chars("4294967295")), Some(u32::MAX));
    assert_eq!(parse_u32(&chars("4294967296")), None);
    assert_eq!(parse_u32(&chars("")), None);
    assert_eq!(parse_u32(&chars("+")), None);
    assert_eq!(parse_u32(&chars("-1")), None);
    assert_eq!(parse_u32(&chars("1a")), None);
}

#[test]
fn capabilities_output_parsing() {
    let line = "engine v1 compiled-flags: sse3=1 vulkan=1 vulkan-devices=2 vulkan-gpus=Intel Arc | AMD\n";
    assert_eq!(parse_caps_output(line), Some((2, "Intel".to_string())));
    assert_eq!(parse_caps_output("vulkan-devices=0"), Some((0, String::new())));
    assert_eq!(
        parse_caps_output("vulkan-gpus=vulkan-gpus=x vulkan-devices=+1"),
        Some((1, "x".to_string()))
    );
    assert_eq!(parse_caps_output("vulkan-devices=many"), None);
    assert_eq!(parse_caps_output("engine v1 vulkan=0"), None);
    assert_eq!(parse_caps_output(""), None);
}

#[test]
fn capabilities_round_trip() {
    let c = Caps { sse3: 1, avx: 1, avx2: 1, fma: 1, f16c: 1, avx512: 0 };
    let line = caps_line("1.1.0", &c, (1, 3, "RTX".to_string()));
    assert_eq!(parse_caps_output(&line), Some((3, "RTX".to_string())));
    let none = caps_line("1.1.0", &c, (0, 0, String::new()));
    assert_eq!(parse_caps_output(&none), Some((0, "none".to_string())));
}

#[test]
fn engine_stdout_lines() {
    let done = EngineEvent::Done { segs: vec![Seg { t0: 0, t1: 1, tr: "a".into(), ar: "b".into() }] };
    let (ev, term) = forward_line(Some(done), "ignored".to_string());
    assert!(term);
    assert!(matches!(ev, EngineEvent::Done { ref segs } if segs.len() == 1));
    let (ev, term) = forward_line(Some(EngineEvent::Stage { s: "translate".into() }), String::new());
    assert!(!term);
    assert!(matches!(ev, EngineEvent::Stage { ref s } if s == "translate"));
    let (ev, term) = forward_line(None, "whisper says hi".to_string());
    assert!(!term);
    assert!(matches!(ev, EngineEvent::Log { ref s } if s == "whisper says hi"));
    let (_, term) = forward_line(Some(EngineEvent::Failed { err: "x".into() }), String::new());
    assert!(term);
}

#[test]
fn stderr_tail_last_four_lines_last_first() {
    assert_eq!(stderr_tail("a\nb\nc\nd\ne\n"), "e | d | c | b".to_string());
    assert_eq!(stderr_tail("x\r\ny"), "y | x".to_string());
    assert_eq!(stderr_tail(""), String::new());
    assert_eq!(stderr_tail("only\n\n"), " | only".to_string());
}

#[test]
fn stderr_tail_is_cut_to_the_byte_limit() {
    let long = "a".repeat(400);
    assert_eq!(stderr_tail(&long), "a".repeat(TAIL_BYTES));
    let exact = format!("{}\u{e9}", "a".repeat(298));
    assert_eq!(stderr_tail(&exact), exact.clone());
    let split = format!("{}\u{e9}b", "a".repeat(299));
    assert_eq!(stderr_tail(&split), "a".repeat(299));
    let arabic = "\u{633}".repeat(200);
    let tail = stderr_tail(&arabic);
    assert_eq!(tail, "\u{633}".repeat(150));
    assert!(tail.len() <= TAIL_BYTES);
}
