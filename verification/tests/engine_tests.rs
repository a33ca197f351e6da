use tarjama::engine::{
    announce, ffmpeg_failure, backend_report, caps_line, collect_segments, has_arabic, initial_prompt,
    is_interesting, parse_cli, record_log_line, should_use_gpu, try_parse_cli, vulkan_info,
    selftest_heard_speech, selftest_text, whisper_threads, Caps, MAX_CAPTURED, SELFTEST_MIN_SAMPLES,
};
use tarjama::model::Kind;

fn strings(v: &[&str]) -> Vec<String> {
    v.iter().map(|s| s.to_string()).collect()
}

#[test]
fn interesting_log_lines() {
    assert!(is_interesting("ggml_vulkan: Found 1 Vulkan devices:"));
    assert!(is_interesting("vulkan loader"));
    assert!(is_interesting("no GPU found"));
    assert!(is_interesting("whisper_backend_init: using CPU backend"));
    assert!(!is_interesting("whisper_init_from_file: loading model"));
}

#[test]
fn capture_keeps_interesting_lines_up_to_the_limit() {
    let mut c: Vec<String> = Vec::new();
    record_log_line(&mut c, "plain line".to_string());
    assert!(c.is_empty());
    for i in 0..(MAX_CAPTURED + 10) {
        record_log_line(&mut c, format!("Vulkan line {i}"));
    }
    assert_eq!(c.len(), MAX_CAPTURED);
    assert_eq!(c[0], "Vulkan line 0");
    assert_eq!(c[MAX_CAPTURED - 1], format!("Vulkan line {}", MAX_CAPTURED - 1));
}

#[test]
fn backend_report_cpu_without_lines() {
    assert_eq!(backend_report(&Vec::new()), "CPU");
    assert_eq!(backend_report(&strings(&["using CPU backend"])), "CPU");
}

#[test]
fn backend_report_gpu_with_device_names() {
    let lines = strings(&[
        "ggml_vulkan: Found 1 Vulkan devices: Intel(R) UHD Graphics ",
        "whisper_backend_init_gpu: using Vulkan backend",
    ]);
    assert_eq!(backend_report(&lines), "GPU (Vulkan) - Intel(R) UHD Graphics");
    let two = strings(&[
        "devices: A",
        "devices:   ",
        "using CUDA backend",
        "other devices: B",
    ]);
    assert_eq!(backend_report(&two), "GPU (Vulkan) - A; B");
    assert_eq!(backend_report(&strings(&["using Vulkan backend"])), "GPU (Vulkan)");
}

#[test]
fn backend_report_vulkan_present_but_unused() {
    assert_eq!(
        backend_report(&strings(&["ggml_vulkan: Found 0 Vulkan devices"])),
        "CPU (Vulkan backend compiled but GPU init failed or no usable device)"
    );
}

#[test]
fn gpu_use_needs_build_device_and_no_override() {
    assert!(should_use_gpu(true, None, 1));
    assert!(should_use_gpu(true, Some("0"), 2));
    assert!(!should_use_gpu(true, Some("1"), 2));
    assert!(!should_use_gpu(false, None, 5));
    assert!(!should_use_gpu(true, None, 0));
}

#[test]
fn vulkan_info_by_build() {
    assert_eq!(vulkan_info(true, (2, "A | B".to_string())), (1, 2, "A | B".to_string()));
    assert_eq!(vulkan_info(false, (2, "A".to_string())), (0, 0, String::new()));
}

#[test]
fn capabilities_line() {
    let c = Caps { sse3: 1, avx: 1, avx2: 1, fma: 1, f16c: 1, avx512: 0 };
    assert_eq!(
        caps_line("1.1.0", &c, (1, 1, "Intel Arc".to_string())),
        "engine v1.1.0 compiled-flags: sse3=1 avx=1 avx2=1 fma=1 f16c=1 avx512=0 vulkan=1 vulkan-devices=1 vulkan-gpus=Intel Arc"
    );
    let z = Caps { sse3: 1, avx: 0, avx2: 0, fma: 0, f16c: 0, avx512: -1 };
    assert_eq!(
        caps_line("2", &z, (0, 0, String::new())),
        "engine v2 compiled-flags: sse3=1 avx=0 avx2=0 fma=0 f16c=0 avx512=-1 vulkan=0 vulkan-devices=0 vulkan-gpus=none"
    );
}

#[test]
fn banner_line() {
    assert_eq!(
        announce("1.1.0", "fast", "engine v1.1.0"),
        "Tarjama engine v1.1.0 (fast) | engine v1.1.0"
    );
}

#[test]
fn thread_counts() {
    assert_eq!(whisper_threads(4, Some(16)), 4);
    assert_eq!(whisper_threads(0, Some(16)), 8);
    assert_eq!(whisper_threads(0, Some(3)), 3);
    assert_eq!(whisper_threads(0, Some(0)), 1);
    assert_eq!(whisper_threads(0, None), 2);
    assert_eq!(whisper_threads(-3, Some(6)), 6);
}

#[test]
fn context_prompt_is_trimmed() {
    assert_eq!(initial_prompt("  Ankara, Mehmet  "), Some("Ankara, Mehmet".to_string()));
    assert_eq!(initial_prompt(" \t "), None);
}

#[test]
fn whisper_segments_to_milliseconds() {
    let segs = vec![
        (0i64, 150i64, " merhaba ".to_string()),
        (150, 200, "   ".to_string()),
        (200, 300, "dünya".to_string()),
    ];
    let out = collect_segments(&segs);
    assert_eq!(out.len(), 2);
    assert_eq!((out[0].t0, out[0].t1, out[0].text.as_str()), (0, 1500, "merhaba"));
    assert_eq!((out[1].t0, out[1].t1, out[1].text.as_str()), (2000, 3000, "dünya"));
}

#[test]
fn arabic_detection() {
    assert!(!has_arabic("merhaba"));
    assert!(has_arabic("x مرحبا"));
    assert!(has_arabic("\u{600}"));
    assert!(has_arabic("\u{6FF}"));
    assert!(!has_arabic("\u{700}"));
    assert!(!has_arabic(""));
}

#[test]
fn cli_arguments() {
    let args = strings(&[
        "--input", "a.mp4", "--model", "TINY", "--out", "o/sub", "--context", "haber",
        "--glossary", "g1.txt", "--glossary", "g2.txt",
    ]);
    let c = parse_cli(&args);
    assert_eq!(c.input, Some("a.mp4".to_string()));
    assert_eq!(c.model, Kind::Tiny);
    assert_eq!(c.out, Some("o/sub".to_string()));
    assert_eq!(c.context, "haber");
    assert_eq!(c.glossary_files, strings(&["g1.txt", "g2.txt"]));
    assert_eq!(c.error, None);
}

#[test]
fn cli_defaults() {
    let c = parse_cli(&[]);
    assert_eq!(c.input, None);
    assert_eq!(c.model, Kind::Small);
    assert_eq!(c.out, None);
    assert_eq!(c.context, "");
    assert!(c.glossary_files.is_empty());
    assert_eq!(c.error, None);
}

#[test]
fn cli_errors_stop_parsing() {
    let c = parse_cli(&strings(&["--glossary", "g.txt", "--bogus", "--input", "x"]));
    assert_eq!(c.error, Some("unknown cli arg '--bogus'".to_string()));
    assert_eq!(c.glossary_files, strings(&["g.txt"]));
    assert_eq!(c.input, None);
    let m = parse_cli(&strings(&["--model", "medium", "--input", "x"]));
    assert_eq!(m.error, Some("unknown model 'medium' (tiny|base|small)".to_string()));
    assert_eq!(m.input, None);
}

#[test]
fn cli_missing_value() {
    assert!(try_parse_cli(&strings(&["--input"])).is_none());
    assert!(try_parse_cli(&strings(&["--input", "a", "--model"])).is_none());
    assert!(try_parse_cli(&strings(&["--nope", "--input"])).is_some());
}

#[test]
fn ffmpeg_failure_messages() {
    assert_eq!(
        ffmpeg_failure(Some(1), "[in] bad header\nInvalid data found when processing input\n"),
        "ffmpeg failed (exit Some(1)): Invalid data found when processing input"
    );
    assert_eq!(ffmpeg_failure(None, ""), "ffmpeg failed (exit None)");
    assert_eq!(ffmpeg_failure(Some(-9), "a\n\n"), "ffmpeg failed (exit Some(-9))");
}

#[test]
fn selftest_checks() {
    let texts = strings(&[" merhaba", "dünya ", ""]);
    assert_eq!(selftest_text(&texts), "merhaba dünya");
    assert_eq!(selftest_text(&Vec::new()), "");
    assert!(selftest_heard_speech("dünya"));
    assert!(!selftest_heard_speech("dün"));
    assert_eq!(SELFTEST_MIN_SAMPLES, 8000);
}
