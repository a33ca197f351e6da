use tarjama::model::{EngineEvent, RawSeg};
use tarjama::pipeline::{clean_text, Emit, Phase, Pipeline, Request, Step, MIN_SAMPLES};

fn raw(t0: i64, t1: i64, text: &str) -> RawSeg {
    RawSeg { t0, t1, text: text.to_string() }
}

fn fail_msg(st: &Step) -> String {
    match &st.request {
        Request::Fail(m) => m.clone(),
        _ => panic!("expected a failure"),
    }
}

fn translate_text(st: &Step) -> String {
    match &st.request {
        Request::Translate(t) => t.clone(),
        _ => panic!("expected a translation request"),
    }
}

fn stages(st: &Step) -> Vec<String> {
    st.emits
        .iter()
        .filter_map(|e| match e {
            Emit::Event(EngineEvent::Stage { s }) => Some(s.clone()),
            _ => None,
        })
        .collect()
}

fn ready(glossary: &str, segs: Vec<RawSeg>) -> (Pipeline, Step) {
    let mut p = Pipeline::new(glossary.to_string());
    let st = p.start();
    assert!(matches!(st.request, Request::ExtractAudio));
    assert_eq!(stages(&st), vec!["extracting"]);
    let st = p.audio_extracted(Ok(32000));
    assert!(matches!(st.request, Request::Transcribe));
    assert_eq!(stages(&st), vec!["loading-model", "transcribe"]);
    let st = p.transcribed(Ok(segs));
    assert!(matches!(st.request, Request::LoadTranslator));
    assert_eq!(stages(&st), vec!["loading-mt"]);
    let st = p.translator_loaded(Ok(()));
    assert_eq!(stages(&st), vec!["translate"]);
    (p, st)
}

#[test]
fn clean_text_strips_quotes_and_collapses_space() {
    assert_eq!(clean_text("  \"Merhaba   dünya\" "), "Merhaba dünya");
    assert_eq!(clean_text("\u{201C}iyi\u{201D}\tgünler\n"), "iyi günler");
    assert_eq!(clean_text("   "), "");
    assert_eq!(clean_text(""), "");
}

#[test]
fn audio_failure_is_reported_with_context() {
    let mut p = Pipeline::new(String::new());
    p.start();
    let st = p.audio_extracted(Err("ffmpeg exited with 1".to_string()));
    assert_eq!(
        fail_msg(&st),
        "Audio extraction failed (is the file a valid video/audio?): ffmpeg exited with 1"
    );
    assert!(st.emits.is_empty());
    assert!(p.phase == Phase::Finished);
}

#[test]
fn too_little_audio_fails() {
    let mut p = Pipeline::new(String::new());
    p.start();
    let st = p.audio_extracted(Ok(MIN_SAMPLES - 1));
    assert_eq!(fail_msg(&st), "No usable audio track found in this file");
    assert!(matches!(st.emits.as_slice(), [Emit::AudioReport { samples: 1599 }]));
    let mut q = Pipeline::new(String::new());
    q.start();
    let st = q.audio_extracted(Ok(MIN_SAMPLES));
    assert!(matches!(st.request, Request::Transcribe));
}

#[test]
fn no_speech_fails() {
    let mut p = Pipeline::new(String::new());
    p.start();
    p.audio_extracted(Ok(16000));
    let st = p.transcribed(Ok(Vec::new()));
    assert_eq!(fail_msg(&st), "No speech detected in this file");
    let mut q = Pipeline::new(String::new());
    q.start();
    q.audio_extracted(Ok(16000));
    let st = q.transcribed(Err("whisper: model missing".to_string()));
    assert_eq!(fail_msg(&st), "whisper: model missing");
}

#[test]
fn translator_failure_is_reported_with_context() {
    let mut p = Pipeline::new(String::new());
    p.start();
    p.audio_extracted(Ok(16000));
    p.transcribed(Ok(vec![raw(0, 1000, "bir")]));
    let st = p.translator_loaded(Err("no such file".to_string()));
    assert_eq!(
        fail_msg(&st),
        "Failed to load translation model (models/mt/tr-ar): no such file"
    );
}

#[test]
fn full_run_gives_one_subtitle_per_segment() {
    let segs = vec![raw(0, 1500, " \"Ahmet   geldi\" "), raw(2000, 3500, "iyi günler")];
    let (mut p, st) = ready("", segs);
    assert_eq!(translate_text(&st), "Ahmet geldi");
    let st = p.translated(Ok("جاء أحمد".to_string()));
    assert!(matches!(st.emits.as_slice(), [Emit::Event(EngineEvent::Mt { a: 1, b: 2 })]));
    assert_eq!(translate_text(&st), "iyi günler");
    let st = p.translated(Err("decode failed".to_string()));
    assert!(matches!(
        st.emits.as_slice(),
        [Emit::Event(EngineEvent::Mt { a: 2, b: 2 }), Emit::FinishReport]
    ));
    match st.request {
        Request::Finish(out) => {
            assert_eq!(out.len(), 2);
            assert_eq!((out[0].t0, out[0].t1), (0, 1500));
            assert_eq!(out[0].tr, "Ahmet geldi");
            assert_eq!(out[0].ar, "جاء أحمد");
            assert_eq!((out[1].t0, out[1].t1), (2000, 3500));
            assert_eq!(out[1].tr, "iyi günler");
            assert_eq!(out[1].ar, "");
        }
        _ => panic!("expected the subtitles"),
    }
    assert!(p.phase == Phase::Finished);
}

#[test]
fn glossary_is_applied_to_the_arabic_side() {
    let (mut p, _) = ready("# names\nAhmet = أحمد\n", vec![raw(0, 1000, "Ahmet geldi")]);
    let st = p.translated(Ok("ahmet جاء".to_string()));
    match st.emits.as_slice() {
        [Emit::Event(EngineEvent::Mt { a: 1, b: 1 }), Emit::Event(EngineEvent::Log { s }), Emit::FinishReport] => {
            assert_eq!(s, "Applying glossary: 1 pairs")
        }
        _ => panic!("unexpected emits"),
    }
    match st.request {
        Request::Finish(out) => {
            assert_eq!(out.len(), 1);
            assert_eq!(out[0].ar, "أحمد جاء");
            assert_eq!(out[0].tr, "Ahmet geldi");
        }
        _ => panic!("expected the subtitles"),
    }
}

#[test]
fn glossary_case_insensitive_span_is_replaced() {
    let (mut p, _) = ready("A=X", vec![raw(0, 1000, "a")]);
    let st = p.translated(Ok("\u{130}\u{130}a".to_string()));
    match st.request {
        Request::Finish(out) => assert_eq!(out[0].ar, "\u{130}\u{130}X"),
        _ => panic!("expected the subtitles"),
    }
}

#[test]
fn cleaned_text_is_tidy() {
    let out = clean_text(" \u{201C}\"a\"  \t\"\"b\u{3000}\u{3000}c\u{201D}\n\n");
    assert_eq!(out, "a b c");
    assert!(!out.contains('"') && !out.contains('\u{201C}') && !out.contains('\u{201D}'));
    assert!(!out.contains("  ") && out.trim() == out);
}
