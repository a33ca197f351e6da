use tarjama::model::Seg;
use tarjama::srt::{export_strings, srt_ar, srt_bilingual, ts_srt, ts_vtt, txt_ar, txt_tr, vtt_ar};

fn seg(t0: i64, t1: i64, tr: &str, ar: &str) -> Seg {
    Seg { t0, t1, tr: tr.to_string(), ar: ar.to_string() }
}

fn two() -> Vec<Seg> {
    vec![seg(0, 1500, "merhaba", "مرحبا"), seg(2000, 3000, "dünya", "عالم")]
}

#[test]
fn srt_stamp_fields() {
    assert_eq!(ts_srt(0), "00:00:00,000");
    assert_eq!(ts_srt(3_723_004), "01:02:03,004");
    assert_eq!(ts_srt(59_999), "00:00:59,999");
    assert_eq!(ts_srt(360_000_000), "100:00:00,000");
}

#[test]
fn vtt_stamp_fields() {
    assert_eq!(ts_vtt(61_001), "00:01:01.001");
    assert_eq!(ts_vtt(3_723_004), "01:02:03.004");
}

#[test]
fn negative_times_are_time_zero() {
    assert_eq!(ts_srt(-5), ts_srt(0));
    assert_eq!(ts_vtt(-1), "00:00:00.000");
    assert_eq!(ts_srt(i64::MIN), "00:00:00,000");
}

#[test]
fn vtt_stamp_is_srt_stamp_with_a_dot() {
    for ms in [0i64, 999, 1_000, 3_723_004, 360_000_123] {
        assert_eq!(ts_vtt(ms), ts_srt(ms).replace(',', "."));
    }
}

#[test]
fn srt_arabic_cues() {
    assert_eq!(
        srt_ar(&two()),
        "1\n00:00:00,000 --> 00:00:01,500\nمرحبا\n\n2\n00:00:02,000 --> 00:00:03,000\nعالم\n\n"
    );
    assert_eq!(srt_ar(&[]), "");
}

#[test]
fn srt_bilingual_cues() {
    assert_eq!(
        srt_bilingual(&two()),
        "1\n00:00:00,000 --> 00:00:01,500\nمرحبا\nmerhaba\n\n2\n00:00:02,000 --> 00:00:03,000\nعالم\ndünya\n\n"
    );
}

#[test]
fn vtt_cues() {
    assert_eq!(
        vtt_ar(&two()),
        "WEBVTT\n\n1\n00:00:00.000 --> 00:00:01.500\nمرحبا\n\n2\n00:00:02.000 --> 00:00:03.000\nعالم\n\n"
    );
    assert_eq!(vtt_ar(&[]), "WEBVTT\n\n");
}

#[test]
fn one_cue_per_line_in_order() {
    let mut segs = two();
    let before = srt_ar(&segs);
    segs.push(seg(4000, 5000, "x", "y"));
    assert_eq!(srt_ar(&segs), before + "3\n00:00:04,000 --> 00:00:05,000\ny\n\n");
}

#[test]
fn plain_text_skips_blank_lines_and_trims() {
    let segs = vec![
        seg(0, 1, "  bir ", "  مرحبا "),
        seg(1, 2, "   ", "\t "),
        seg(2, 3, "iki", "عالم"),
    ];
    assert_eq!(txt_ar(&segs), "مرحبا\nعالم\n");
    assert_eq!(txt_tr(&segs), "bir\niki\n");
    for line in txt_ar(&segs).lines() {
        assert!(!line.is_empty());
        assert_eq!(line.trim(), line);
    }
}

#[test]
fn plain_text_of_nothing_is_a_newline() {
    assert_eq!(txt_ar(&[]), "\n");
    assert_eq!(txt_tr(&[seg(0, 1, " ", " ")]), "\n");
}

#[test]
fn export_names_and_bodies_in_order() {
    let segs = two();
    let files = export_strings(&segs);
    let names: Vec<&str> = files.iter().map(|(n, _)| n.as_str()).collect();
    assert_eq!(names, vec!["ar.srt", "bilingual.srt", "ar.vtt", "ar.txt", "tr.txt"]);
    assert_eq!(files[0].1, srt_ar(&segs));
    assert_eq!(files[1].1, srt_bilingual(&segs));
    assert_eq!(files[2].1, vtt_ar(&segs));
    assert_eq!(files[3].1, txt_ar(&segs));
    assert_eq!(files[4].1, txt_tr(&segs));
}

fn read_back(t: &str) -> i64 {
    let (hms, ms) = t.split_at(t.len() - 4);
    let parts: Vec<i64> = hms.split(':').map(|p| p.parse().unwrap()).collect();
    let mmm: i64 = ms[1..].parse().unwrap();
    assert_eq!(parts.len(), 3);
    assert!(parts[0] >= 0 && parts[1] < 60 && parts[2] < 60);
    parts[0] * 3_600_000 + parts[1] * 60_000 + parts[2] * 1000 + mmm
}

#[test]
fn time_stamps_read_back_to_the_time() {
    for ms in [0i64, 1, 999, 1000, 59_999, 3_723_004, 86_399_999, 360_000_000_123] {
        assert_eq!(read_back(&ts_srt(ms)), ms);
        assert_eq!(read_back(&ts_vtt(ms)), ms);
    }
    assert_eq!(read_back(&ts_srt(-5)), 0);
    assert_eq!(ts_srt(360_000_000_123), "100000:00:00,123");
}

#[test]
fn vtt_is_the_srt_text_with_dots() {
    let segs = vec![seg(0, 1500, "merhaba", "مرحبا"), seg(3_723_004, 3_724_000, "dünya", "عالم")];
    assert_eq!(vtt_ar(&segs), format!("WEBVTT\n\n{}", srt_ar(&segs).replace(',', ".")));
    assert_eq!(vtt_ar(&[]), "WEBVTT\n\n");
}
