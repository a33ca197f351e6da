use tarjama::text::{fmt_i64, fmt_u64, join_strings, push_pad_int, trim_str};

#[test]
fn trimming_matches_str_trim() {
    for s in ["  a b  ", "\t\nx", "", "   ", "مرحبا \u{3000}", "\u{a0}y\u{a0}"] {
        assert_eq!(trim_str(s), s.trim());
    }
}

#[test]
fn number_formatting() {
    assert_eq!(fmt_u64(0), "0");
    assert_eq!(fmt_u64(u64::MAX), u64::MAX.to_string());
    assert_eq!(fmt_i64(-42), "-42");
    assert_eq!(fmt_i64(i64::MIN), i64::MIN.to_string());
    let mut s = String::new();
    push_pad_int(&mut s, -5, 3);
    assert_eq!(s, format!("{:03}", -5));
    let mut t = String::new();
    push_pad_int(&mut t, 7, 2);
    assert_eq!(t, "07");
}

#[test]
fn joining() {
    let parts = vec!["a".to_string(), "b".to_string(), "c".to_string()];
    assert_eq!(join_strings(&parts, " | "), "a | b | c");
    assert_eq!(join_strings(&Vec::new(), ", "), "");
}
