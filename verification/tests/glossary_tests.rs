use tarjama::glossary::{apply, parse};

fn pairs(v: &[(&str, &str)]) -> Vec<(String, String)> {
    v.iter().map(|(a, b)| (a.to_string(), b.to_string())).collect()
}

#[test]
fn parse_reads_pairs_and_skips_comments() {
    let text = "# comment\n// another\nmerhaba = مرحبا\n  dünya=عالم  \nbad line\n=x\nk=\n a = b = c \n";
    assert_eq!(
        parse(text),
        pairs(&[("merhaba", "مرحبا"), ("dünya", "عالم"), ("a", "b = c")])
    );
}

#[test]
fn parse_handles_crlf_and_empty_text() {
    assert_eq!(parse("x=y\r\nz = w\r\n"), pairs(&[("x", "y"), ("z", "w")]));
    assert_eq!(parse(""), Vec::<(String, String)>::new());
    assert_eq!(parse("\n\n   \n"), Vec::<(String, String)>::new());
}

#[test]
fn parsed_pairs_are_clean() {
    let text = " a =b\n\tc\t=\td \n#x=y\ne=f=g\n";
    let ps = parse(text);
    assert_eq!(ps.len(), 3);
    for (k, v) in &ps {
        assert!(!k.is_empty() && !v.is_empty());
        assert_eq!(k.trim(), k);
        assert_eq!(v.trim(), v);
        assert!(!k.contains('='));
    }
}

#[test]
fn apply_replaces_every_exact_occurrence() {
    let mut ar = "ahmet geldi ahmet".to_string();
    apply(&mut ar, &pairs(&[("ahmet", "أحمد")]));
    assert_eq!(ar, "أحمد geldi أحمد");
}

#[test]
fn apply_falls_back_to_a_case_insensitive_match() {
    let mut ar = "Ahmet geldi".to_string();
    apply(&mut ar, &pairs(&[("ahmet", "أحمد")]));
    assert_eq!(ar, "أحمد geldi");
}

#[test]
fn apply_case_insensitive_replaces_only_the_first_match() {
    let mut ar = "ANKARA ve ANKARA".to_string();
    apply(&mut ar, &pairs(&[("ankara", "أنقرة")]));
    assert_eq!(ar, "أنقرة ve ANKARA");
}

#[test]
fn apply_runs_pairs_in_order() {
    let mut ar = "a b".to_string();
    apply(&mut ar, &pairs(&[("a", "b"), ("b", "c")]));
    assert_eq!(ar, "c c");
}

#[test]
fn apply_without_pairs_or_match_changes_nothing() {
    let mut ar = "مرحبا".to_string();
    apply(&mut ar, &[]);
    assert_eq!(ar, "مرحبا");
    apply(&mut ar, &pairs(&[("yok", "x")]));
    assert_eq!(ar, "مرحبا");
}

#[test]
fn apply_fallback_replaces_the_span_that_matched() {
    let mut ar = "\u{130}a".to_string();
    apply(&mut ar, &pairs(&[("A", "X")]));
    assert_eq!(ar, "\u{130}X");
    let mut ar = "\u{130}ab".to_string();
    apply(&mut ar, &pairs(&[("AB", "X")]));
    assert_eq!(ar, "\u{130}X");
}

#[test]
fn apply_fallback_after_characters_that_grow_when_lower_cased() {
    let mut ar = "\u{130}\u{130}x".to_string();
    apply(&mut ar, &pairs(&[("X", "y")]));
    assert_eq!(ar, "\u{130}\u{130}y");
    let mut ar = "\u{130}x\u{e9}".to_string();
    apply(&mut ar, &pairs(&[("\u{c9}", "X")]));
    assert_eq!(ar, "\u{130}xX");
}

#[test]
fn apply_pairs_one_list_or_two_calls() {
    let p = pairs(&[("AHMET", "أحمد")]);
    let q = pairs(&[("ve", "و")]);
    let mut a = "Ahmet ve ahmet".to_string();
    let mut b = a.clone();
    apply(&mut a, &[p.clone(), q.clone()].concat());
    apply(&mut b, &p);
    apply(&mut b, &q);
    assert_eq!(a, b);
    assert_eq!(a, "أحمد و ahmet");
}

#[test]
fn parse_reads_each_line_on_its_own() {
    let a = "# names\nAhmet = أحمد\nbad line";
    let b = "Ankara=أنقرة\n\n// x=y\nİstanbul = إسطنبول";
    let joined = parse(&format!("{a}\n{b}"));
    assert_eq!(joined, [parse(a), parse(b)].concat());
    assert_eq!(joined.len(), 3);
    assert_eq!(parse(""), Vec::<(String, String)>::new());
}
