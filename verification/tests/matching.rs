use killer::matching::{find_spans, scan};

fn chars(s: &str) -> Vec<char> {
    s.chars().collect()
}

#[test]
fn scan_reports_the_groups_of_each_match() {
    let found = scan("(a)(b)?", &chars("xab a")).unwrap();
    assert_eq!(
        found,
        vec![
            vec![Some((1, 3)), Some((1, 2)), Some((2, 3))],
            vec![Some((4, 5)), Some((4, 5)), None],
        ]
    );
}

#[test]
fn scan_counts_in_characters() {
    let found = scan("(ç)ã", &chars("ação e açã")).unwrap();
    assert_eq!(
        found,
        vec![vec![Some((1, 3)), Some((1, 2))], vec![Some((8, 10)), Some((8, 9))]]
    );
    let found = scan("b", &chars("😀😀b日b")).unwrap();
    assert_eq!(found, vec![vec![Some((2, 3))], vec![Some((4, 5))]]);
}

#[test]
fn scan_without_a_match() {
    assert_eq!(scan("z", &chars("abc")), Some(vec![]));
    assert_eq!(scan("z", &chars("")), Some(vec![]));
}

#[test]
fn a_pattern_that_the_engine_refuses() {
    assert_eq!(scan("(", &chars("abc")), None);
    assert_eq!(find_spans("[", &chars("abc")), None);
    assert_eq!(find_spans(r"\w{1000}", &chars("abc")), None);
}

#[test]
fn spans_are_the_whole_matches() {
    assert_eq!(
        find_spans(r"\n\s*\n", &chars("a\n\nb\n  \n\nc")),
        Some(vec![(1, 3), (4, 9)])
    );
    assert_eq!(find_spans("a*", &chars("baaa")), Some(vec![(0, 0), (1, 4)]));
    assert_eq!(find_spans("", &chars("é")), Some(vec![(0, 0), (1, 1)]));
}
