use multiregex::{build_regex, get_matched_items, match_multiregex, FlagArgs, RegexMap};

fn default_flags() -> FlagArgs {
    FlagArgs { multiline: false, case_insensitive: false, unicode: true }
}

fn patterns(ps: &[&str]) -> Vec<String> {
    ps.iter().map(|p| p.to_string()).collect()
}

fn rec_triples(m: &RegexMap, key: &str) -> Vec<(String, i32, i32)> {
    let entry = m
        .matches
        .iter()
        .find(|e| e.regex == key)
        .unwrap_or_else(|| panic!("missing key {key}"));
    entry.lines.iter().map(|r| (r.value.clone(), r.start, r.end)).collect()
}

#[test]
fn two_patterns_scenario() {
    let pats = patterns(&["ab+c", "\\d+"]);
    let m = match_multiregex(&pats, "abbc 123 abc", default_flags()).unwrap();
    assert_eq!(m.matches.len(), 2);
    assert_eq!(
        rec_triples(&m, "ab+c"),
        vec![("abbc".to_string(), 0, 4), ("abc".to_string(), 9, 12)]
    );
    assert_eq!(rec_triples(&m, "\\d+"), vec![("123".to_string(), 5, 8)]);
}

#[test]
fn empty_pattern_list_yields_empty_report() {
    let m = match_multiregex(&[], "any text at all", default_flags()).unwrap();
    assert_eq!(m.matches.len(), 0);
}

#[test]
fn zero_occurrences_keeps_key_with_empty_lines() {
    let pats = patterns(&["z"]);
    let m = match_multiregex(&pats, "no such letter here", default_flags()).unwrap();
    assert_eq!(m.matches.len(), 1);
    assert_eq!(m.matches[0].regex, "z");
    assert!(m.matches[0].lines.is_empty());
}

#[test]
fn case_insensitive_flag_controls_matching() {
    let pats = patterns(&["ABC"]);
    let mut flags = default_flags();
    flags.case_insensitive = true;
    let m = match_multiregex(&pats, "abc", flags).unwrap();
    assert_eq!(rec_triples(&m, "ABC"), vec![("abc".to_string(), 0, 3)]);

    let m2 = match_multiregex(&pats, "abc", default_flags()).unwrap();
    assert!(rec_triples(&m2, "ABC").is_empty());
}

#[test]
fn duplicate_patterns_concatenate_into_one_key() {
    let pats = patterns(&["a", "a"]);
    let m = match_multiregex(&pats, "aba", default_flags()).unwrap();
    assert_eq!(m.matches.len(), 1);
    assert_eq!(
        rec_triples(&m, "a"),
        vec![
            ("a".to_string(), 0, 1),
            ("a".to_string(), 2, 3),
            ("a".to_string(), 0, 1),
            ("a".to_string(), 2, 3),
        ]
    );
}

#[test]
fn capture_groups_follow_their_occurrence() {
    let pats = patterns(&["a(b+)(c)"]);
    let m = match_multiregex(&pats, "xabbc", default_flags()).unwrap();
    assert_eq!(
        rec_triples(&m, "a(b+)(c)"),
        vec![
            ("abbc".to_string(), 1, 5),
            ("bb".to_string(), 2, 4),
            ("c".to_string(), 4, 5),
        ]
    );
}

#[test]
fn non_participating_group_contributes_no_record() {
    let pats = patterns(&["(a)|(b)"]);
    let m = match_multiregex(&pats, "ab", default_flags()).unwrap();
    assert_eq!(
        rec_triples(&m, "(a)|(b)"),
        vec![
            ("a".to_string(), 0, 1),
            ("a".to_string(), 0, 1),
            ("b".to_string(), 1, 2),
            ("b".to_string(), 1, 2),
        ]
    );
}

#[test]
fn empty_text_yields_zero_matches_per_pattern() {
    let pats = patterns(&["a", "b+"]);
    let m = match_multiregex(&pats, "", default_flags()).unwrap();
    assert_eq!(m.matches.len(), 2);
    assert!(m.matches.iter().all(|e| e.lines.is_empty()));
}

#[test]
fn empty_pattern_matches_at_every_position() {
    let pats = patterns(&[""]);
    let m = match_multiregex(&pats, "ab", default_flags()).unwrap();
    assert_eq!(
        rec_triples(&m, ""),
        vec![
            ("".to_string(), 0, 0),
            ("".to_string(), 1, 1),
            ("".to_string(), 2, 2),
        ]
    );
}

#[test]
fn invalid_pattern_fails_the_whole_run() {
    let pats = patterns(&["a", "(", "b"]);
    let err = match_multiregex(&pats, "ab", default_flags()).unwrap_err();
    assert_eq!(err.pattern, "(");
}

#[test]
fn multiline_flag_controls_anchors() {
    let pats = patterns(&["^b"]);
    let mut flags = default_flags();
    flags.multiline = true;
    let m = match_multiregex(&pats, "a\nb", flags).unwrap();
    assert_eq!(rec_triples(&m, "^b"), vec![("b".to_string(), 2, 3)]);

    let m2 = match_multiregex(&pats, "a\nb", default_flags()).unwrap();
    assert!(rec_triples(&m2, "^b").is_empty());
}

#[test]
fn unicode_flag_controls_word_classes() {
    let pats = patterns(&["\\w+"]);
    let m = match_multiregex(&pats, "é", default_flags()).unwrap();
    assert_eq!(rec_triples(&m, "\\w+"), vec![("é".to_string(), 0, 2)]);

    let mut no_uni = default_flags();
    no_uni.unicode = false;
    let m2 = match_multiregex(&pats, "é", no_uni).unwrap();
    assert!(rec_triples(&m2, "\\w+").is_empty());
}

#[test]
fn report_keys_come_in_first_seen_order() {
    let pats = patterns(&["b", "a", "b"]);
    let m = RegexMap::new(&pats);
    let keys: Vec<&str> = m.matches.iter().map(|e| e.regex.as_str()).collect();
    assert_eq!(keys, vec!["b", "a"]);
    assert!(m.matches.iter().all(|e| e.lines.is_empty()));
}

#[test]
fn build_regex_then_extract_directly() {
    let pats = patterns(&["b+"]);
    let flags = default_flags();
    let compiled = build_regex(pats, &flags).unwrap();
    assert_eq!(compiled.len(), 1);
    assert_eq!(compiled[0].pattern, "b+");
    let recs = get_matched_items(&compiled[0], "abba b");
    let triples: Vec<(String, i32, i32)> =
        recs.iter().map(|r| (r.value.clone(), r.start, r.end)).collect();
    assert_eq!(
        triples,
        vec![("bb".to_string(), 1, 3), ("b".to_string(), 5, 6)]
    );
}

#[test]
fn build_regex_reports_first_bad_pattern() {
    let pats = patterns(&["ok", "[", "("]);
    let err = build_regex(pats, &default_flags()).unwrap_err();
    assert_eq!(err.pattern, "[");
}
