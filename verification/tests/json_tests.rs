use multiregex::{match_multiregex, Args, FlagArgs, RegexMap, ResultObject, SearchResult};

fn default_flags() -> FlagArgs {
    FlagArgs { multiline: false, case_insensitive: false, unicode: true }
}

fn patterns(ps: &[&str]) -> Vec<String> {
    ps.iter().map(|p| p.to_string()).collect()
}

#[test]
fn empty_report_serializes_compact() {
    let m = match_multiregex(&[], "whatever", default_flags()).unwrap();
    assert_eq!(m.to_json(false), "{\"matches\":{}}");
}

#[test]
fn empty_report_serializes_pretty() {
    let m = match_multiregex(&[], "whatever", default_flags()).unwrap();
    assert_eq!(m.to_json(true), "{\n  \"matches\": {}\n}");
}

#[test]
fn matchless_key_serializes_compact() {
    let pats = patterns(&["z"]);
    let m = match_multiregex(&pats, "text without that letter", default_flags()).unwrap();
    assert_eq!(
        m.to_json(false),
        "{\"matches\":{\"z\":{\"regex\":\"z\",\"lines\":[]}}}"
    );
}

#[test]
fn one_match_serializes_with_integer_offsets() {
    let pats = patterns(&["b+"]);
    let m = match_multiregex(&pats, "abba", default_flags()).unwrap();
    assert_eq!(
        m.to_json(false),
        "{\"matches\":{\"b+\":{\"regex\":\"b+\",\"lines\":[{\"value\":\"bb\",\"start\":1,\"end\":3}]}}}"
    );
}

#[test]
fn pretty_layout_is_indented_and_stable() {
    let pats = patterns(&["b+"]);
    let m = match_multiregex(&pats, "abba", default_flags()).unwrap();
    let expected = "{\n  \"matches\": {\n    \"b+\": {\n      \"regex\": \"b+\",\n      \"lines\": [\n        {\n          \"value\": \"bb\",\n          \"start\": 1,\n          \"end\": 3\n        }\n      ]\n    }\n  }\n}";
    assert_eq!(m.to_json(true), expected);
}

#[test]
fn string_values_are_escaped() {
    let entry = ResultObject {
        regex: "\"".to_string(),
        lines: vec![SearchResult { value: "a\"b\\c\n\t".to_string(), start: 0, end: 7 }],
    };
    let m = RegexMap { matches: vec![entry] };
    assert_eq!(
        m.to_json(false),
        "{\"matches\":{\"\\\"\":{\"regex\":\"\\\"\",\"lines\":[{\"value\":\"a\\\"b\\\\c\\n\\t\",\"start\":0,\"end\":7}]}}}"
    );
}

#[test]
fn control_characters_use_unicode_escapes() {
    let entry = ResultObject {
        regex: "k".to_string(),
        lines: vec![SearchResult { value: "\u{1}\u{1f}".to_string(), start: 0, end: 2 }],
    };
    let m = RegexMap { matches: vec![entry] };
    assert_eq!(
        m.to_json(false),
        "{\"matches\":{\"k\":{\"regex\":\"k\",\"lines\":[{\"value\":\"\\u0001\\u001f\",\"start\":0,\"end\":2}]}}}"
    );
}

fn parse(s: &str) -> serde_json::Value {
    serde_json::from_str(s).expect("serializer emitted invalid JSON")
}

#[test]
fn compact_and_pretty_forms_round_trip_equal() {
    let pats = patterns(&["ab+c", "\\d+", "z", "a(b+)(c)"]);
    let m = match_multiregex(&pats, "abbc 123 abc", default_flags()).unwrap();
    let compact = parse(&m.to_json(false));
    let pretty = parse(&m.to_json(true));
    assert_eq!(compact, pretty);

    let matches = compact.get("matches").unwrap().as_object().unwrap();
    assert_eq!(matches.len(), m.matches.len());
    for entry in &m.matches {
        let obj = matches.get(&entry.regex).unwrap();
        assert_eq!(obj.get("regex").unwrap().as_str().unwrap(), entry.regex);
        let lines = obj.get("lines").unwrap().as_array().unwrap();
        assert_eq!(lines.len(), entry.lines.len());
        for (got, want) in lines.iter().zip(entry.lines.iter()) {
            assert_eq!(got.get("value").unwrap().as_str().unwrap(), want.value);
            assert_eq!(got.get("start").unwrap().as_i64().unwrap(), want.start as i64);
            assert_eq!(got.get("end").unwrap().as_i64().unwrap(), want.end as i64);
        }
    }
}

#[test]
fn round_trip_preserves_escaped_values() {
    let entry = ResultObject {
        regex: "a\"b\\c".to_string(),
        lines: vec![
            SearchResult { value: "line\none".to_string(), start: 0, end: 8 },
            SearchResult { value: "tab\tand\u{1}ctl é".to_string(), start: 3, end: 17 },
        ],
    };
    let m = RegexMap { matches: vec![entry] };
    for pretty in [false, true] {
        let parsed = parse(&m.to_json(pretty));
        let obj = parsed.get("matches").unwrap().get("a\"b\\c").unwrap();
        assert_eq!(obj.get("regex").unwrap().as_str().unwrap(), "a\"b\\c");
        let lines = obj.get("lines").unwrap().as_array().unwrap();
        assert_eq!(lines[0].get("value").unwrap().as_str().unwrap(), "line\none");
        assert_eq!(lines[1].get("value").unwrap().as_str().unwrap(), "tab\tand\u{1}ctl é");
        assert_eq!(lines[1].get("start").unwrap().as_i64().unwrap(), 3);
        assert_eq!(lines[1].get("end").unwrap().as_i64().unwrap(), 17);
    }
}

#[test]
fn parse_flags_reads_tokens() {
    let f = Args::parse_flags("i|m");
    assert!(f.case_insensitive);
    assert!(f.multiline);
    assert!(f.unicode);

    let g = Args::parse_flags("u");
    assert!(!g.case_insensitive);
    assert!(!g.multiline);
    assert!(!g.unicode);

    let h = Args::parse_flags("m|u|i");
    assert!(h.case_insensitive);
    assert!(h.multiline);
    assert!(!h.unicode);
}

#[test]
fn flags_valid_accepts_only_flag_tokens() {
    assert!(Args::flags_valid("i"));
    assert!(Args::flags_valid("i|m|u"));
    assert!(!Args::flags_valid(""));
    assert!(!Args::flags_valid("x"));
    assert!(!Args::flags_valid("i|"));
    assert!(!Args::flags_valid("im"));
    assert!(!Args::flags_valid("i|m|"));
}

#[test]
fn default_flag_args_are_all_disabled() {
    let f = FlagArgs::default();
    assert!(!f.multiline);
    assert!(!f.case_insensitive);
    assert!(!f.unicode);
}
