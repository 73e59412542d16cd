use yara_worker::scalar::{
    accepts_blob, accepts_text, process_kind, ArgType, Kind, RuleCache, ScalarColumn, YaraCheck,
    YaraFirstRule, YaraMatchCount, YaraMatches, YaraVersion,
};

const DEMO: &str = r#"rule demo { strings: $a = "malware" condition: $a }"#;
const MULTI: &str = r#"
    rule alpha { strings: $a = "evil" condition: $a }
    rule beta  { strings: $b = "worm" condition: $b }
"#;

/// Input rows of a `(data, rules)` scalar; `None` is NULL.
fn rows(input: &[(Option<&[u8]>, Option<&str>)]) -> Vec<(Option<Vec<u8>>, Option<String>)> {
    input
        .iter()
        .map(|(d, r)| (d.map(|b| b.to_vec()), r.map(|s| s.to_string())))
        .collect()
}

fn one(data: Option<&[u8]>, rules: Option<&str>) -> Vec<(Option<Vec<u8>>, Option<String>)> {
    rows(&[(data, rules)])
}

#[test]
fn valid_rules_true_invalid_false() {
    let ok = YaraCheck.process(&vec![Some(
        r#"rule demo { strings: $a = "x" condition: $a }"#.to_string(),
    )]);
    assert_eq!(ok[0], Some(true));
    let bad = YaraCheck.process(&vec![Some("rule broken { condition: }".to_string())]);
    assert_eq!(bad[0], Some(false));
    let garbage = YaraCheck.process(&vec![Some("definitely not yara".to_string())]);
    assert_eq!(garbage[0], Some(false));
}

#[test]
fn null_in_null_out() {
    let out = YaraCheck.process(&vec![None]);
    assert_eq!(out[0], None);
}

#[test]
fn matches_true_false() {
    let hit = YaraMatches.process(&one(Some(b"has malware"), Some(DEMO))).unwrap();
    assert_eq!(hit[0], Some(true));
    let miss = YaraMatches.process(&one(Some(b"clean data"), Some(DEMO))).unwrap();
    assert_eq!(miss[0], Some(false));
}

#[test]
fn first_rule_and_count() {
    let first = YaraFirstRule.process(&one(Some(b"evil worm"), Some(MULTI))).unwrap();
    assert!(first[0].is_some());
    let count = YaraMatchCount.process(&one(Some(b"evil worm"), Some(MULTI))).unwrap();
    assert_eq!(count[0], Some(2));

    let none = YaraFirstRule.process(&one(Some(b"clean"), Some(MULTI))).unwrap();
    assert!(none[0].is_none(), "no match → NULL first rule");
    let zero = YaraMatchCount.process(&one(Some(b"clean"), Some(MULTI))).unwrap();
    assert_eq!(zero[0], Some(0));
}

#[test]
fn null_inputs_yield_null() {
    assert_eq!(YaraMatches.process(&one(None, Some(DEMO))).unwrap()[0], None);
    assert_eq!(YaraMatches.process(&one(Some(b"x"), None)).unwrap()[0], None);
}

#[test]
fn invalid_rules_error() {
    let err = YaraMatches.process(&one(Some(b"x"), Some("rule broken { condition: }")));
    assert!(err.is_err(), "invalid rule source must surface an error");
}

#[test]
fn hostile_blob_beside_good_one_survives() {
    let hostile: Vec<u8> = (0u32..50_000).map(|x| (x % 256) as u8).collect();
    let out = YaraMatches
        .process(&rows(&[
            (Some(&hostile), Some(DEMO)),
            (None, Some(DEMO)),
            (Some(b"contains malware"), Some(DEMO)),
            (Some(b""), Some(DEMO)),
        ]))
        .unwrap();
    assert_eq!(out[0], Some(false), "hostile blob: no match, no crash");
    assert_eq!(out[1], None, "NULL → NULL");
    assert_eq!(out[2], Some(true), "good blob still matches");
    assert_eq!(out[3], Some(false), "empty blob: no match");
}

#[test]
fn binary_and_empty_data_do_not_crash() {
    let binary: Vec<u8> = (0u16..400).map(|x| (x & 0xff) as u8).collect();
    assert!(YaraMatchCount.process(&one(Some(&binary), Some(DEMO))).is_ok());
    assert!(YaraMatchCount.process(&one(Some(b""), Some(DEMO))).is_ok());
}

#[test]
fn scalars_agree_on_the_same_data() {
    let input = rows(&[
        (Some(b"evil worm"), Some(MULTI)),
        (Some(b"evil only"), Some(MULTI)),
        (Some(b"clean"), Some(MULTI)),
    ]);
    let m = YaraMatches.process(&input).unwrap();
    let f = YaraFirstRule.process(&input).unwrap();
    let c = YaraMatchCount.process(&input).unwrap();
    for i in 0..input.len() {
        assert_eq!(m[i] == Some(true), f[i].is_some());
        assert_eq!(m[i] == Some(true), c[i] != Some(0));
    }
    assert_eq!(c, vec![Some(2), Some(1), Some(0)]);
    assert_eq!(f[1], Some("alpha".to_string()));
}

#[test]
fn invalid_rules_on_a_null_data_row_are_not_compiled() {
    // A NULL data row never compiles its rules, so no error.
    let out = YaraMatches
        .process(&rows(&[(None, Some("rule broken { condition: }")), (Some(b"malware"), Some(DEMO))]))
        .unwrap();
    assert_eq!(out, vec![None, Some(true)]);
}

#[test]
fn invalid_rules_error_message() {
    let err = process_kind(Kind::MatchCount, &one(Some(b"x"), Some("this is not yara")))
        .err()
        .unwrap();
    assert!(err.0.starts_with("invalid YARA rule: "));
    assert!(err.0.len() > "invalid YARA rule: ".len());
}

#[test]
fn rule_cache_reuses_and_switches() {
    let mut cache = RuleCache::new();
    assert!(cache.get(&DEMO.to_string()).is_ok());
    assert!(cache.get(&DEMO.to_string()).is_ok());
    assert!(cache.get(&"rule broken { condition: }".to_string()).is_err());
    // The cache still holds the good rules after a failed compile.
    let rules = cache.get(&DEMO.to_string()).unwrap();
    assert_eq!(yara_worker::scanning::scan_rules(rules, b"malware").len(), 1);
    assert!(cache.get(&MULTI.to_string()).is_ok());
}

#[test]
fn process_kind_shapes() {
    match process_kind(Kind::FirstRule, &one(Some(b"malware"), Some(DEMO))).unwrap() {
        ScalarColumn::FirstRule(v) => assert_eq!(v, vec![Some("demo".to_string())]),
        _ => panic!("wrong column kind"),
    }
    match process_kind(Kind::MatchCount, &Vec::new()).unwrap() {
        ScalarColumn::MatchCount(v) => assert!(v.is_empty()),
        _ => panic!("wrong column kind"),
    }
}

#[test]
fn version_column_and_names() {
    assert_eq!(YaraVersion.process(3), vec!["0.1.0"; 3]);
    assert!(YaraVersion.process(0).is_empty());
    assert_eq!(YaraVersion.name(), "yara_version");
    assert_eq!(YaraCheck.name(), "yara_check");
    assert_eq!(YaraMatches.name(), "yara_matches");
    assert_eq!(YaraFirstRule.name(), "yara_first_rule");
    assert_eq!(YaraMatchCount.name(), "yara_match_count");
}

#[test]
fn argument_types() {
    for t in [ArgType::Binary, ArgType::LargeBinary, ArgType::Utf8, ArgType::LargeUtf8] {
        assert!(accepts_blob(t));
    }
    assert!(!accepts_blob(ArgType::Other));
    assert!(accepts_text(ArgType::Utf8) && accepts_text(ArgType::LargeUtf8));
    assert!(!accepts_text(ArgType::Binary) && !accepts_text(ArgType::Other));
}
