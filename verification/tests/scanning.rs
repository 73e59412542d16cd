use yara_worker::scanning::{
    bounded, compile_and_scan_rules, compile_and_scan_strings, compile_rules, rule_matches_of,
    rule_matches_of_outcome, rules_compile, scan_rules, scan_strings, string_matches_of,
    string_matches_of_outcome, PatternHit, ScannedPattern, ScannedRule, MAX_DATA_LEN,
};

const DEMO: &str = r#"rule demo { strings: $a = "malware" condition: $a }"#;

#[test]
fn demo_rule_matches_data_containing_malware() {
    let m = compile_and_scan_rules(DEMO, b"this is malware data").unwrap();
    assert_eq!(m.len(), 1);
    assert_eq!(m[0].rule, "demo");
    assert_eq!(m[0].namespace, "default");
}

#[test]
fn non_matching_data_yields_no_rules() {
    let m = compile_and_scan_rules(DEMO, b"perfectly clean bytes").unwrap();
    assert!(m.is_empty());
}

#[test]
fn string_match_reports_offset_and_text() {
    let hits = compile_and_scan_strings(DEMO, b"xxmalwarexx").unwrap();
    assert_eq!(hits.len(), 1);
    assert_eq!(hits[0].rule, "demo");
    assert_eq!(hits[0].identifier, "$a");
    assert_eq!(hits[0].offset, 2);
    assert_eq!(hits[0].matched, "malware");
}

#[test]
fn multi_rule_set_matches_each() {
    let src = r#"
        rule alpha : malicious { strings: $a = "evil" condition: $a }
        rule beta  { strings: $b = "worm" condition: $b }
    "#;
    let mut m = compile_and_scan_rules(src, b"evil worm present").unwrap();
    m.sort_by(|a, b| a.rule.cmp(&b.rule));
    assert_eq!(m.len(), 2);
    assert_eq!(m[0].rule, "alpha");
    assert_eq!(m[0].tags, vec!["malicious".to_string()]);
    assert_eq!(m[1].rule, "beta");
    assert!(m[1].tags.is_empty());
}

#[test]
fn rules_compile_true_and_false() {
    assert!(rules_compile(DEMO));
    assert!(rules_compile(r#"rule r { condition: true }"#));
    assert!(!rules_compile("rule broken { condition: }"));
    assert!(!rules_compile("this is not yara at all"));
}

#[test]
fn invalid_rule_source_errors_clearly() {
    let err = compile_rules("rule broken { condition: }").unwrap_err();
    assert!(err.0.contains("invalid YARA rule"));
}

#[test]
fn garbage_empty_and_binary_blobs_do_not_crash() {
    let rules = compile_rules(DEMO).unwrap();
    // Empty.
    assert!(scan_rules(&rules, b"").is_empty());
    assert!(scan_strings(&rules, b"").is_empty());
    // Pure binary / NUL-laden bytes.
    let binary: Vec<u8> = (0u16..512).map(|x| (x & 0xff) as u8).collect();
    assert!(scan_rules(&rules, &binary).is_empty());
    // Random-ish garbage.
    assert!(scan_rules(&rules, b"\x00\xff\x00\xfe\x7f\x80garbage").is_empty());
}

#[test]
fn bad_blob_beside_good_still_matches_the_good() {
    let rules = compile_rules(DEMO).unwrap();
    let hostile: Vec<u8> = (0u32..100_000).map(|x| (x % 256) as u8).collect();
    assert!(scan_rules(&rules, &hostile).is_empty());
    let m = scan_rules(&rules, b"contains malware now");
    assert_eq!(m.len(), 1);
    assert_eq!(m[0].rule, "demo");
}

#[test]
fn binary_pattern_matched_bytes_render_as_hex() {
    let src = r#"rule h { strings: $a = { DE AD BE EF } condition: $a }"#;
    let hits = compile_and_scan_strings(src, b"\xde\xad\xbe\xef tail").unwrap();
    assert_eq!(hits.len(), 1);
    assert_eq!(hits[0].matched, "deadbeef");
    assert_eq!(hits[0].offset, 0);
}

#[test]
fn oversized_data_is_bounded() {
    let big = vec![0u8; MAX_DATA_LEN + 1024];
    assert_eq!(bounded(&big).len(), MAX_DATA_LEN);
    let small = vec![0u8; 10];
    assert_eq!(bounded(&small).len(), 10);
}

#[test]
fn multiple_hits_of_same_pattern() {
    let hits = compile_and_scan_strings(DEMO, b"malware and malware").unwrap();
    assert_eq!(hits.len(), 2);
    assert_eq!(hits[0].offset, 0);
    assert_eq!(hits[1].offset, 12);
}

#[test]
fn demo_rule_matches_and_reports_name() {
    let m = compile_and_scan_rules(DEMO, b"contains malware here").unwrap();
    assert_eq!(m.len(), 1);
    assert_eq!(m[0].rule, "demo");
}

#[test]
fn string_match_offset_is_correct() {
    let hits = compile_and_scan_strings(DEMO, b"0123malware").unwrap();
    assert_eq!(hits.len(), 1);
    assert_eq!(hits[0].offset, 4);
    assert_eq!(hits[0].matched, "malware");
}

#[test]
fn non_matching_data_yields_nothing() {
    assert!(compile_and_scan_rules(DEMO, b"all clean").unwrap().is_empty());
    assert!(compile_and_scan_strings(DEMO, b"all clean").unwrap().is_empty());
}

#[test]
fn multi_rule_set() {
    let src = r#"
        rule a : t1 { strings: $x = "aaa" condition: $x }
        rule b : t2 { strings: $y = "bbb" condition: $y }
    "#;
    let mut m = compile_and_scan_rules(src, b"aaa and bbb").unwrap();
    m.sort_by(|x, y| x.rule.cmp(&y.rule));
    assert_eq!(m.len(), 2);
    assert_eq!(m[0].tags, vec!["t1".to_string()]);
    assert_eq!(m[1].tags, vec!["t2".to_string()]);
}

#[test]
fn check_true_and_false() {
    assert!(rules_compile(DEMO));
    assert!(!rules_compile("rule broken { condition: }"));
}

#[test]
fn invalid_rule_source_errors() {
    assert!(compile_rules("rule broken { condition: }").is_err());
    assert!(compile_rules("not yara at all").is_err());
}

#[test]
fn garbage_empty_binary_blobs_do_not_panic() {
    let rules = compile_rules(DEMO).unwrap();
    assert!(scan_rules(&rules, b"").is_empty());
    assert!(scan_rules(&rules, b"\x00\xff\xfe\x7f garbage").is_empty());
    let binary: Vec<u8> = (0u16..1024).map(|x| (x & 0xff) as u8).collect();
    assert!(scan_rules(&rules, &binary).is_empty());
}

#[test]
fn bad_blob_beside_good_one_stays_alive() {
    let rules = compile_rules(DEMO).unwrap();
    let hostile: Vec<u8> = (0u32..200_000)
        .map(|x| (x.wrapping_mul(2654435761) % 256) as u8)
        .collect();
    assert!(scan_rules(&rules, &hostile).is_empty());
    let m = scan_rules(&rules, b"malware payload");
    assert_eq!(m.len(), 1);
    assert_eq!(m[0].rule, "demo");
}

#[test]
fn tags_and_namespaces_are_reported() {
    let src = r#"rule t : one two { strings: $a = "x" condition: $a }"#;
    let m = compile_and_scan_rules(src, b"x").unwrap();
    assert_eq!(m.len(), 1);
    assert_eq!(m[0].tags, vec!["one".to_string(), "two".to_string()]);
    assert_eq!(m[0].namespace, "default");
}

#[test]
fn compile_error_carries_the_diagnostic() {
    let err = compile_and_scan_strings("rule broken { condition: }", b"x").err().unwrap();
    assert!(err.0.starts_with("invalid YARA rule: "));
    assert!(err.0.len() > "invalid YARA rule: ".len());
}

#[test]
fn matches_beyond_the_bound_are_not_reported() {
    let mut big = vec![0u8; MAX_DATA_LEN];
    big.extend_from_slice(b"malware");
    let rules = compile_rules(DEMO).unwrap();
    assert!(scan_rules(&rules, &big).is_empty());
    assert!(scan_strings(&rules, &big).is_empty());
    // The last match before the cut is found.
    let mut near = vec![0u8; MAX_DATA_LEN - 7];
    near.extend_from_slice(b"malware");
    near.extend_from_slice(b"tail");
    let hits = scan_strings(&rules, &near);
    assert_eq!(hits.len(), 1);
    assert_eq!(hits[0].offset as usize, MAX_DATA_LEN - 7);
}

#[test]
fn string_matches_of_renders_and_flattens() {
    let scan = vec![
        ScannedRule {
            identifier: "r1".to_string(),
            namespace: "ns".to_string(),
            tags: vec!["t".to_string()],
            patterns: vec![
                ScannedPattern {
                    identifier: "$a".to_string(),
                    hits: vec![
                        PatternHit { offset: 3, data: b"abc".to_vec() },
                        PatternHit { offset: 9, data: vec![0xff] },
                    ],
                },
                ScannedPattern { identifier: "$b".to_string(), hits: vec![] },
            ],
        },
        ScannedRule {
            identifier: "r2".to_string(),
            namespace: "default".to_string(),
            tags: vec![],
            patterns: vec![ScannedPattern {
                identifier: "$c".to_string(),
                hits: vec![PatternHit { offset: 0, data: b"q".to_vec() }],
            }],
        },
    ];
    let rm = rule_matches_of(&scan);
    assert_eq!(rm.len(), 2);
    assert_eq!((rm[0].rule.as_str(), rm[0].namespace.as_str()), ("r1", "ns"));
    assert_eq!(rm[0].tags, vec!["t".to_string()]);
    let sm = string_matches_of(&scan);
    let got: Vec<(&str, &str, u64, &str)> = sm
        .iter()
        .map(|m| (m.rule.as_str(), m.identifier.as_str(), m.offset, m.matched.as_str()))
        .collect();
    assert_eq!(got, vec![("r1", "$a", 3, "abc"), ("r1", "$a", 9, "ff"), ("r2", "$c", 0, "q")]);
}

#[test]
fn bounded_keeps_short_data() {
    let data = b"abc";
    assert_eq!(bounded(data), b"abc");
    assert_eq!(bounded(&[]), b"");
}

#[test]
fn include_of_a_missing_or_non_yara_file_fails_to_compile() {
    // An included file is read; one that is not YARA source is a compile error.
    assert!(!rules_compile(r#"include "Cargo.toml" rule r { condition: true }"#));
    assert!(!rules_compile(r#"include "no_such_file.yar""#));
    let err = compile_rules(r#"include "Cargo.toml""#).err().unwrap();
    assert!(err.0.starts_with("invalid YARA rule: "));
}

#[test]
fn compile_diagnostic_is_the_same_each_time() {
    let a = compile_rules("rule broken { condition: }").err().unwrap();
    let b = compile_rules("rule broken { condition: }").err().unwrap();
    assert_eq!(a, b);
}

#[test]
fn failed_scan_outcome_gives_no_rows() {
    assert!(rule_matches_of_outcome(&None).is_empty());
    assert!(string_matches_of_outcome(&None).is_empty());
    let outcome = Some(vec![ScannedRule {
        identifier: "r".to_string(),
        namespace: "default".to_string(),
        tags: vec![],
        patterns: vec![ScannedPattern {
            identifier: "$a".to_string(),
            hits: vec![PatternHit { offset: 1, data: b"ab".to_vec() }],
        }],
    }]);
    assert_eq!(rule_matches_of_outcome(&outcome)[0].rule, "r");
    assert_eq!(string_matches_of_outcome(&outcome)[0].matched, "ab");
}

#[test]
fn hits_show_the_scanned_bytes_in_ascending_order() {
    let src = r#"rule r { strings: $a = "ab" $b = { 00 FF } condition: any of them }"#;
    let data = b"xxab\x00\xffab..\x00\xff";
    let hits = compile_and_scan_strings(src, data).unwrap();
    for h in &hits {
        let o = h.offset as usize;
        let bytes = &data[o..o + 2];
        assert_eq!(h.matched, yara_worker::text::render_matched(bytes));
    }
    let a: Vec<u64> = hits.iter().filter(|h| h.identifier == "$a").map(|h| h.offset).collect();
    let b: Vec<u64> = hits.iter().filter(|h| h.identifier == "$b").map(|h| h.offset).collect();
    assert_eq!(a, vec![2, 6]);
    assert_eq!(b, vec![4, 10]);
}

#[test]
fn hits_of_one_rule_and_one_pattern_stand_together() {
    let src = r#"
        rule alpha { strings: $a = "ab" $b = "cd" condition: any of them }
        rule beta { strings: $c = "ab" condition: $c }
    "#;
    let hits = compile_and_scan_strings(src, b"ab cd ab cd").unwrap();
    assert_eq!(hits.len(), 6);
    let rules: Vec<&str> = hits.iter().map(|h| h.rule.as_str()).collect();
    let first_beta = rules.iter().position(|r| *r == "beta").unwrap();
    let first_alpha = rules.iter().position(|r| *r == "alpha").unwrap();
    // Each rule's hits form one run.
    let runs = rules.windows(2).filter(|w| w[0] != w[1]).count();
    assert_eq!(runs, 1);
    assert!(first_alpha != first_beta);
    let alpha: Vec<(&str, u64)> = hits
        .iter()
        .filter(|h| h.rule == "alpha")
        .map(|h| (h.identifier.as_str(), h.offset))
        .collect();
    assert_eq!(alpha, vec![("$a", 0), ("$a", 6), ("$b", 3), ("$b", 9)]);
}

#[test]
fn the_include_keyword_in_a_comment_reads_no_file() {
    assert!(rules_compile("// include nothing here\nrule r { condition: true }"));
}
