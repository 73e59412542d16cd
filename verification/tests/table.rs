use yara_worker::table::{
    const_data_bytes, module_count, modules, ScanProducer, YaraModules, YaraScan,
    YaraStringMatches,
};

const DEMO: &str = r#"rule demo { strings: $a = "malware" condition: $a }"#;

#[test]
fn modules_are_the_compiled_in_seven_sorted() {
    let m = modules();
    assert_eq!(module_count(), 7);
    let names: Vec<&str> = m.iter().map(|(n, _)| *n).collect();
    assert_eq!(names, vec!["console", "elf", "hash", "math", "pe", "string", "time"]);
    let mut sorted = names.clone();
    sorted.sort();
    assert_eq!(names, sorted);
}

#[test]
fn modules_compile_as_imports() {
    for (name, _) in modules() {
        let src = format!("import \"{name}\" rule r {{ condition: true }}");
        assert!(yara_worker::scanning::rules_compile(&src), "{name}");
    }
}

#[test]
fn modules_producer_is_one_shot() {
    let mut p = YaraModules.producer();
    let (names, descriptions) = p.next_batch().unwrap();
    assert_eq!(names.len(), 7);
    assert_eq!(descriptions.len(), 7);
    assert_eq!(names[4], "pe");
    assert!(p.next_batch().is_none());
    assert!(p.next_batch().is_none());
}

#[test]
fn const_data_prefers_blob() {
    assert_eq!(const_data_bytes(Some(vec![1]), Some(vec![2])), Some(vec![1]));
    assert_eq!(const_data_bytes(None, Some(vec![2])), Some(vec![2]));
    assert_eq!(const_data_bytes(None, None), None);
}

#[test]
fn scan_table_rows_and_one_shot() {
    let mut p = YaraScan
        .producer(Some(b"has malware".to_vec()), Some(DEMO.to_string()))
        .unwrap();
    let b = p.next_batch().unwrap();
    assert_eq!(b.rule, vec!["demo".to_string()]);
    assert_eq!(b.namespace, vec!["default".to_string()]);
    assert_eq!(b.tags, vec![Vec::<String>::new()]);
    assert!(p.next_batch().is_none());
}

#[test]
fn scan_table_null_arguments_give_no_rows() {
    let mut p = YaraScan.producer(None, Some(DEMO.to_string())).unwrap();
    assert!(p.next_batch().unwrap().rule.is_empty());
    let mut p = YaraScan.producer(Some(b"malware".to_vec()), None).unwrap();
    assert!(p.next_batch().unwrap().rule.is_empty());
    // NULL data with invalid rules still reports the invalid rules.
    assert!(YaraScan.producer(None, Some("rule broken { condition: }".to_string())).is_err());
    // NULL rules never fail.
    assert!(YaraScan.producer(Some(b"x".to_vec()), None).is_ok());
}

#[test]
fn scan_table_invalid_rules_error() {
    let err = YaraScan
        .producer(Some(b"x".to_vec()), Some("rule broken { condition: }".to_string()))
        .err()
        .unwrap();
    assert!(err.0.starts_with("invalid YARA rule: "));
}

#[test]
fn string_matches_table_rows() {
    let mut p = YaraStringMatches
        .producer(Some(b"this file contains malware".to_vec()), Some(DEMO.to_string()))
        .unwrap();
    let b = p.next_batch().unwrap();
    assert_eq!(b.rule, vec!["demo".to_string()]);
    assert_eq!(b.identifier, vec!["$a".to_string()]);
    assert_eq!(b.offset, vec![19i64]);
    assert_eq!(b.matched, vec!["malware".to_string()]);
    assert!(p.next_batch().is_none());
}

#[test]
fn scan_producer_of_given_rows() {
    let mut p = ScanProducer::new(Vec::new());
    let b = p.next_batch().unwrap();
    assert!(b.rule.is_empty() && b.namespace.is_empty() && b.tags.is_empty());
    assert!(p.next_batch().is_none());
}

#[test]
fn table_function_names() {
    assert_eq!(YaraModules.name(), "yara_modules");
    assert_eq!(YaraScan.name(), "yara_scan");
    assert_eq!(YaraStringMatches.name(), "yara_string_matches");
}
