use yara_worker::meta::{keywords_json, object_tags, version};

#[test]
fn keywords_json_trims_and_drops_empty() {
    assert_eq!(keywords_json("a, b"), r#"["a","b"]"#);
    assert_eq!(keywords_json("  yara ,  , malware scan ,"), r#"["yara","malware scan"]"#);
    assert_eq!(keywords_json(""), "[]");
    assert_eq!(keywords_json(" , ,\t"), "[]");
    assert_eq!(keywords_json("single"), r#"["single"]"#);
}

#[test]
fn keywords_json_escapes_quotes_and_backslashes() {
    assert_eq!(keywords_json(r#"say "hi", back\slash"#), r#"["say \"hi\"","back\\slash"]"#);
}

#[test]
fn keywords_json_escapes_control_characters() {
    assert_eq!(keywords_json("x\ny"), r#"["x\ny"]"#);
    assert_eq!(keywords_json("a\tb\rc"), r#"["a\tb\rc"]"#);
    assert_eq!(keywords_json("p\u{8}q\u{c}r"), r#"["p\bq\fr"]"#);
    assert_eq!(keywords_json("a\u{1}b\u{1f}"), r#"["a\u0001b\u001f"]"#);
}

#[test]
fn keywords_json_trims_unicode_white_space() {
    // U+00A0 (no-break space) and U+3000 (ideographic space) are white space.
    assert_eq!(keywords_json("\u{a0}pe\u{3000}, elf"), r#"["pe","elf"]"#);
    // Non-ASCII text inside a keyword is kept as is.
    assert_eq!(keywords_json("résumé"), "[\"résumé\"]");
}

#[test]
fn object_tags_builds_five_tags() {
    let tags = object_tags("Title", "llm prose", "md prose", "a, b", "Scanning");
    assert_eq!(
        tags,
        vec![
            ("vgi.title".to_string(), "Title".to_string()),
            ("vgi.doc_llm".to_string(), "llm prose".to_string()),
            ("vgi.doc_md".to_string(), "md prose".to_string()),
            ("vgi.keywords".to_string(), r#"["a","b"]"#.to_string()),
            ("vgi.category".to_string(), "Scanning".to_string()),
        ]
    );
}

#[test]
fn version_is_the_package_version() {
    assert_eq!(version(), "0.1.0");
}
