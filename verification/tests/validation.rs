use autodesc::validation::{
    validate_format, validate_jsonp_callback, validate_lang, validate_links, validate_mode,
    validate_param_length, validate_qid,
};

#[test]
fn test_validate_qid() {
    assert!(validate_qid("Q42"));
    assert!(validate_qid("42"));
    assert!(validate_qid("q1"));
    assert!(validate_qid("Q1234567890"));
    assert!(!validate_qid(""));
    assert!(!validate_qid("Q"));
    assert!(!validate_qid("foo"));
    assert!(!validate_qid("Q12345678901234567890"));
}

#[test]
fn test_validate_jsonp_callback() {
    assert!(validate_jsonp_callback("myCallback"));
    assert!(validate_jsonp_callback("$foo"));
    assert!(validate_jsonp_callback("_bar"));
    assert!(validate_jsonp_callback("foo.bar.baz"));
    assert!(validate_jsonp_callback("foo[0]"));
    assert!(!validate_jsonp_callback(""));
    assert!(!validate_jsonp_callback("<script>alert(1)</script>"));
    assert!(!validate_jsonp_callback("foo()"));
    assert!(!validate_jsonp_callback("foo;alert(1)"));
}

#[test]
fn test_validate_lang() {
    assert!(validate_lang("en"));
    assert!(validate_lang("de"));
    assert!(validate_lang("any"));
    assert!(validate_lang(""));
    assert!(!validate_lang("__invalid__"));
}

#[test]
fn test_validate_mode() {
    assert!(validate_mode("short"));
    assert!(validate_mode("long"));
    assert!(!validate_mode("__invalid__"));
}

#[test]
fn test_validate_links() {
    assert!(validate_links("text"));
    assert!(validate_links("wikidata"));
    assert!(!validate_links("__invalid__"));
}

#[test]
fn test_validate_format() {
    assert!(validate_format("json"));
    assert!(validate_format("html"));
    assert!(!validate_format("__invalid__"));
}

#[test]
fn validate_param_length_counts_bytes() {
    assert!(validate_param_length(&"a".repeat(512)));
    assert!(!validate_param_length(&"a".repeat(513)));
    // 256 two-byte characters make 512 bytes; one more is too many.
    assert!(validate_param_length(&"é".repeat(256)));
    assert!(!validate_param_length(&"é".repeat(257)));
}

#[test]
fn validate_qid_trims_and_counts_bytes() {
    assert!(validate_qid("  Q42  "));
    assert!(!validate_qid("Q4 2"));
}
