use autodesc::format_type::Format;
use autodesc::lang_type::{Lang, DEFAULT_LANG};
use autodesc::qid::{QId, QIdError};
use std::collections::HashSet;

#[test]
fn parse_valid() {
    assert_eq!(Format::parse("json").unwrap(), Format::Json);
    assert_eq!(Format::parse("jsonfm").unwrap(), Format::JsonFm);
    assert_eq!(Format::parse("html").unwrap(), Format::Html);
}

#[test]
fn format_type_parse_invalid() {
    assert!(Format::parse("xml").is_err());
}

#[test]
fn as_str_roundtrip() {
    for s in &["json", "jsonfm", "html"] {
        assert_eq!(Format::parse(s).unwrap().as_str(), *s);
    }
}

#[test]
fn format_error_message() {
    let e = Format::parse("xml").unwrap_err();
    assert_eq!(e.0, "xml");
    assert_eq!(e.message(), "invalid format: xml. Allowed: json, jsonfm, html");
}

#[test]
fn parse_valid_code() {
    let lang = Lang::parse("en").unwrap();
    assert_eq!(lang.as_str(), "en");
}

#[test]
fn parse_any_returns_default() {
    let lang = Lang::parse("any").unwrap();
    assert_eq!(lang.as_str(), DEFAULT_LANG);
}

#[test]
fn parse_empty_returns_default() {
    let lang = Lang::parse("").unwrap();
    assert_eq!(lang.as_str(), DEFAULT_LANG);
}

#[test]
fn parse_invalid_code() {
    assert!(Lang::parse("__invalid__").is_err());
}

#[test]
fn default_is_en() {
    let lang = Lang::default();
    assert_eq!(lang.as_str(), "en");
}

#[test]
fn lang_type_display() {
    let lang = Lang::parse("de").unwrap();
    assert_eq!(lang.to_string(), "de");
}

#[test]
fn lang_error_message() {
    let e = Lang::parse("__invalid__").unwrap_err();
    assert_eq!(e.message(), "invalid language code: __invalid__");
}

#[test]
fn lang_parse_in_custom_list() {
    let valid = vec!["xx".to_string(), "yy".to_string()];
    assert_eq!(Lang::parse_in("yy", &valid).unwrap().as_str(), "yy");
    assert_eq!(Lang::parse_in("any", &valid).unwrap().as_str(), "en");
    assert!(Lang::parse_in("en", &valid).is_err());
}

#[test]
fn parse_q_prefix() {
    let q = QId::parse("Q42").unwrap();
    assert_eq!(q.as_str(), "Q42");
}

#[test]
fn parse_lowercase_q() {
    let q = QId::parse("q42").unwrap();
    assert_eq!(q.as_str(), "Q42");
}

#[test]
fn parse_digits_only() {
    let q = QId::parse("42").unwrap();
    assert_eq!(q.as_str(), "Q42");
}

#[test]
fn parse_with_whitespace() {
    let q = QId::parse("  Q42  ").unwrap();
    assert_eq!(q.as_str(), "Q42");
}

#[test]
fn parse_empty() {
    assert!(QId::parse("").is_err());
    assert!(QId::parse("   ").is_err());
}

#[test]
fn qid_parse_invalid() {
    assert!(QId::parse("foo").is_err());
    assert!(QId::parse("Q").is_err());
    assert!(QId::parse("Qabc").is_err());
}

#[test]
fn parse_too_long() {
    assert!(QId::parse("Q12345678901234567890").is_err());
}

#[test]
fn from_api_key() {
    let q = QId::from_api_key("Q42");
    assert_eq!(q.as_str(), "Q42");
}

#[test]
fn equality_and_hash() {
    let a = QId::parse("Q42").unwrap();
    let b = QId::parse("42").unwrap();
    assert_eq!(a, b);
    let mut set = HashSet::new();
    set.insert(a);
    assert!(set.contains(&b));
}

#[test]
fn qid_display() {
    let q = QId::parse("q42").unwrap();
    assert_eq!(q.to_string(), "Q42");
}

#[test]
fn qid_error_kinds_and_messages() {
    assert_eq!(QId::parse("  ").unwrap_err(), QIdError::Empty);
    assert_eq!(QId::parse("Q12345678901234567890").unwrap_err(), QIdError::TooLong);
    assert_eq!(QId::parse("Q4a").unwrap_err(), QIdError::InvalidFormat);
    assert_eq!(QIdError::Empty.message(), "Q-id must not be empty");
    assert_eq!(QIdError::TooLong.message(), "Q-id is too long (max 20 characters)");
    assert_eq!(
        QIdError::InvalidFormat.message(),
        "Invalid Q-id format. Expected Q followed by digits, or just digits."
    );
}

#[test]
fn qid_parse_of_parse_is_stable() {
    let q = QId::parse(" q0042 ").unwrap();
    assert_eq!(q.as_str(), "Q0042");
    let again = QId::parse(q.as_str()).unwrap();
    assert_eq!(again, q);
}

#[test]
fn qid_bare_number_of_twenty_digits_is_too_long() {
    assert_eq!(QId::parse("12345678901234567890").unwrap_err(), QIdError::TooLong);
    let q = QId::parse("1234567890123456789").unwrap();
    assert_eq!(q.as_str(), "Q1234567890123456789");
    assert_eq!(QId::parse(q.as_str()).unwrap(), q);
}
