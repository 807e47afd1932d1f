use autodesc::long_desc::is_long_desc_available;
use autodesc::short_desc::word_helpers::WordHints;
use autodesc::short_desc::ShortDescription;

fn strings(v: &[&str]) -> Vec<String> {
    v.iter().map(|s| s.to_string()).collect()
}

#[test]
fn test_stock_translations_completeness() {
    let sd = ShortDescription::new();
    let keys = [
        "BC",
        "by",
        "cannot_describe",
        "child of",
        "disambig",
        "for",
        "found_in",
        "in",
        "location",
        "member of",
        "named after",
        "of",
        "part of",
        "person",
        "produced by",
        "published in",
        "spouse of",
        "until",
        "about",
        "from",
    ];
    for key in keys {
        assert!(sd.stock.contains_key(key), "Stock should contain key '{}'", key);
        let translations = sd.stock.get(key).unwrap();
        assert!(
            translations.contains_key("en"),
            "Key '{}' should have an English translation",
            key
        );
    }
}

#[test]
fn test_list_words_multilingual() {
    let sd = ShortDescription::new();
    let empty = WordHints::default();
    assert_eq!(sd.list_words(&strings(&["un", "deux"]), &empty, "fr"), "un et deux");
    assert_eq!(sd.list_words(&strings(&["een", "twee"]), &empty, "nl"), "een en twee");
    assert_eq!(sd.list_words(&strings(&["jeden", "dwa"]), &empty, "pl"), "jeden i dwa");
    assert_eq!(
        sd.list_words(&strings(&["một", "hai", "ba"]), &empty, "vi"),
        "một, hai, và ba"
    );
    assert_eq!(sd.list_words(&strings(&["a", "b", "c"]), &empty, "xx"), "a, b, c");
}

#[test]
fn test_modify_word_gender() {
    let sd = ShortDescription::new();
    let female_hints = WordHints { is_female: true, ..Default::default() };
    let male_hints = WordHints { is_male: true, ..Default::default() };
    assert_eq!(sd.modify_word("actor", &female_hints, "en"), "actress");
    assert_eq!(sd.modify_word("actor / actress", &female_hints, "en"), "actress");
    assert_eq!(sd.modify_word("actor / actress", &male_hints, "en"), "actor");
    assert_eq!(sd.modify_word("acteur", &female_hints, "fr"), "actrice");
    assert_eq!(sd.modify_word("être humain", &female_hints, "fr"), "personne");
    let de_female = WordHints { is_female: true, occupation: true, ..Default::default() };
    assert_eq!(sd.modify_word("Arzt", &de_female, "de"), "Arztin");
}

#[test]
fn test_is_long_desc_available() {
    assert!(is_long_desc_available("en"));
    assert!(is_long_desc_available("nl"));
    assert!(is_long_desc_available("fr"));
    assert!(is_long_desc_available("de"));
    assert!(!is_long_desc_available("es"));
    assert!(!is_long_desc_available(""));
}
