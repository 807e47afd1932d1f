use autodesc::desc_options::DescOptions;
use autodesc::json::{Json, JsonNumber};
use autodesc::short_desc::describers::{
    strip_entity_prefix, taxon_query_url, taxon_rank_index, DescriptionPlan, ItemKind,
};
use autodesc::short_desc::word_helpers::{
    clean_spaces, split_link, uc_first, wiki_urlencode, WordHints,
};
use autodesc::short_desc::ShortDescription;

fn to_json(v: &serde_json::Value) -> Json {
    match v {
        serde_json::Value::Null => Json::Null,
        serde_json::Value::Bool(b) => Json::Bool(*b),
        serde_json::Value::Number(n) => {
            if let Some(u) = n.as_u64() {
                Json::Number(JsonNumber::PosInt(u))
            } else if let Some(i) = n.as_i64() {
                Json::Number(JsonNumber::NegInt(i))
            } else {
                Json::Number(JsonNumber::Decimal(n.to_string()))
            }
        }
        serde_json::Value::String(s) => Json::Str(s.clone()),
        serde_json::Value::Array(a) => Json::Array(a.iter().map(to_json).collect()),
        serde_json::Value::Object(o) => {
            Json::Object(o.iter().map(|(k, v)| (k.clone(), to_json(v))).collect())
        }
    }
}

fn parse(text: &str) -> Json {
    to_json(&serde_json::from_str::<serde_json::Value>(text).unwrap())
}

fn strings(v: &[&str]) -> Vec<String> {
    v.iter().map(|s| s.to_string()).collect()
}

#[test]
fn test_stock_loaded() {
    let sd = ShortDescription::new();
    assert_eq!(
        sd.stock.get("produced by").and_then(|m| m.get("de")).map(|s| s.as_str()),
        Some("produziert von")
    );
}

#[test]
fn test_txt() {
    let sd = ShortDescription::new();
    assert_eq!(sd.txt("by", "en"), "by");
    assert_eq!(sd.txt("by", "de"), "von");
    assert_eq!(sd.txt("nonexistent", "en"), "[nonexistent]");
}

#[test]
fn test_list_words() {
    let sd = ShortDescription::new();
    let empty = WordHints::default();
    assert_eq!(sd.list_words(&strings(&["one"]), &empty, "en"), "one");
    assert_eq!(sd.list_words(&strings(&["one", "two"]), &empty, "en"), "one and two");
    assert_eq!(
        sd.list_words(&strings(&["one", "two", "three"]), &empty, "en"),
        "one, two, and three"
    );
    assert_eq!(sd.list_words(&strings(&["one", "two"]), &empty, "de"), "one und two");
}

#[test]
fn test_uc_first() {
    assert_eq!(uc_first("hello"), "Hello");
    assert_eq!(uc_first(""), "");
    assert_eq!(uc_first("Hello"), "Hello");
}

#[test]
fn test_has_pq() {
    let claims = parse(
        r#"{"P31": [{"mainsnak": {"datavalue": {"value": {"numeric-id": 5}}}}]}"#,
    );
    assert!(ShortDescription::has_pq(&claims, 31, 5));
    assert!(!ShortDescription::has_pq(&claims, 31, 42));
    assert!(!ShortDescription::has_pq(&claims, 99, 5));
}

#[test]
fn test_add_items_from_claims_uses_continue_not_return() {
    let claims = parse(
        r#"{"P106": [{}, {"mainsnak": {"datavalue": {"value": {"id": "Q36180"}}}}]}"#,
    );
    let mut items: Vec<(u64, String)> = Vec::new();
    ShortDescription::add_items_from_claims(&claims, 106, &mut items);
    assert_eq!(items.len(), 1);
    assert_eq!(items[0].1, "Q36180");
}

#[test]
fn test_add_items_from_claims_numeric_id_fallback() {
    let claims = parse(
        r#"{"P31": [{"mainsnak": {"datavalue": {"value": {"entity-type": "item", "numeric-id": 5}}}}]}"#,
    );
    let mut items: Vec<(u64, String)> = Vec::new();
    ShortDescription::add_items_from_claims(&claims, 31, &mut items);
    assert_eq!(items.len(), 1);
    assert_eq!(items[0].1, "Q5");
}

#[test]
fn test_add_items_from_claims_no_id_no_numeric_id_skipped() {
    let claims = parse(
        r#"{"P31": [{"mainsnak": {"datavalue": {"value": {"time": "+2020-01-01T00:00:00Z"}}}}]}"#,
    );
    let mut items: Vec<(u64, String)> = Vec::new();
    ShortDescription::add_items_from_claims(&claims, 31, &mut items);
    assert!(items.is_empty(), "Non-item values should not produce entries");
}

#[test]
fn test_clean_spaces() {
    assert_eq!(clean_spaces("hello  world"), "hello world");
    assert_eq!(clean_spaces("foo ,bar"), "foo,bar");
    assert_eq!(clean_spaces("  trim  "), "trim");
}

#[test]
fn test_split_link() {
    let (_, before, inner, after) = ShortDescription::split_link("<a href='test'>Hello</a>");
    assert_eq!(before, "<a href='test'>");
    assert_eq!(inner, "Hello");
    assert_eq!(after, "</a>");

    let (_, before, inner, after) = ShortDescription::split_link("plain text");
    assert_eq!(before, "");
    assert_eq!(inner, "plain text");
    assert_eq!(after, "");

    let (_, before, inner, after) = ShortDescription::split_link("[[Page|Label]]");
    assert_eq!(before, "[[Page|");
    assert_eq!(inner, "Label");
    assert_eq!(after, "]]");
}

#[test]
fn test_wiki_urlencode_spaces() {
    assert_eq!(wiki_urlencode("New York"), "New_York");
}

#[test]
fn test_wiki_urlencode_special_chars() {
    assert_eq!(wiki_urlencode("Côte d'Ivoire"), "C%C3%B4te_d%27Ivoire");
}

#[test]
fn test_wiki_urlencode_no_change() {
    assert_eq!(wiki_urlencode("London"), "London");
}

#[test]
fn test_uc_first_unicode() {
    assert_eq!(uc_first("über"), "Über");
}

#[test]
fn test_uc_first_empty() {
    assert_eq!(uc_first(""), "");
}

#[test]
fn test_split_link_wiki_no_pipe() {
    let (full, before, inner, after) = split_link("[[London]]").unwrap();
    assert_eq!(full, "[[London]]");
    assert_eq!(before, "[[London|");
    assert_eq!(inner, "London");
    assert_eq!(after, "]]");
}

#[test]
fn test_split_link_wiki_with_pipe() {
    let (_, before, inner, after) = split_link("[[London|capital of England]]").unwrap();
    assert_eq!(before, "[[London|");
    assert_eq!(inner, "capital of England");
    assert_eq!(after, "]]");
}

#[test]
fn test_split_link_html() {
    let (_, before, inner, after) =
        split_link("<a href='https://example.com'>Example</a>").unwrap();
    assert_eq!(before, "<a href='https://example.com'>");
    assert_eq!(inner, "Example");
    assert_eq!(after, "</a>");
}

#[test]
fn test_split_link_plain_text() {
    assert!(split_link("plain text").is_none());
    assert!(split_link("").is_none());
}

#[test]
fn test_clean_spaces_multiple() {
    assert_eq!(clean_spaces("a   b"), "a b");
}

#[test]
fn test_clean_spaces_space_comma() {
    assert_eq!(clean_spaces("a ,b"), "a,b");
}

#[test]
fn test_clean_spaces_trim() {
    assert_eq!(clean_spaces("  hello  "), "hello");
}

#[test]
fn test_modify_word_fr_acteur() {
    let sd = ShortDescription::new();
    let female = WordHints { is_female: true, ..Default::default() };
    assert_eq!(sd.modify_word("acteur", &female, "fr"), "actrice");
    assert_eq!(sd.modify_word("Acteur", &female, "fr"), "actrice");
}

#[test]
fn test_modify_word_fr_etre_humain() {
    let sd = ShortDescription::new();
    let female = WordHints { is_female: true, ..Default::default() };
    assert_eq!(sd.modify_word("être humain", &female, "fr"), "personne");
}

#[test]
fn test_modify_word_fr_male_unchanged() {
    let sd = ShortDescription::new();
    let male = WordHints { is_male: true, ..Default::default() };
    assert_eq!(sd.modify_word("acteur", &male, "fr"), "acteur");
}

#[test]
fn test_modify_word_de_female_occupation() {
    let sd = ShortDescription::new();
    let female_occ = WordHints { is_female: true, occupation: true, ..Default::default() };
    assert_eq!(sd.modify_word("Schauspieler", &female_occ, "de"), "Schauspielerin");
}

#[test]
fn test_modify_word_de_female_no_occupation() {
    let sd = ShortDescription::new();
    let female = WordHints { is_female: true, occupation: false, ..Default::default() };
    assert_eq!(sd.modify_word("Schauspieler", &female, "de"), "Schauspieler");
}

#[test]
fn test_modify_word_unknown_lang_unchanged() {
    let sd = ShortDescription::new();
    let female = WordHints { is_female: true, ..Default::default() };
    assert_eq!(sd.modify_word("actor", &female, "zh"), "actor");
}

#[test]
fn test_list_words_empty() {
    let sd = ShortDescription::new();
    let hints = WordHints::default();
    assert_eq!(sd.list_words(&[], &hints, "en"), "");
}

#[test]
fn test_list_words_single() {
    let sd = ShortDescription::new();
    let hints = WordHints::default();
    assert_eq!(sd.list_words(&strings(&["one"]), &hints, "en"), "one");
}

#[test]
fn test_list_words_en_two() {
    let sd = ShortDescription::new();
    let hints = WordHints::default();
    assert_eq!(sd.list_words(&strings(&["a", "b"]), &hints, "en"), "a and b");
}

#[test]
fn test_list_words_en_three_oxford_comma() {
    let sd = ShortDescription::new();
    let hints = WordHints::default();
    assert_eq!(sd.list_words(&strings(&["a", "b", "c"]), &hints, "en"), "a, b, and c");
}

#[test]
fn test_list_words_de() {
    let sd = ShortDescription::new();
    let hints = WordHints::default();
    assert_eq!(sd.list_words(&strings(&["a", "b", "c"]), &hints, "de"), "a, b und c");
}

#[test]
fn test_list_words_fr() {
    let sd = ShortDescription::new();
    let hints = WordHints::default();
    assert_eq!(sd.list_words(&strings(&["a", "b"]), &hints, "fr"), "a et b");
}

#[test]
fn test_list_words_nl() {
    let sd = ShortDescription::new();
    let hints = WordHints::default();
    assert_eq!(sd.list_words(&strings(&["a", "b"]), &hints, "nl"), "a en b");
}

#[test]
fn test_list_words_pl() {
    let sd = ShortDescription::new();
    let hints = WordHints::default();
    assert_eq!(sd.list_words(&strings(&["a", "b"]), &hints, "pl"), "a i b");
}

#[test]
fn test_list_words_vi_oxford_comma() {
    let sd = ShortDescription::new();
    let hints = WordHints::default();
    assert_eq!(sd.list_words(&strings(&["a", "b", "c"]), &hints, "vi"), "a, b, và c");
}

#[test]
fn test_list_words_es() {
    let sd = ShortDescription::new();
    let hints = WordHints::default();
    assert_eq!(sd.list_words(&strings(&["a", "b"]), &hints, "es"), "a y b");
}

#[test]
fn test_list_words_unknown_lang_comma_separated() {
    let sd = ShortDescription::new();
    let hints = WordHints::default();
    assert_eq!(sd.list_words(&strings(&["a", "b", "c"]), &hints, "zh"), "a, b, c");
}

#[test]
fn test_modify_word_en_actor_actress_female() {
    let sd = ShortDescription::new();
    let female = WordHints { is_female: true, ..Default::default() };
    assert_eq!(sd.modify_word("actor / actress", &female, "en"), "actress");
}

#[test]
fn test_modify_word_en_actor_actress_male() {
    let sd = ShortDescription::new();
    let male = WordHints { is_male: true, ..Default::default() };
    assert_eq!(sd.modify_word("actor / actress", &male, "en"), "actor");
}

#[test]
fn txt_falls_back_to_english() {
    let sd = ShortDescription::new();
    assert_eq!(sd.txt("by", "xx"), "by");
    assert_eq!(sd.txt("BC", "en"), " BC");
}

#[test]
fn cannot_describe_text() {
    let sd = ShortDescription::new();
    assert_eq!(sd.cannot_describe("en"), "<i>Cannot auto-describe</i>");
}

#[test]
fn person_taxon_disambig_classification() {
    let person = parse(r#"{"P31": [{"mainsnak": {"datavalue": {"value": {"numeric-id": 5}}}}]}"#);
    let taxon = parse(r#"{"P105": [{"mainsnak": {"datavalue": {"value": {"id": "Q7432"}}}}]}"#);
    let disambig =
        parse(r#"{"P107": [{"mainsnak": {"datavalue": {"value": {"numeric-id": 11651459}}}}]}"#);
    let plain = parse(r#"{}"#);
    assert_eq!(ShortDescription::classify(&person), ItemKind::Person);
    assert_eq!(ShortDescription::classify(&taxon), ItemKind::Taxon);
    assert_eq!(ShortDescription::classify(&disambig), ItemKind::Disambiguation);
    assert_eq!(ShortDescription::classify(&plain), ItemKind::Generic);
    assert!(ShortDescription::is_person(&person));
    assert!(!ShortDescription::is_person(&plain));
}

#[test]
fn long_mode_plan_falls_back_to_short_for_unsupported_language() {
    let person = parse(r#"{"P31": [{"mainsnak": {"datavalue": {"value": {"numeric-id": 5}}}}]}"#);
    let mut opt = DescOptions::default();
    opt.mode = "long".to_string();
    opt.lang = "en".to_string();
    assert_eq!(ShortDescription::plan_description(&person, &opt), DescriptionPlan::Long);
    opt.lang = "es".to_string();
    assert_eq!(
        ShortDescription::plan_description(&person, &opt),
        DescriptionPlan::Short(ItemKind::Person)
    );
    opt.mode = "short".to_string();
    opt.lang = "en".to_string();
    assert_eq!(
        ShortDescription::plan_description(&person, &opt),
        DescriptionPlan::Short(ItemKind::Person)
    );
}

fn entities_answer(entities: &str) -> Json {
    parse(&format!(r#"{{"entities": {entities}}}"#))
}

fn person_world() -> autodesc::wikidata::WikiData {
    let mut wd = autodesc::wikidata::WikiData::new();
    wd.absorb_entities(entities_answer(
        r#"{
        "Q36180": {"id": "Q36180", "labels": {"en": {"value": "writer"}}, "sitelinks": {"enwiki": {"title": "Writer"}}},
        "Q145": {"id": "Q145", "labels": {"en": {"value": "United Kingdom"}},
                 "claims": {"P1549": [{"mainsnak": {"datavalue": {"type": "monolingualtext", "value": {"text": "British", "language": "en"}}}}]}},
        "Q5": {"id": "Q5", "labels": {"en": {"value": "human"}}},
        "P106": {"id": "P106", "labels": {"en": {"value": "occupation"}}},
        "P27": {"id": "P27", "labels": {"en": {"value": "country of citizenship"}}},
        "P31": {"id": "P31", "labels": {"en": {"value": "instance of"}}}
    }"#,
    ));
    wd
}

const ADAMS: &str = r#"{
    "P31": [{"mainsnak": {"datavalue": {"value": {"entity-type": "item", "id": "Q5", "numeric-id": 5}}}}],
    "P21": [{"mainsnak": {"datavalue": {"value": {"entity-type": "item", "id": "Q6581097", "numeric-id": 6581097}}}}],
    "P27": [{"mainsnak": {"datavalue": {"value": {"entity-type": "item", "id": "Q145"}}}}],
    "P106": [{"mainsnak": {"datavalue": {"value": {"entity-type": "item", "id": "Q36180"}}}}],
    "P569": [{"mainsnak": {"datavalue": {"value": {"time": "+1952-03-11T00:00:00Z"}}}}],
    "P570": [{"mainsnak": {"datavalue": {"value": {"time": "+2001-05-11T00:00:00Z"}}}}]
}"#;

#[test]
fn describe_person_from_loaded_labels() {
    let sd = ShortDescription::new();
    let wd = person_world();
    let claims = parse(ADAMS);
    let mut opt = DescOptions::default();
    opt.links = "text".to_string();
    let (q, desc) = sd.describe_person("Q42", &claims, &opt, &wd);
    assert_eq!(q, "Q42");
    assert!(desc.contains("1952"), "birth year: {desc}");
    assert!(desc.contains("2001"), "death year: {desc}");
    assert!(desc.contains("writer"), "occupation: {desc}");
    assert!(desc.contains('♂'), "male symbol: {desc}");
}

#[test]
fn describe_person_with_wikidata_links() {
    let sd = ShortDescription::new();
    let wd = person_world();
    let claims = parse(ADAMS);
    let mut opt = DescOptions::default();
    opt.links = "wikidata".to_string();
    let (_, desc) = sd.describe_person("Q42", &claims, &opt, &wd);
    assert!(desc.contains("wikidata.org"), "wikidata links: {desc}");
    assert!(desc.contains("<a href="), "anchors: {desc}");
}

#[test]
fn describe_generic_item_from_loaded_labels() {
    let sd = ShortDescription::new();
    let mut wd = autodesc::wikidata::WikiData::new();
    wd.absorb_entities(entities_answer(
        r#"{
        "Q515": {"id": "Q515", "labels": {"en": {"value": "city"}}},
        "Q145": {"id": "Q145", "labels": {"en": {"value": "United Kingdom"}}},
        "P31": {"id": "P31", "labels": {"en": {"value": "instance of"}}},
        "P17": {"id": "P17", "labels": {"en": {"value": "country"}}},
        "P1082": {"id": "P1082", "labels": {"en": {"value": "population"}}}
    }"#,
    ));
    let claims = parse(
        r#"{
        "P31": [{"mainsnak": {"datavalue": {"value": {"entity-type": "item", "id": "Q515"}}}}],
        "P17": [{"mainsnak": {"datavalue": {"value": {"entity-type": "item", "id": "Q145"}}}}]
    }"#,
    );
    let mut opt = DescOptions::default();
    opt.links = "text".to_string();
    let (q, desc) = sd.describe_generic("Q84", &claims, &opt, &wd, Some("8.9M"));
    assert_eq!(q, "Q84");
    assert_eq!(desc, "City in United Kingdom, population 8.9M");
    assert!(!desc.contains("Cannot auto-describe"), "{desc}");
}

#[test]
fn taxon_query_and_plan() {
    let url = taxon_query_url("Q4504", "en");
    assert!(url.starts_with("https://query.wikidata.org/bigdata/namespace/wdq/sparql?format=json&query=SELECT"));
    assert!(url.contains("wd%3AQ4504"));
    assert_eq!(strip_entity_prefix("http://www.wikidata.org/entity/Q7432"), "Q7432");
    assert_eq!(taxon_rank_index("Q7432"), Some(2));
    assert_eq!(taxon_rank_index("Q36732"), Some(8));
    assert_eq!(taxon_rank_index("Q1"), None);
}

#[test]
fn describe_person_matches_documented_example() {
    let sd = ShortDescription::new();
    let mut wd = autodesc::wikidata::WikiData::new();
    wd.absorb_entities(entities_answer(
        r#"{
        "Q6625963": {"id": "Q6625963", "labels": {"en": {"value": "novelist"}}},
        "Q28389": {"id": "Q28389", "labels": {"en": {"value": "screenwriter"}}},
        "Q145": {"id": "Q145", "labels": {"en": {"value": "United Kingdom"}},
                 "claims": {"P1549": [{"mainsnak": {"datavalue": {"type": "monolingualtext", "value": {"text": "British", "language": "en"}}}}]}},
        "Q5": {"id": "Q5", "labels": {"en": {"value": "human"}}}
    }"#,
    ));
    let claims = parse(
        r#"{
        "P31": [{"mainsnak": {"datavalue": {"value": {"entity-type": "item", "id": "Q5", "numeric-id": 5}}}}],
        "P21": [{"mainsnak": {"datavalue": {"value": {"entity-type": "item", "id": "Q6581097", "numeric-id": 6581097}}}}],
        "P27": [{"mainsnak": {"datavalue": {"value": {"entity-type": "item", "id": "Q145"}}}}],
        "P106": [
            {"mainsnak": {"datavalue": {"value": {"entity-type": "item", "id": "Q6625963"}}}},
            {"mainsnak": {"datavalue": {"value": {"entity-type": "item", "id": "Q28389"}}}}
        ],
        "P569": [{"mainsnak": {"datavalue": {"value": {"time": "+1952-03-11T00:00:00Z"}}}}],
        "P570": [{"mainsnak": {"datavalue": {"value": {"time": "+2001-05-11T00:00:00Z"}}}}]
    }"#,
    );
    let mut opt = DescOptions::default();
    opt.links = "text".to_string();
    let (_, desc) = sd.describe_person("Q42", &claims, &opt, &wd);
    assert_eq!(desc, "♂ British novelist, screenwriter (1952–2001)");
}

#[test]
fn clean_spaces_result_is_clean() {
    for s in ["  a  ,  b , ,c   ", " , x", "a\t ,b", "", "   "] {
        let once = clean_spaces(s);
        assert!(!once.contains("  "), "{once:?}");
        assert!(!once.contains(" ,"), "{once:?}");
        assert_eq!(once.trim(), once);
        assert_eq!(clean_spaces(&once), once);
    }
}

#[test]
fn label_items_groups_labels_by_property() {
    let sd = ShortDescription::new();
    let wd = person_world();
    let mut opt = DescOptions::default();
    opt.lang = "en".to_string();
    opt.links = "text".to_string();
    let items = vec![
        (31u64, "Q5".to_string()),
        (106u64, "Q36180".to_string()),
        (27u64, "Q145".to_string()),
        (106u64, "Q36180".to_string()),
        (106u64, "Q999".to_string()),
    ];
    let labels = sd.label_items(&items, &opt, &wd);
    assert!(labels.get(31).is_none());
    assert_eq!(labels.get(106), Some(&vec!["writer".to_string()]));
    assert_eq!(labels.get(27), Some(&vec!["United Kingdom".to_string()]));
    assert!(labels.get(569).is_none());
}
