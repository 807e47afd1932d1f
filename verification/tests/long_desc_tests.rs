use autodesc::desc_options::DescOptions;
use autodesc::json::{Json, JsonNumber};
use autodesc::long_desc::LongDescGenerator;
use autodesc::long_desc::render::parse_time;
use autodesc::qid::QId;
use autodesc::short_desc::describers::DescriptionPlan;
use autodesc::short_desc::ShortDescription;
use autodesc::wikidata::{WikiData, MAX_GET_ENTITIES};
use autodesc::wikidata_item::WikiDataItem;
use serde_json::Value;

fn to_json(v: &Value) -> Json {
    match v {
        Value::Null => Json::Null,
        Value::Bool(b) => Json::Bool(*b),
        Value::Number(n) => {
            if let Some(u) = n.as_u64() {
                Json::Number(JsonNumber::PosInt(u))
            } else if let Some(i) = n.as_i64() {
                Json::Number(JsonNumber::NegInt(i))
            } else {
                Json::Number(JsonNumber::Decimal(n.to_string()))
            }
        }
        Value::String(s) => Json::Str(s.clone()),
        Value::Array(a) => Json::Array(a.iter().map(to_json).collect()),
        Value::Object(o) => Json::Object(o.iter().map(|(k, v)| (k.clone(), to_json(v))).collect()),
    }
}

fn parse(text: &str) -> Value {
    serde_json::from_str(text).unwrap()
}

fn fake_item(id: &str, label_en: &str) -> Value {
    parse(&format!(
        r#"{{"type": "item", "id": "{id}", "ns": 0,
            "labels": {{"en": {{"language": "en", "value": "{label_en}"}}}},
            "descriptions": {{}}, "claims": {{}}, "sitelinks": {{}}}}"#
    ))
}

fn fake_item_with_sitelink(id: &str, label_en: &str, enwiki_title: &str) -> Value {
    parse(&format!(
        r#"{{"type": "item", "id": "{id}", "ns": 0,
            "labels": {{"en": {{"language": "en", "value": "{label_en}"}}}},
            "descriptions": {{}}, "claims": {{}},
            "sitelinks": {{"enwiki": {{"site": "enwiki", "title": "{enwiki_title}"}}}}}}"#
    ))
}

fn fake_related_entities() -> Value {
    let mut m = serde_json::Map::new();
    m.insert("Q145".into(), fake_item_with_sitelink("Q145", "United Kingdom", "United Kingdom"));
    m.insert("Q36180".into(), fake_item_with_sitelink("Q36180", "writer", "Writer"));
    m.insert("Q84".into(), fake_item_with_sitelink("Q84", "London", "London"));
    m.insert("Q350".into(), fake_item("Q350", "Cambridge"));
    m.insert("Q5".into(), fake_item("Q5", "human"));
    m.insert("Q6581097".into(), fake_item("Q6581097", "male"));
    m.insert("Q6581072".into(), fake_item("Q6581072", "female"));
    Value::Object(m)
}

/// Store the entities of an API answer, as loading them would.
fn absorb(wd: &mut WikiData, entities: Value) {
    let mut answer = serde_json::Map::new();
    answer.insert("entities".into(), entities);
    wd.absorb_entities(to_json(&Value::Object(answer)));
}

fn insert_item(wd: &mut WikiData, id: &str, label_en: &str) {
    wd.insert_item(QId::from_api_key(id), WikiDataItem::new(to_json(&fake_item(id, label_en))));
}

const MALE_WRITER: &str = r#"{
    "P31": [{"mainsnak": {"datavalue": {"value": {"entity-type": "item", "id": "Q5"}}}}],
    "P21": [{"mainsnak": {"datavalue": {"value": {"entity-type": "item", "id": "Q6581097"}}}}],
    "P27": [{"mainsnak": {"datavalue": {"value": {"entity-type": "item", "id": "Q145"}}}}],
    "P106": [{"mainsnak": {"datavalue": {"value": {"entity-type": "item", "id": "Q36180"}}}}],
    "P569": [{"mainsnak": {"datavalue": {"value": {"time": "+1952-03-11T00:00:00Z", "precision": 11}}}}],
    "P19": [{"mainsnak": {"datavalue": {"value": {"entity-type": "item", "id": "Q84"}}}}],
    "P570": [{"mainsnak": {"datavalue": {"value": {"time": "+2001-05-11T00:00:00Z", "precision": 11}}}}],
    "P20": [{"mainsnak": {"datavalue": {"value": {"entity-type": "item", "id": "Q84"}}}}]
}"#;

fn claims_male_writer_deceased() -> Json {
    to_json(&parse(MALE_WRITER))
}

fn claims_female_scientist_alive() -> Json {
    to_json(&parse(
        r#"{
        "P31": [{"mainsnak": {"datavalue": {"value": {"entity-type": "item", "id": "Q5"}}}}],
        "P21": [{"mainsnak": {"datavalue": {"value": {"entity-type": "item", "id": "Q6581072"}}}}],
        "P569": [{"mainsnak": {"datavalue": {"value": {"time": "+1980-06-15T00:00:00Z", "precision": 11}}}}]
    }"#,
    ))
}

fn opts(lang: &str, links: &str) -> DescOptions {
    let mut opt = DescOptions::default();
    opt.lang = lang.to_string();
    opt.links = links.to_string();
    opt
}

fn english_writer(links: &str) -> String {
    let mut wd = WikiData::new();
    insert_item(&mut wd, "Q42", "Douglas Adams");
    absorb(&mut wd, fake_related_entities());
    let sd = ShortDescription::new();
    let claims = claims_male_writer_deceased();
    LongDescGenerator::generate(&sd, "Q42", &claims, &opts("en", links), &wd)
        .expect("Should produce a long description")
}

#[test]
fn test_long_desc_en_male_writer_deceased() {
    let desc = english_writer("text");
    assert!(desc.contains("Douglas Adams"), "Name in output: {desc}");
    assert!(desc.contains("was"), "Past tense for deceased: {desc}");
    assert!(desc.contains("1952"), "Birth year: {desc}");
    assert!(desc.contains("2001"), "Death year: {desc}");
    assert!(desc.contains("writer"), "Occupation: {desc}");
    assert!(desc.contains("London"), "Birth/death place: {desc}");
    assert!(!desc.contains("<a href"), "No HTML links in text mode: {desc}");
}

#[test]
fn test_long_desc_en_female_alive() {
    let mut wd = WikiData::new();
    insert_item(&mut wd, "Q999", "Jane Doe");
    absorb(&mut wd, fake_related_entities());
    let sd = ShortDescription::new();
    let claims = claims_female_scientist_alive();
    let desc = LongDescGenerator::generate(&sd, "Q999", &claims, &opts("en", "text"), &wd).unwrap();
    assert!(!desc.contains("died"), "No death info for living person: {desc}");
    assert!(desc.contains("She was born"), "Female pronoun in birth: {desc}");
    assert!(desc.contains("1980"), "Birth year: {desc}");
}

#[test]
fn test_long_desc_returns_none_for_non_person() {
    let mut wd = WikiData::new();
    insert_item(&mut wd, "Q100", "Some Book");
    let sd = ShortDescription::new();
    let claims = to_json(&parse(
        r#"{"P31": [{"mainsnak": {"datavalue": {"value": {"entity-type": "item", "id": "Q571"}}}}]}"#,
    ));
    let result = LongDescGenerator::generate(&sd, "Q100", &claims, &opts("en", "text"), &wd);
    assert!(result.is_none(), "Non-person should return None");
}

#[test]
fn test_long_desc_returns_none_for_unsupported_lang() {
    let mut wd = WikiData::new();
    insert_item(&mut wd, "Q42", "Someone");
    let sd = ShortDescription::new();
    let claims = claims_male_writer_deceased();
    let result = LongDescGenerator::generate(&sd, "Q42", &claims, &opts("ja", "text"), &wd);
    assert!(result.is_none(), "Unsupported language should return None");
}

fn two_language_item(id: &str, en: &str, lang: &str, other: &str) -> Value {
    parse(&format!(
        r#"{{"type": "item", "id": "{id}", "ns": 0,
            "labels": {{"en": {{"language": "en", "value": "{en}"}}, "{lang}": {{"language": "{lang}", "value": "{other}"}}}},
            "descriptions": {{}}, "claims": {{}}, "sitelinks": {{}}}}"#
    ))
}

fn localized_writer(lang: &str, country: &str, job: &str, city: &str) -> String {
    let mut m = serde_json::Map::new();
    m.insert("Q145".into(), two_language_item("Q145", "United Kingdom", lang, country));
    m.insert("Q36180".into(), two_language_item("Q36180", "writer", lang, job));
    m.insert("Q84".into(), two_language_item("Q84", "London", lang, city));
    let mut wd = WikiData::new();
    wd.insert_item(
        QId::from_api_key("Q42"),
        WikiDataItem::new(to_json(&two_language_item("Q42", "Douglas Adams", lang, "Douglas Adams"))),
    );
    absorb(&mut wd, Value::Object(m));
    let sd = ShortDescription::new();
    let claims = claims_male_writer_deceased();
    LongDescGenerator::generate(&sd, "Q42", &claims, &opts(lang, "text"), &wd)
        .expect("long description")
}

#[test]
fn test_long_desc_nl() {
    let desc = localized_writer("nl", "Verenigd Koninkrijk", "schrijver", "Londen");
    assert!(desc.contains("Douglas Adams"), "Name in output: {desc}");
    assert!(desc.contains("Hij werd geboren"), "Dutch male birth sentence: {desc}");
    assert!(desc.contains("1952"), "Birth year: {desc}");
    assert!(desc.contains("2001"), "Death year: {desc}");
}

#[test]
fn test_long_desc_fr() {
    let desc = localized_writer("fr", "Royaume-Uni", "écrivain", "Londres");
    assert!(desc.contains("Douglas Adams"), "Name in output: {desc}");
    assert!(desc.contains("1952"), "Birth year: {desc}");
    assert!(desc.contains("2001"), "Death year: {desc}");
}

#[test]
fn long_desc_de() {
    let desc = localized_writer("de", "Vereinigtes Königreich", "Schriftsteller", "London");
    assert!(desc.contains("Douglas Adams"), "Name in output: {desc}");
    assert!(desc.contains("1952"), "Birth year: {desc}");
    assert!(desc.contains("2001"), "Death year: {desc}");
}

#[test]
fn test_long_desc_link_mode_wikidata() {
    let desc = english_writer("wikidata");
    assert!(desc.contains("wikidata.org"), "Wikidata links present: {desc}");
    assert!(desc.contains("<a href="), "HTML anchors present: {desc}");
}

#[test]
fn test_long_desc_link_mode_wiki() {
    let desc = english_writer("wiki");
    assert!(desc.contains("'''Douglas Adams'''"), "Bold wiki title: {desc}");
    assert!(desc.contains("[["), "Wikitext links for items with sitelinks: {desc}");
}

#[test]
fn test_long_desc_link_mode_wikipedia() {
    let desc = english_writer("wikipedia");
    assert!(desc.contains("en.wikipedia.org"), "Wikipedia links present: {desc}");
}

#[test]
fn test_long_desc_multiple_occupations() {
    let mut m = serde_json::Map::new();
    m.insert("Q36180".into(), fake_item("Q36180", "writer"));
    m.insert("Q245068".into(), fake_item("Q245068", "comedian"));
    m.insert("Q84".into(), fake_item("Q84", "London"));
    m.insert("Q145".into(), fake_item("Q145", "United Kingdom"));
    let mut wd = WikiData::new();
    insert_item(&mut wd, "Q1", "Test Person");
    absorb(&mut wd, Value::Object(m));
    let claims = to_json(&parse(
        r#"{
        "P31": [{"mainsnak": {"datavalue": {"value": {"entity-type": "item", "id": "Q5"}}}}],
        "P21": [{"mainsnak": {"datavalue": {"value": {"entity-type": "item", "id": "Q6581097"}}}}],
        "P106": [
            {"mainsnak": {"datavalue": {"value": {"entity-type": "item", "id": "Q36180"}}}},
            {"mainsnak": {"datavalue": {"value": {"entity-type": "item", "id": "Q245068"}}}}
        ],
        "P570": [{"mainsnak": {"datavalue": {"value": {"time": "+2000-01-01T00:00:00Z", "precision": 11}}}}]
    }"#,
    ));
    let sd = ShortDescription::new();
    let desc = LongDescGenerator::generate(&sd, "Q1", &claims, &opts("en", "text"), &wd).unwrap();
    assert!(desc.contains("writer"), "First occupation: {desc}");
    assert!(desc.contains("comedian"), "Second occupation: {desc}");
    assert!(desc.contains("and"), "List conjunction: {desc}");
}

#[test]
fn test_long_desc_minimal_person() {
    let mut wd = WikiData::new();
    insert_item(&mut wd, "Q1", "Unknown Person");
    let claims = to_json(&parse(
        r#"{"P31": [{"mainsnak": {"datavalue": {"value": {"entity-type": "item", "id": "Q5"}}}}]}"#,
    ));
    let sd = ShortDescription::new();
    let result = LongDescGenerator::generate(&sd, "Q1", &claims, &opts("en", "text"), &wd);
    assert!(result.is_some(), "Minimal person should still get a description");
}

#[test]
fn test_long_desc_p107_person() {
    let mut wd = WikiData::new();
    insert_item(&mut wd, "Q1", "Some Person");
    let claims = to_json(&parse(
        r#"{"P107": [{"mainsnak": {"datavalue": {"value": {"entity-type": "item", "id": "Q215627"}}}}]}"#,
    ));
    let sd = ShortDescription::new();
    let result = LongDescGenerator::generate(&sd, "Q1", &claims, &opts("en", "text"), &wd);
    assert!(result.is_some(), "P107=Q215627 should produce a long description");
}

#[test]
fn long_desc_items_load_in_one_batch() {
    let claims = claims_male_writer_deceased();
    let ids = LongDescGenerator::get_items_to_load(&claims);
    for id in ["Q145", "Q36180", "Q84"] {
        assert!(ids.contains(&id.to_string()), "{id} is loaded: {ids:?}");
    }
    let wd = WikiData::new();
    let plan = wd.plan_batch(&ids);
    assert!(plan.len() <= MAX_GET_ENTITIES);
    assert_eq!(WikiData::batch_requests(&plan).len(), 1);
}

#[test]
fn long_mode_is_planned_for_people_in_long_languages() {
    let claims = claims_male_writer_deceased();
    let mut opt = opts("en", "text");
    opt.mode = "long".to_string();
    assert_eq!(ShortDescription::plan_description(&claims, &opt), DescriptionPlan::Long);
}

#[test]
fn parse_time_takes_ascii_dates_only() {
    assert_eq!(
        parse_time("+1952-03-11T00:00:00Z"),
        Some((false, "1952".to_string(), 3, 11))
    );
    assert_eq!(
        parse_time("-0044-03-15T00:00:00Z"),
        Some((true, "44".to_string(), 3, 15))
    );
    assert_eq!(parse_time("+١٩٥٢-03-11T00:00:00Z"), None);
    assert_eq!(parse_time("+1952-٠3-11T00:00:00Z"), None);
}
