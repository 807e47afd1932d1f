use autodesc::json::{Json, JsonNumber};
use autodesc::qid::QId;
use autodesc::str_map::StrMap;
use autodesc::wikidata::{WikiData, MAX_GET_ENTITIES};
use autodesc::wikidata_item::{sanitize_q, unified_id, WikiDataItem};

fn to_json(v: &serde_json::Value) -> Json {
    match v {
        serde_json::Value::Null => Json::Null,
        serde_json::Value::Bool(b) => Json::Bool(*b),
        serde_json::Value::Number(n) => {
            if let Some(u) = n.as_u64() {
                Json::Number(JsonNumber::PosInt(u))
            } else if let Some(i) = n.as_i64() {
                Json::Number(JsonNumber::NegInt(i))
            } else {
                Json::Number(JsonNumber::Decimal(n.to_string()))
            }
        }
        serde_json::Value::String(s) => Json::Str(s.clone()),
        serde_json::Value::Array(a) => Json::Array(a.iter().map(to_json).collect()),
        serde_json::Value::Object(o) => {
            Json::Object(o.iter().map(|(k, v)| (k.clone(), to_json(v))).collect())
        }
    }
}

fn parse(text: &str) -> Json {
    to_json(&serde_json::from_str::<serde_json::Value>(text).unwrap())
}

fn bc_stock() -> StrMap<StrMap<String>> {
    let mut bc_map: StrMap<String> = StrMap::new();
    bc_map.insert("en".to_string(), " BC".to_string());
    let mut stock: StrMap<StrMap<String>> = StrMap::new();
    stock.insert("BC".to_string(), bc_map);
    stock
}

#[test]
fn test_get_year_bc() {
    let stock = bc_stock();
    let claims = parse(
        r#"{"P569": [{"mainsnak": {"datavalue": {"value": {"time": "-00000384-00-00T00:00:00Z"}}}}]}"#,
    );
    let year = WikiData::get_year(&claims, 569, "en", &stock);
    assert_eq!(year, "384 BC");
}

#[test]
fn test_get_year_ad() {
    let stock: StrMap<StrMap<String>> = StrMap::new();
    let claims = parse(
        r#"{"P569": [{"mainsnak": {"datavalue": {"value": {"time": "+1952-03-11T00:00:00Z"}}}}]}"#,
    );
    let year = WikiData::get_year(&claims, 569, "en", &stock);
    assert_eq!(year, "1952");
}

#[test]
fn test_get_year_missing_prop() {
    let stock: StrMap<StrMap<String>> = StrMap::new();
    let claims = parse("{}");
    let year = WikiData::get_year(&claims, 569, "en", &stock);
    assert_eq!(year, "");
}

#[test]
fn test_get_year_bc_fallback_to_en() {
    let stock = bc_stock();
    let claims = parse(
        r#"{"P569": [{"mainsnak": {"datavalue": {"value": {"time": "-00000100-00-00T00:00:00Z"}}}}]}"#,
    );
    let year = WikiData::get_year(&claims, 569, "fr", &stock);
    assert_eq!(year, "100 BC");
}

#[test]
fn get_year_strips_leading_zeros() {
    let stock: StrMap<StrMap<String>> = StrMap::new();
    let claims = parse(
        r#"{"P569": [{"mainsnak": {"datavalue": {"value": {"time": "+00000000800-01-01T00:00:00Z"}}}}]}"#,
    );
    assert_eq!(WikiData::get_year(&claims, 569, "en", &stock), "800");
}

#[test]
fn test_sanitize_q() {
    assert_eq!(sanitize_q("12345"), "Q12345");
    assert_eq!(sanitize_q("Q42"), "Q42");
    assert_eq!(sanitize_q("q42"), "Q42");
    assert_eq!(sanitize_q("  Q42  "), "Q42");
}

#[test]
fn test_unified_id() {
    assert_eq!(unified_id("p31"), "P31");
    assert_eq!(unified_id("Q 42"), "Q42");
}

#[test]
fn test_placeholder() {
    let item = WikiDataItem::placeholder();
    assert!(item.is_placeholder());
    assert_eq!(item.get_id(), "");
    assert_eq!(item.get_label(None), "");
    assert_eq!(item.get_label(Some("en")), "");
    assert_eq!(item.get_desc(Some("en")), "");
    assert!(!item.has_claims("P31"));
    assert!(item.get_claim_items_for_property("P31").is_empty());
    assert!(item.get_strings_for_property("P18").is_empty());
    assert!(item.get_wiki_links().is_empty());
}

#[test]
fn test_new_with_null_is_placeholder() {
    let item = WikiDataItem::new(Json::Null);
    assert!(item.is_placeholder());
}

#[test]
fn test_get_label_specific_language() {
    let item = WikiDataItem::new(parse(
        r#"{"id": "Q42", "ns": 0, "labels": {"en": {"value": "Douglas Adams"}, "de": {"value": "Douglas Adams (de)"}}}"#,
    ));
    assert_eq!(item.get_label(Some("en")), "Douglas Adams");
    assert_eq!(item.get_label(Some("de")), "Douglas Adams (de)");
    assert_eq!(item.get_label(Some("xx")), "Q42");
}

#[test]
fn test_get_label_fallback_to_mul() {
    let item = WikiDataItem::new(parse(
        r#"{"id": "Q42", "ns": 0, "labels": {"mul": {"value": "Mul Label"}}}"#,
    ));
    assert_eq!(item.get_label(Some("fr")), "Mul Label");
    assert_eq!(item.get_label(None), "Mul Label");
}

#[test]
fn test_get_label_fallback_to_main_language() {
    let item = WikiDataItem::new(parse(
        r#"{"id": "Q42", "ns": 0, "labels": {"de": {"value": "Deutsch Label"}}}"#,
    ));
    assert_eq!(item.get_label(None), "Deutsch Label");
}

#[test]
fn test_get_label_fallback_any_language() {
    let item = WikiDataItem::new(parse(
        r#"{"id": "Q999", "ns": 0, "labels": {"sw": {"value": "Swahili Label"}}}"#,
    ));
    assert_eq!(item.get_label(None), "Swahili Label");
}

#[test]
fn test_get_desc() {
    let item = WikiDataItem::new(parse(
        r#"{"id": "Q42", "descriptions": {"en": {"value": "English author"}, "de": {"value": "Englischer Autor"}}}"#,
    ));
    assert_eq!(item.get_desc(Some("en")), "English author");
    assert_eq!(item.get_desc(Some("de")), "Englischer Autor");
    assert_eq!(item.get_desc(Some("xx")), "");
    assert_eq!(item.get_desc(None), "English author");
}

#[test]
fn test_get_claims_for_property() {
    let item = WikiDataItem::new(parse(
        r#"{"claims": {"P31": [{"mainsnak": {"datavalue": {"value": {"entity-type": "item", "id": "Q5"}}}}]}}"#,
    ));
    let claims = item.get_claims_for_property("P31");
    assert_eq!(claims.len(), 1);
    let claims_lower = item.get_claims_for_property("p31");
    assert_eq!(claims_lower.len(), 1);
}

#[test]
fn test_has_claims() {
    let item = WikiDataItem::new(parse(r#"{"claims": {"P31": [{}]}}"#));
    assert!(item.has_claims("P31"));
    assert!(!item.has_claims("P21"));
}

#[test]
fn test_get_claim_target_item_id_with_id_field() {
    let claim = parse(r#"{"mainsnak": {"datavalue": {"value": {"entity-type": "item", "id": "Q42"}}}}"#);
    assert_eq!(WikiDataItem::get_claim_target_item_id(&claim), Some("Q42".to_string()));
}

#[test]
fn test_get_claim_target_item_id_with_numeric_id() {
    let claim = parse(
        r#"{"mainsnak": {"datavalue": {"value": {"entity-type": "item", "numeric-id": 42}}}}"#,
    );
    assert_eq!(WikiDataItem::get_claim_target_item_id(&claim), Some("Q42".to_string()));
}

#[test]
fn test_get_claim_target_item_id_wrong_entity_type() {
    let claim = parse(
        r#"{"mainsnak": {"datavalue": {"value": {"entity-type": "property", "id": "P31"}}}}"#,
    );
    assert_eq!(WikiDataItem::get_claim_target_item_id(&claim), None);
}

#[test]
fn test_get_claim_target_string() {
    let claim = parse(r#"{"mainsnak": {"datavalue": {"type": "string", "value": "hello"}}}"#);
    assert_eq!(WikiDataItem::get_claim_target_string(&claim), Some("hello".to_string()));
}

#[test]
fn test_get_claim_target_string_wrong_type() {
    let claim = parse(
        r#"{"mainsnak": {"datavalue": {"type": "wikibase-entityid", "value": {"entity-type": "item", "id": "Q42"}}}}"#,
    );
    assert_eq!(WikiDataItem::get_claim_target_string(&claim), None);
}

#[test]
fn test_get_claim_date() {
    let claim = parse(
        r#"{"mainsnak": {"datavalue": {"type": "time", "value": {"time": "+1952-03-11T00:00:00Z", "precision": 11}}}}"#,
    );
    let date = WikiDataItem::get_claim_date(&claim);
    assert!(date.is_some());
    let d = date.unwrap();
    assert_eq!(d.get("time").and_then(|t| t.as_str()), Some("+1952-03-11T00:00:00Z"));
}

#[test]
fn test_has_claim_item_link() {
    let item = WikiDataItem::new(parse(
        r#"{"claims": {"P31": [{"mainsnak": {"datavalue": {"value": {"entity-type": "item", "id": "Q5"}}}}]}}"#,
    ));
    assert!(item.has_claim_item_link("P31", "Q5"));
    assert!(!item.has_claim_item_link("P31", "Q42"));
    assert!(!item.has_claim_item_link("P21", "Q5"));
}

#[test]
fn test_get_claim_items_for_property() {
    let item = WikiDataItem::new(parse(
        r#"{"claims": {"P31": [
            {"mainsnak": {"datavalue": {"value": {"entity-type": "item", "id": "Q5"}}}},
            {"mainsnak": {"datavalue": {"value": {"entity-type": "item", "id": "Q6256"}}}}
        ]}}"#,
    ));
    let ids = item.get_claim_items_for_property("P31");
    assert_eq!(ids.len(), 2);
    assert!(ids.contains(&"Q5".to_string()));
    assert!(ids.contains(&"Q6256".to_string()));
}

#[test]
fn test_get_gendered_label() {
    let item = WikiDataItem::new(parse(
        r#"{"claims": {
            "P2521": [{"mainsnak": {"datavalue": {"type": "monolingualtext", "value": {"text": "escritora", "language": "es"}}}}],
            "P3321": [{"mainsnak": {"datavalue": {"type": "monolingualtext", "value": {"text": "escritor", "language": "es"}}}}]
        }}"#,
    ));
    assert_eq!(item.get_gendered_label("es", true), Some("escritora".to_string()));
    assert_eq!(item.get_gendered_label("es", false), Some("escritor".to_string()));
    assert_eq!(item.get_gendered_label("fr", true), None);
}

#[test]
fn test_get_demonym() {
    let item = WikiDataItem::new(parse(
        r#"{"claims": {"P1549": [
            {"mainsnak": {"datavalue": {"type": "monolingualtext", "value": {"text": "British", "language": "en"}}}},
            {"mainsnak": {"datavalue": {"type": "monolingualtext", "value": {"text": "Britannique", "language": "fr"}}}}
        ]}}"#,
    ));
    assert_eq!(item.get_demonym("en"), Some("British".to_string()));
    assert_eq!(item.get_demonym("fr"), Some("Britannique".to_string()));
    assert_eq!(item.get_demonym("de"), None);
}

#[test]
fn test_get_strings_for_property() {
    let item = WikiDataItem::new(parse(
        r#"{"claims": {"P345": [{"mainsnak": {"datavalue": {"type": "string", "value": "tt0080684"}}}]}}"#,
    ));
    let strings = item.get_strings_for_property("P345");
    assert_eq!(strings, vec!["tt0080684"]);
}

#[test]
fn test_get_wiki_links() {
    let item = WikiDataItem::new(parse(
        r#"{"sitelinks": {"enwiki": {"title": "Douglas Adams"}, "dewiki": {"title": "Douglas Adams"}}}"#,
    ));
    let links = item.get_wiki_links();
    assert!(links.contains_key("enwiki"));
    assert!(links.contains_key("dewiki"));
    assert!(!links.contains_key("frwiki"));
}

#[test]
fn test_get_aliases_for_language() {
    let item = WikiDataItem::new(parse(
        r#"{"labels": {"en": {"value": "DNA"}},
            "aliases": {"en": [{"value": "Douglas Noel Adams"}, {"value": "D.N. Adams"}]}}"#,
    ));
    let aliases_no_label = item.get_aliases_for_language("en", false);
    assert_eq!(aliases_no_label.len(), 2);
    assert!(aliases_no_label.contains(&"Douglas Noel Adams".to_string()));
    let aliases_with_label = item.get_aliases_for_language("en", true);
    assert_eq!(aliases_with_label.len(), 3);
    assert!(aliases_with_label.contains(&"DNA".to_string()));
}

#[test]
fn best_quantity_amount_strips_plus() {
    let claims = parse(r#"[{"mainsnak": {"datavalue": {"value": {"amount": "+1500000"}}}}]"#);
    let arr = claims.as_array().unwrap();
    assert_eq!(WikiDataItem::best_quantity_amount(arr), Some("1500000".to_string()));
    assert_eq!(WikiDataItem::best_quantity_amount(&[]), None);
}

#[test]
fn insert_then_get_item() {
    let mut wd = WikiData::new();
    let q = QId::parse("Q42").unwrap();
    assert!(!wd.has_item(&q));
    wd.insert_item(q.clone(), WikiDataItem::new(parse(r#"{"id": "Q42"}"#)));
    assert!(wd.has_item(&q));
    assert_eq!(wd.get_item(&q).unwrap().get_id(), "Q42");
    assert!(wd.get_entity("Q42").is_some());
    assert!(wd.get_entity("Q43").is_none());
    wd.clear();
    assert!(!wd.has_item(&q));
}

#[test]
fn plan_batch_skips_loaded_invalid_and_duplicate_ids() {
    let mut wd = WikiData::new();
    wd.insert_item(QId::parse("Q1").unwrap(), WikiDataItem::new(parse(r#"{"id": "Q1"}"#)));
    let list: Vec<String> =
        ["Q1", "q2", "2", "foo", "Q3"].iter().map(|s| s.to_string()).collect();
    let plan = wd.plan_batch(&list);
    let ids: Vec<&str> = plan.iter().map(|q| q.as_str()).collect();
    assert_eq!(ids, vec!["Q2", "Q3"]);
}

#[test]
fn batch_requests_split_in_chunks() {
    let ids: Vec<QId> = (1..=(MAX_GET_ENTITIES as u64 + 1))
        .map(|n| QId::parse(&n.to_string()).unwrap())
        .collect();
    let reqs = WikiData::batch_requests(&ids);
    assert_eq!(reqs.len(), 2);
    assert!(reqs[0].starts_with("Q1|Q2|"));
    assert_eq!(reqs[1], format!("Q{}", MAX_GET_ENTITIES + 1));
}

#[test]
fn absorb_entities_stores_each_entity() {
    let mut wd = WikiData::new();
    let answer = parse(
        r#"{"entities": {"Q42": {"id": "Q42", "labels": {"en": {"value": "Douglas Adams"}}}, "Q7": {"missing": ""}}}"#,
    );
    wd.absorb_entities(answer);
    let item = wd.get_entity("Q42").unwrap();
    assert_eq!(item.get_label(Some("en")), "Douglas Adams");
    assert!(wd.get_entity("Q7").is_some());
    assert!(wd.get_entity("Q8").is_none());
}

#[test]
fn property_ids() {
    assert_eq!(autodesc::wikidata::property_id(569), "P569");
}

fn fake_q12345() -> Json {
    parse(
        r#"{"entities": {"Q12345": {
            "type": "item", "id": "Q12345", "ns": 0,
            "labels": {"en": {"language": "en", "value": "Count von Count"}, "de": {"language": "de", "value": "Graf Zahl"}},
            "descriptions": {"en": {"language": "en", "value": "Sesame Street character"}},
            "claims": {
                "P31": [{"mainsnak": {"datavalue": {"value": {"entity-type": "item", "id": "Q30061417"}}}}],
                "P345": [{"mainsnak": {"datavalue": {"type": "string", "value": "ch0000000"}}}]
            },
            "sitelinks": {"dewiki": {"site": "dewiki", "title": "Graf Zahl"}, "enwiki": {"site": "enwiki", "title": "Count von Count"}}
        }}}"#,
    )
}

fn fake_q42_q1() -> Json {
    parse(
        r#"{"entities": {
            "Q42": {"type": "item", "id": "Q42", "ns": 0, "labels": {"en": {"language": "en", "value": "Douglas Adams"}}, "descriptions": {}, "claims": {}, "sitelinks": {}},
            "Q1": {"type": "item", "id": "Q1", "ns": 0, "labels": {"en": {"language": "en", "value": "Universe"}}, "descriptions": {}, "claims": {}, "sitelinks": {}}
        }}"#,
    )
}

fn requests_for(wd: &WikiData, items: &[&str]) -> Vec<String> {
    let list: Vec<String> = items.iter().map(|s| s.to_string()).collect();
    WikiData::batch_requests(&wd.plan_batch(&list))
}

#[test]
fn test_load_entity() {
    let mut wd = WikiData::new();
    assert_eq!(requests_for(&wd, &["Q12345"]), vec!["Q12345".to_string()]);
    wd.absorb_entities(fake_q12345());
    let q = QId::parse("Q12345").unwrap();
    assert!(wd.has_item(&q));
    let item = wd.get_item(&q).unwrap();
    assert!(!item.is_placeholder());
    assert_eq!(item.get_label(Some("en")), "Count von Count");
    assert_eq!(item.get_strings_for_property("P345"), vec!["ch0000000"]);
    assert!(item.has_claim_item_link("P31", "Q30061417"));
    assert!(item.get_wiki_links().contains_key("dewiki"));
}

#[test]
fn test_batch_loading() {
    let mut wd = WikiData::new();
    assert_eq!(requests_for(&wd, &["Q42", "Q1"]), vec!["Q42|Q1".to_string()]);
    wd.absorb_entities(fake_q42_q1());
    assert!(wd.has_item(&QId::parse("Q42").unwrap()));
    assert!(wd.has_item(&QId::parse("Q1").unwrap()));
}

#[test]
fn test_clear() {
    let mut wd = WikiData::new();
    wd.absorb_entities(parse(
        r#"{"entities": {"Q42": {"type": "item", "id": "Q42", "ns": 0, "labels": {}, "descriptions": {}, "claims": {}, "sitelinks": {}}}}"#,
    ));
    assert!(wd.has_item(&QId::parse("Q42").unwrap()));
    wd.clear();
    assert!(!wd.has_item(&QId::parse("Q42").unwrap()));
}

#[test]
fn test_batch_dedup() {
    let mut wd = WikiData::new();
    let requests = requests_for(&wd, &["Q42", "Q1", "Q42", "q1"]);
    assert_eq!(requests, vec!["Q42|Q1".to_string()]);
    wd.absorb_entities(fake_q42_q1());
    assert!(wd.has_item(&QId::parse("Q42").unwrap()));
    assert!(wd.has_item(&QId::parse("Q1").unwrap()));
}

#[test]
fn test_already_loaded_skipped() {
    let mut wd = WikiData::new();
    assert_eq!(requests_for(&wd, &["Q42"]).len(), 1);
    wd.absorb_entities(fake_q42_q1());
    assert!(requests_for(&wd, &["Q42"]).is_empty());
    assert!(wd.has_item(&QId::parse("Q42").unwrap()));
}

#[test]
fn get_year_reads_decimal_digits_beyond_ascii() {
    let stock: StrMap<StrMap<String>> = StrMap::new();
    let claims = parse(
        r#"{"P569": [{"mainsnak": {"datavalue": {"value": {"time": "+٠١٩٥٢-03-11T00:00:00Z"}}}}]}"#,
    );
    assert_eq!(WikiData::get_year(&claims, 569, "en", &stock), "٠١٩٥٢");
    let claims = parse(
        r#"{"P569": [{"mainsnak": {"datavalue": {"value": {"time": "+0019٥2-03-11T00:00:00Z"}}}}]}"#,
    );
    assert_eq!(WikiData::get_year(&claims, 569, "en", &stock), "19٥2");
}
