use autodesc::api::{
    admit_request, desc_options_for, is_allowed_origin, jsonp_body, keeps_in_cache, normalize_params, output_key,
    plan_request, render_cached_html_page, render_cached_jsonfm_page, render_html_page,
    render_jsonfm_page, validate_params, ApiParams, ApiRequest, ValidationErrors,
};
use autodesc::english::{GeneratorEn, GeneratorGenericEn};
use autodesc::format_type::Format;
use autodesc::generator::{LanguageGenerator, LanguageGeneratorBase};
use autodesc::json::{Json, JsonNumber};
use autodesc::lang_type::hardcoded_langs;
use autodesc::media::{media_props, MediaGenerator, MediaResult, ThumbnailInfo, COMMONS_API};
use autodesc::qid::QId;
use autodesc::result::LanguageResult;
use autodesc::str_map::StrMap;
use autodesc::text::parse_u64;
use autodesc::wikidata::retry_after_failure;
use autodesc::wikidata_item::WikiDataItem;

fn to_json(v: &serde_json::Value) -> Json {
    match v {
        serde_json::Value::Null => Json::Null,
        serde_json::Value::Bool(b) => Json::Bool(*b),
        serde_json::Value::Number(n) => {
            if let Some(u) = n.as_u64() {
                Json::Number(JsonNumber::PosInt(u))
            } else if let Some(i) = n.as_i64() {
                Json::Number(JsonNumber::NegInt(i))
            } else {
                Json::Number(JsonNumber::Decimal(n.to_string()))
            }
        }
        serde_json::Value::String(s) => Json::Str(s.clone()),
        serde_json::Value::Array(a) => Json::Array(a.iter().map(to_json).collect()),
        serde_json::Value::Object(o) => {
            Json::Object(o.iter().map(|(k, v)| (k.clone(), to_json(v))).collect())
        }
    }
}

fn parse(text: &str) -> Json {
    to_json(&serde_json::from_str::<serde_json::Value>(text).unwrap())
}

fn text(s: &str) -> LanguageResult {
    LanguageResult::Text(s.to_string())
}

// ── results ────────────────────────────────────────────────────────────────

#[test]
fn render_text_of_plain_and_markup() {
    assert_eq!(text("a").render_text(), "a");
    assert_eq!(LanguageResult::Symbol("!".to_string()).render_text(), "!");
    assert_eq!(LanguageResult::Bold(Box::new(text("b"))).render_text(), "b");
    assert_eq!(LanguageResult::Italics(Box::new(text("i"))).render_text(), "i");
    let link = LanguageResult::Link(("http://x".to_string(), Box::new(text("y"))));
    assert_eq!(link.render_text(), "y");
    assert_eq!(LanguageResult::Reference(Box::new(text("r"))).render_text(), "");
}

#[test]
fn render_group_spaces_all_but_symbols() {
    let g = LanguageResult::Group(vec![
        text("a"),
        LanguageResult::Symbol(",".to_string()),
        text("b"),
    ]);
    assert_eq!(g.render_text(), " a, b");
    assert_eq!(g.render_html(), " a, b");
}

#[test]
fn render_list_with_final_separator() {
    let sep = "and".to_string();
    let three = LanguageResult::List((sep.clone(), vec![text("a"), text("b"), text("c")]));
    assert_eq!(three.render_text(), "a, b and c");
    let two = LanguageResult::List((sep.clone(), vec![text("a"), text("b")]));
    assert_eq!(two.render_text(), "a and b");
    let one = LanguageResult::List((sep.clone(), vec![text("a")]));
    assert_eq!(one.render_text(), "a");
    let none = LanguageResult::List((sep, vec![]));
    assert_eq!(none.render_text(), "");
}

#[test]
fn render_html_markup() {
    let link = LanguageResult::Link((
        "http://x".to_string(),
        Box::new(LanguageResult::Bold(Box::new(text("y")))),
    ));
    assert_eq!(link.render_html(), "<a href='http://x'>y</a>");
    assert_eq!(LanguageResult::Bold(Box::new(text("b"))).render_html(), "<strong>b</strong>");
    assert_eq!(LanguageResult::Italics(Box::new(text("i"))).render_html(), "<em>i</em>");
    assert_eq!(
        LanguageResult::Reference(Box::new(text("r"))).render_html(),
        "<reference>r</reference>"
    );
    assert_eq!(text("t").render_html(), "t");
}

// ── generators ─────────────────────────────────────────────────────────────

#[test]
fn english_generator_has_no_person_part() {
    let g = <GeneratorEn as LanguageGenerator>::new();
    assert!(g.get_person().is_none());
    let _generic: GeneratorGenericEn = g.get_generic();
    let _again = <GeneratorGenericEn as LanguageGeneratorBase>::new();
}

// ── media ──────────────────────────────────────────────────────────────────

#[test]
fn media_props_table() {
    let props = media_props();
    assert_eq!(props.len(), 8);
    assert_eq!(props[0], ("P18", "image"));
    assert_eq!(props[7], ("P154", "logo"));
    assert_eq!(COMMONS_API, "https://commons.wikimedia.org/w/api.php");
}

#[test]
fn collect_media_lists_files_by_property() {
    let item = WikiDataItem::new(parse(
        r#"{"claims": {
            "P154": [{"mainsnak": {"datavalue": {"type": "string", "value": "Some_logo.svg"}}}],
            "P18": [
                {"mainsnak": {"datavalue": {"type": "string", "value": "First_picture.jpg"}}},
                {"mainsnak": {"datavalue": {"type": "string", "value": "Second.jpg"}}}
            ],
            "P31": [{"mainsnak": {"datavalue": {"value": {"id": "Q5"}}}}]
        }}"#,
    ));
    let (result, files) = MediaGenerator::collect_media(&item);
    assert_eq!(result.media.len(), 2);
    assert_eq!(result.media.key_at(0), "image");
    assert_eq!(result.media.key_at(1), "logo");
    assert_eq!(
        result.media.get("image").unwrap(),
        &vec!["First picture.jpg".to_string(), "Second.jpg".to_string()]
    );
    assert_eq!(result.media.get("logo").unwrap(), &vec!["Some logo.svg".to_string()]);
    assert!(result.thumbnails.is_empty());
    assert_eq!(
        files,
        vec![
            "File:First picture.jpg".to_string(),
            "File:Second.jpg".to_string(),
            "File:Some logo.svg".to_string()
        ]
    );
}

#[test]
fn collect_media_of_item_without_media() {
    let item = WikiDataItem::placeholder();
    let (result, files) = MediaGenerator::collect_media(&item);
    assert!(result.media.is_empty());
    assert!(files.is_empty());
}

#[test]
fn thumb_request_parameters() {
    let files = vec!["File:A.jpg".to_string(), "File:B c.png".to_string()];
    let params = MediaGenerator::thumb_request(&files, "80").unwrap();
    let pairs: Vec<(&str, &str)> = params.iter().map(|(a, b)| (a.as_str(), b.as_str())).collect();
    assert_eq!(
        pairs,
        vec![
            ("action", "query"),
            ("titles", "File:A.jpg|File:B c.png"),
            ("prop", "imageinfo"),
            ("iiprop", "url"),
            ("iiurlwidth", "80"),
            ("iiurlheight", "80"),
            ("format", "json"),
        ]
    );
    assert!(MediaGenerator::thumb_request(&files, "").is_none());
    assert!(MediaGenerator::thumb_request(&files, "0").is_none());
    assert!(MediaGenerator::thumb_request(&files, "big").is_none());
    assert!(MediaGenerator::thumb_request(&Vec::new(), "80").is_none());
    assert!(MediaGenerator::thumb_request(&files, "+80").is_some());
}

#[test]
fn page_keys_drop_file_prefix_and_underscores() {
    assert_eq!(MediaGenerator::page_key("File:Some_file.jpg"), "Some file.jpg");
    assert_eq!(MediaGenerator::page_key("Other_title"), "Other title");
    assert_eq!(MediaGenerator::page_key(""), "");
}

#[test]
fn absorb_thumbnails_from_commons_answer() {
    let mut result = MediaResult::default();
    let answer = parse(
        r#"{"query": {"pages": {
            "-1": {"title": "File:Missing.jpg"},
            "12": {"title": "File:Some_file.jpg", "imageinfo": [
                {"thumburl": "https://t/x.jpg", "thumbwidth": 80, "thumbheight": 60,
                 "url": "https://u/x.jpg", "descriptionurl": "https://d/x"}
            ]}
        }}}"#,
    );
    MediaGenerator::absorb_thumbnails(&mut result, &answer);
    assert_eq!(result.thumbnails.len(), 1);
    let info = result.thumbnails.get("Some file.jpg").unwrap();
    assert_eq!(info.thumburl.as_deref(), Some("https://t/x.jpg"));
    assert_eq!(info.thumbwidth, Some(80));
    assert_eq!(info.thumbheight, Some(60));
    assert_eq!(info.url.as_deref(), Some("https://u/x.jpg"));
    assert_eq!(info.descriptionurl.as_deref(), Some("https://d/x"));
    assert_eq!(info.descriptionshorturl, None);
    assert!(result.thumbnails.get("Missing.jpg").is_none());

    let mut untouched = MediaResult::default();
    MediaGenerator::absorb_thumbnails(&mut untouched, &parse(r#"{"error": "x"}"#));
    assert!(untouched.thumbnails.is_empty());
}

#[test]
fn first_thumbnail_follows_media_order() {
    let mut result = MediaResult::default();
    result.media.insert("logo".to_string(), vec!["L.png".to_string()]);
    result.media.insert("image".to_string(), vec!["NoThumb.jpg".to_string(), "I.jpg".to_string()]);
    let mut with_desc = ThumbnailInfo::default();
    with_desc.thumburl = Some("t-logo".to_string());
    with_desc.descriptionurl = Some("d-logo".to_string());
    result.thumbnails.insert("L.png".to_string(), with_desc);
    let mut no_desc = ThumbnailInfo::default();
    no_desc.thumburl = Some("t-image".to_string());
    result.thumbnails.insert("I.jpg".to_string(), no_desc);
    result.thumbnails.insert("NoThumb.jpg".to_string(), ThumbnailInfo::default());
    assert_eq!(
        MediaGenerator::first_thumbnail(&result),
        Some(("t-image".to_string(), "t-image".to_string()))
    );
    let empty = MediaResult::default();
    assert_eq!(MediaGenerator::first_thumbnail(&empty), None);
}

// ── text ───────────────────────────────────────────────────────────────────

#[test]
fn parse_u64_like_std() {
    for s in ["0", "42", "+7", "18446744073709551615", "", "+", "-1", "1a", " 1", "18446744073709551616"] {
        assert_eq!(parse_u64(s), s.parse::<u64>().ok(), "{s}");
    }
}

// ── API parameters ─────────────────────────────────────────────────────────

#[test]
fn default_params_are_valid() {
    let p = ApiParams::default();
    assert_eq!(p.lang, "en");
    assert_eq!(p.mode, "short");
    assert_eq!(p.links, "text");
    assert_eq!(p.format, Format::JsonFm);
    assert_eq!(p.get_infobox, "yes");
    assert_eq!(p.user_zoom, 4);
    assert!(validate_params(&p).is_ok());
}

#[test]
fn validation_reports_every_problem_in_order() {
    let mut p = ApiParams::default();
    p.q = Some("foo".to_string());
    p.lang = "__bad__".to_string();
    p.mode = "medium".to_string();
    p.links = "none".to_string();
    p.callback = Some("alert()".to_string());
    p.media = "m".repeat(600);
    p.thumb = "5000".to_string();
    let errs: ValidationErrors = validate_params(&p).unwrap_err();
    assert_eq!(
        errs.errors,
        vec![
            "Invalid Q-id: 'foo'. Expected format: Q followed by digits.".to_string(),
            "Invalid language: '__bad__'".to_string(),
            "Invalid mode: 'medium'. Allowed: short, long".to_string(),
            "Invalid links: 'none'. Allowed: text, wikidata, wiki, wikipedia, reasonator"
                .to_string(),
            "Invalid JSONP callback: 'alert()'. Must be a valid JavaScript identifier."
                .to_string(),
            "Parameter 'media' value too long (max 512 chars)".to_string(),
            "Thumbnail size must be ≤ 4096px".to_string(),
        ]
    );
    let mut q = ApiParams::default();
    q.thumb = "big".to_string();
    assert_eq!(
        validate_params(&q).unwrap_err().errors,
        vec!["Invalid thumbnail size: 'big'".to_string()]
    );
    let mut e = ValidationErrors::new();
    assert!(e.is_empty());
    e.push("x".to_string());
    assert!(!e.is_empty());
}

#[test]
fn plan_request_cases() {
    let p = ApiParams::default();
    assert!(matches!(plan_request(&p), ApiRequest::Index));
    let mut empty_q = ApiParams::default();
    empty_q.q = Some(String::new());
    assert!(matches!(plan_request(&empty_q), ApiRequest::Index));

    let mut bad = ApiParams::default();
    bad.q = Some("foo".to_string());
    assert!(matches!(plan_request(&bad), ApiRequest::Invalid(_)));

    let mut ok = ApiParams::default();
    ok.q = Some(" 42 ".to_string());
    ok.lang = "any".to_string();
    match plan_request(&ok) {
        ApiRequest::Describe(args, q, key) => {
            assert_eq!(q.as_str(), "Q42");
            assert_eq!(args.q.as_deref(), Some("Q42"));
            assert_eq!(args.lang, "en");
            assert_eq!(key, "Q42|en|short|text||jsonfm|yes||||4");
        }
        other => panic!("unexpected plan {:?}", other),
    }

    let mut arabic = ApiParams::default();
    arabic.q = Some("Q\u{0661}".to_string());
    match plan_request(&arabic) {
        ApiRequest::BadQid(m) => assert_eq!(
            m,
            "Invalid Q-id: Invalid Q-id format. Expected Q followed by digits, or just digits."
        ),
        other => panic!("unexpected plan {:?}", other),
    }
}

#[test]
fn normalize_fills_language_and_thumbnail() {
    let mut p = ApiParams::default();
    p.lang = String::new();
    p.format = Format::Html;
    p.media = "1".to_string();
    normalize_params(&mut p);
    assert_eq!(p.lang, "en");
    assert_eq!(p.thumb, "200");
    let mut json = ApiParams::default();
    json.media = "1".to_string();
    normalize_params(&mut json);
    assert_eq!(json.thumb, "");
}

#[test]
fn output_key_and_options() {
    let q = QId::parse("Q1").unwrap();
    let mut a = ApiParams::default();
    a.lang = "de".to_string();
    a.thumb = "80".to_string();
    a.user_zoom = 12;
    assert_eq!(output_key(&q, &a), "Q1|de|short|text||jsonfm|yes|||80|12");
    let valid = hardcoded_langs();
    let opt = desc_options_for(&q, &a, &valid);
    assert_eq!(opt.q, "Q1");
    assert_eq!(opt.lang, "de");
    assert_eq!(opt.links, "text");
    assert_eq!(opt.mode, "short");
    a.lang = "__bad__".to_string();
    assert_eq!(desc_options_for(&q, &a, &valid).lang, "en");
    let loaded = vec!["xx".to_string()];
    a.lang = "xx".to_string();
    assert_eq!(desc_options_for(&q, &a, &loaded).lang, "xx");
    a.lang = "de".to_string();
    assert_eq!(desc_options_for(&q, &a, &loaded).lang, "en");
}

#[test]
fn cache_keeps_all_but_refusals() {
    assert!(!keeps_in_cache("<i>Cannot auto-describe</i>", "Cannot auto-describe"));
    assert!(keeps_in_cache("British writer", "Cannot auto-describe"));
}

#[test]
fn html_page_escapes_label_and_attributes() {
    let thumb = Some(("https://t/a'b.jpg".to_string(), "https://d/\"x\"".to_string()));
    let page = render_html_page("A <b> & c", "Q1", "desc", "text", &thumb);
    assert_eq!(
        page,
        "<!DOCTYPE html><html><head><meta charset=\"utf-8\"></head><body>\
<style>a.redlink { color:red }</style>\
<h1>A &lt;b&gt; &amp; c (<a href='//www.wikidata.org/wiki/Q1'>Q1</a>)</h1>\
<div style='float:right;margin:0 0 1em 1em;'><a href='https://d/&quot;x&quot;' target='_blank'>\
<img src='https://t/a&#x27;b.jpg' style='max-width:200px;max-height:200px;display:block;'/></a></div>\
<p>desc</p><div style='clear:both'></div>\
<hr/><div style='font-size:8pt;'>This text was generated automatically from Wikidata using <a href='/'>AutoDesc</a>.</div>\
</body></html>"
    );
    let wiki = render_cached_html_page("L", "Q1", "[[x]]", "wiki");
    assert!(wiki.contains("<pre style='white-space:pre-wrap;font-size:11pt'>[[x]]</pre>"));
    assert!(!wiki.contains("clear:both"));
}

#[test]
fn jsonfm_pages() {
    let mut a = ApiParams::default();
    a.q = Some("Q1".to_string());
    a.media = "1".to_string();
    let page = render_jsonfm_page(&a, "{\"a\":\"<b>\"}");
    assert!(page.contains(
        "<a href='?q=Q1&lang=en&mode=short&links=text&format=json&media=1'>format=json</a>"
    ));
    assert!(page.contains("{\"a\":\"&lt;b&gt;\"}"));
    let cached = render_cached_jsonfm_page("{}");
    assert!(!cached.contains("Specify the format parameter"));
    assert!(cached.ends_with("<hr/><pre style='white-space:pre-wrap'>{}</pre></body></html>"));
}

#[test]
fn jsonp_wrapping() {
    assert_eq!(jsonp_body(&Some("cb".to_string()), "{}"), Some("cb({})".to_string()));
    assert_eq!(jsonp_body(&Some(String::new()), "{}"), None);
    assert_eq!(jsonp_body(&None, "{}"), None);
}

#[test]
fn rate_limit_admission() {
    assert_eq!(admit_request(false, 0, 2), (true, 1));
    assert_eq!(admit_request(false, 1, 2), (true, 2));
    assert_eq!(admit_request(false, 2, 2), (false, 2));
    assert_eq!(admit_request(true, 2, 2), (true, 1));
    assert_eq!(admit_request(true, 5, 0), (false, 0));
}

#[test]
fn str_map_read_after_write() {
    let mut m: StrMap<u32> = StrMap::new();
    m.insert("a".to_string(), 1);
    m.insert("b".to_string(), 2);
    m.insert("a".to_string(), 3);
    assert_eq!(m.get("a"), Some(&3));
    assert_eq!(m.get("b"), Some(&2));
    assert_eq!(m.get("c"), None);
    assert_eq!(m.len(), 2);
    assert_eq!(m.key_at(0), "a");
}

#[test]
fn retry_waits_double_then_give_up() {
    assert_eq!(retry_after_failure(0), Some(250));
    assert_eq!(retry_after_failure(1), Some(500));
    assert_eq!(retry_after_failure(2), None);
    assert_eq!(retry_after_failure(100), None);
}

#[test]
fn rate_limit_window_admits_at_most_limit() {
    let mut count = 0;
    let mut admitted = 0;
    for _ in 0..10 {
        let (ok, c) = admit_request(false, count, 3);
        if ok {
            admitted += 1;
            assert_eq!(c, count + 1);
        } else {
            assert_eq!(c, count);
        }
        count = c;
    }
    assert_eq!(admitted, 3);
    assert_eq!(count, 3);
}

#[test]
fn rate_limit_between_resets_admits_at_most_limit() {
    let mut count = 3;
    let mut admitted = 0;
    for k in 0..10 {
        let (ok, c) = admit_request(k == 0, count, 3);
        if ok {
            admitted += 1;
        }
        count = c;
    }
    assert_eq!(admitted, 3);
    assert_eq!(count, 3);
}

#[test]
fn cross_site_requests_from_wikimedia_only() {
    assert!(is_allowed_origin("https://en.wikipedia.org"));
    assert!(is_allowed_origin("https://www.wikidata.org"));
    assert!(is_allowed_origin("https://wikipedia.org"));
    assert!(is_allowed_origin("https://autodesc.toolforge.org"));
    assert!(is_allowed_origin("https://commons.m.wikimedia.org"));
    assert!(!is_allowed_origin("http://en.wikipedia.org"));
    assert!(!is_allowed_origin("https://evilwikipedia.org"));
    assert!(!is_allowed_origin("https://en.wikipedia.org.example.com"));
    assert!(!is_allowed_origin("https://example.com/.wikipedia.org"));
    assert!(!is_allowed_origin("https://example.com"));
    assert!(!is_allowed_origin(""));
}
