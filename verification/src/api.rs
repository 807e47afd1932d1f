//! The query parameters of the web API: their defaults and validation, the
//! steps a request takes before any item is loaded, and the pages that show
//! an answer.
use vstd::prelude::*;

use crate::desc_options::DescOptions;
use crate::format_type::{format_name, Format};
use crate::html::{encode_quoted_attribute, encode_text, escaped_attribute, escaped_text};
use crate::lang_type::{fallback_lang_views, parse_lang, Lang};
use crate::media::opt_chars;
use crate::qid::{parse_qid, qid_error_message, QId, QIdError};
use crate::text::{
    concat2, concat3, decimal, lemma_empty_str, owned, parse_u64, seq_join, str_eq, trim,
    u64_text_value, utf8_len, views,
};
use crate::validation::{
    callback_pattern, qid_pattern, regex_match, validate_jsonp_callback, validate_lang,
    validate_links, validate_mode, validate_param_length, validate_qid, is_link_mode,
};

verus! {

/// The language used when a request names none.
pub const DEFAULT_LANGUAGE: &'static str = "en";

/// The query parameters of an API request.
#[derive(Debug)]
pub struct ApiParams {
    pub q: Option<String>,
    pub lang: String,
    pub mode: String,
    pub links: String,
    pub redlinks: String,
    pub format: Format,
    pub get_infobox: String,
    pub infobox_template: String,
    pub media: String,
    pub thumb: String,
    pub user_zoom: u32,
    pub callback: Option<String>,
}

/// The parameters of a request, by their characters.
pub struct ApiParamsView {
    pub q: Option<Seq<char>>,
    pub lang: Seq<char>,
    pub mode: Seq<char>,
    pub links: Seq<char>,
    pub redlinks: Seq<char>,
    pub format: Format,
    pub get_infobox: Seq<char>,
    pub infobox_template: Seq<char>,
    pub media: Seq<char>,
    pub thumb: Seq<char>,
    pub user_zoom: u32,
    pub callback: Option<Seq<char>>,
}

impl View for ApiParams {
    type V = ApiParamsView;

    open spec fn view(&self) -> ApiParamsView {
        ApiParamsView {
            q: opt_chars(self.q),
            lang: self.lang@,
            mode: self.mode@,
            links: self.links@,
            redlinks: self.redlinks@,
            format: self.format,
            get_infobox: self.get_infobox@,
            infobox_template: self.infobox_template@,
            media: self.media@,
            thumb: self.thumb@,
            user_zoom: self.user_zoom,
            callback: opt_chars(self.callback),
        }
    }
}

/// The language of a request that names none.
pub fn default_lang() -> (r: String)
    ensures
        r@ == "en"@,
{
    owned(DEFAULT_LANGUAGE)
}

/// The mode of a request that names none.
pub fn default_mode() -> (r: String)
    ensures
        r@ == "short"@,
{
    owned("short")
}

/// The link style of a request that names none.
pub fn default_links() -> (r: String)
    ensures
        r@ == "text"@,
{
    owned("text")
}

/// The output format of a request that names none.
pub fn default_format() -> (r: Format)
    ensures
        r == Format::JsonFm,
{
    Format::JsonFm
}

/// The infobox choice of a request that names none.
pub fn default_get_infobox() -> (r: String)
    ensures
        r@ == "yes"@,
{
    owned("yes")
}

/// The map zoom of a request that names none.
pub fn default_user_zoom() -> (r: u32)
    ensures
        r == 4,
{
    4
}

impl Default for ApiParams {
    /// A request that names nothing: every parameter takes its default.
    fn default() -> (r: ApiParams)
        ensures
            r.q is None,
            r.lang@ == "en"@,
            r.mode@ == "short"@,
            r.links@ == "text"@,
            r.redlinks@.len() == 0,
            r.format == Format::JsonFm,
            r.get_infobox@ == "yes"@,
            r.infobox_template@.len() == 0,
            r.media@.len() == 0,
            r.thumb@.len() == 0,
            r.user_zoom == 4,
            r.callback is None,
    {
        proof {
            lemma_empty_str();
        }
        ApiParams {
            q: None,
            lang: default_lang(),
            mode: default_mode(),
            links: default_links(),
            redlinks: String::new(),
            format: default_format(),
            get_infobox: default_get_infobox(),
            infobox_template: String::new(),
            media: String::new(),
            thumb: String::new(),
            user_zoom: default_user_zoom(),
            callback: None,
        }
    }
}

/// The problems found in a request, one message each.
#[derive(Debug)]
pub struct ValidationErrors {
    pub errors: Vec<String>,
}

impl ValidationErrors {
    /// No problem yet.
    pub fn new() -> (r: ValidationErrors)
        ensures
            r.errors@.len() == 0,
    {
        ValidationErrors { errors: Vec::new() }
    }

    /// Record one more problem.
    pub fn push(&mut self, msg: String)
        ensures
            final(self).errors@ == old(self).errors@.push(msg),
    {
        self.errors.push(msg);
    }

    /// Whether no problem was recorded.
    pub fn is_empty(&self) -> (r: bool)
        ensures
            r == (self.errors@.len() == 0),
    {
        self.errors.len() == 0
    }
}

/// A Q-id that `validate_qid` accepts.
pub open spec fn qid_accepted(q: Seq<char>) -> bool {
    q.len() > 0 && utf8_len(trim(q)) <= 20 && regex_match(qid_pattern(), trim(q)) == Some(true)
}

/// A callback name that `validate_jsonp_callback` accepts.
pub open spec fn callback_accepted(c: Seq<char>) -> bool {
    c.len() > 0 && utf8_len(c) <= 256 && regex_match(callback_pattern(), c) == Some(true)
}

/// A language parameter that `validate_lang` accepts.
pub open spec fn lang_accepted(l: Seq<char>) -> bool {
    l == "any"@ || l.len() == 0 || fallback_lang_views().contains(l)
}

/// The parameters whose length is checked, each with its name.
pub open spec fn length_checked(p: ApiParamsView) -> Seq<(Seq<char>, Seq<char>)> {
    seq![
        ("lang"@, p.lang),
        ("mode"@, p.mode),
        ("links"@, p.links),
        ("redlinks"@, p.redlinks),
        ("get_infobox"@, p.get_infobox),
        ("infobox_template"@, p.infobox_template),
        ("media"@, p.media),
        ("thumb"@, p.thumb),
    ]
}

/// A message for each parameter whose value is longer than 512 bytes.
pub open spec fn length_errors(named: Seq<(Seq<char>, Seq<char>)>) -> Seq<Seq<char>>
    decreases named.len(),
{
    if named.len() == 0 {
        Seq::empty()
    } else {
        let prev = length_errors(named.drop_last());
        if utf8_len(named.last().1) <= 512 {
            prev
        } else {
            prev.push("Parameter '"@ + named.last().0 + "' value too long (max 512 chars)"@)
        }
    }
}

/// The message about the thumbnail size, if it is wrong.
pub open spec fn thumb_errors(thumb: Seq<char>) -> Seq<Seq<char>> {
    if thumb.len() == 0 {
        Seq::empty()
    } else {
        match u64_text_value(thumb) {
            Some(t) => if t > 4096 {
                seq!["Thumbnail size must be ≤ 4096px"@]
            } else {
                Seq::empty()
            },
            None => seq!["Invalid thumbnail size: '"@ + thumb + "'"@],
        }
    }
}

/// One message when `bad` holds, none else.
pub open spec fn msg_if(bad: bool, msg: Seq<char>) -> Seq<Seq<char>> {
    if bad {
        seq![msg]
    } else {
        Seq::empty()
    }
}

/// Every problem of a request, in the order they are reported.
pub open spec fn param_errors(p: ApiParamsView) -> Seq<Seq<char>> {
    let q_err = match p.q {
        Some(q) => msg_if(
            q.len() > 0 && !qid_accepted(q),
            "Invalid Q-id: '"@ + q + "'. Expected format: Q followed by digits."@,
        ),
        None => Seq::empty(),
    };
    let cb_err = match p.callback {
        Some(c) => msg_if(
            c.len() > 0 && !callback_accepted(c),
            "Invalid JSONP callback: '"@ + c + "'. Must be a valid JavaScript identifier."@,
        ),
        None => Seq::empty(),
    };
    q_err + msg_if(!lang_accepted(p.lang), "Invalid language: '"@ + p.lang + "'"@) + msg_if(
        !(p.mode == "short"@ || p.mode == "long"@),
        "Invalid mode: '"@ + p.mode + "'. Allowed: short, long"@,
    ) + msg_if(
        !is_link_mode(p.links),
        "Invalid links: '"@ + p.links
            + "'. Allowed: text, wikidata, wiki, wikipedia, reasonator"@,
    ) + cb_err + length_errors(length_checked(p)) + thumb_errors(p.thumb)
}

fn push_msg(errs: &mut ValidationErrors, bad: bool, a: &str, b: &str, c: &str)
    ensures
        views(final(errs).errors@) == views(old(errs).errors@) + msg_if(bad, a@ + b@ + c@),
{
    if bad {
        let m = concat3(a, b, c);
        let ghost e0 = errs.errors@;
        errs.push(m);
        assert(views(errs.errors@) =~= views(e0).push(m@));
    } else {
        assert(views(errs.errors@) =~= views(errs.errors@) + Seq::<Seq<char>>::empty());
    }
}

fn check_length(errs: &mut ValidationErrors, name: &str, value: &str)
    ensures
        views(final(errs).errors@) == views(old(errs).errors@) + msg_if(
            utf8_len(value@) > 512,
            "Parameter '"@ + name@ + "' value too long (max 512 chars)"@,
        ),
{
    let bad = !validate_param_length(value);
    push_msg(errs, bad, "Parameter '", name, "' value too long (max 512 chars)");
}

proof fn lemma_length_errors_step(named: Seq<(Seq<char>, Seq<char>)>, n: int)
    requires
        0 < n <= named.len(),
    ensures
        length_errors(named.take(n)) == length_errors(named.take(n - 1)) + msg_if(
            utf8_len(named[n - 1].1) > 512,
            "Parameter '"@ + named[n - 1].0 + "' value too long (max 512 chars)"@,
        ),
{
    assert(named.take(n).drop_last() =~= named.take(n - 1));
    if utf8_len(named[n - 1].1) > 512 {
        assert(length_errors(named.take(n - 1)).push(
            "Parameter '"@ + named[n - 1].0 + "' value too long (max 512 chars)"@,
        ) =~= length_errors(named.take(n - 1)) + seq![
            "Parameter '"@ + named[n - 1].0 + "' value too long (max 512 chars)"@,
        ]);
    } else {
        assert(length_errors(named.take(n - 1)) =~= length_errors(named.take(n - 1))
            + Seq::<Seq<char>>::empty());
    }
}

fn check_lengths(errs: &mut ValidationErrors, params: &ApiParams)
    ensures
        views(final(errs).errors@) == views(old(errs).errors@) + length_errors(
            length_checked(params@),
        ),
{
    let ghost named = length_checked(params@);
    let ghost e0 = views(errs.errors@);
    let checked: Vec<(&str, &str)> = vec![
        ("lang", params.lang.as_str()),
        ("mode", params.mode.as_str()),
        ("links", params.links.as_str()),
        ("redlinks", params.redlinks.as_str()),
        ("get_infobox", params.get_infobox.as_str()),
        ("infobox_template", params.infobox_template.as_str()),
        ("media", params.media.as_str()),
        ("thumb", params.thumb.as_str()),
    ];
    assert(checked@.len() == named.len());
    assert forall|k: int| 0 <= k < named.len() implies (#[trigger] checked@[k]).0@ == named[k].0
        && checked@[k].1@ == named[k].1 by {}
    assert(named.take(0) =~= Seq::<(Seq<char>, Seq<char>)>::empty());
    assert(e0 + length_errors(named.take(0)) =~= e0);
    let mut i: usize = 0;
    while i < checked.len()
        invariant
            checked@.len() == named.len(),
            forall|k: int|
                0 <= k < named.len() ==> (#[trigger] checked@[k]).0@ == named[k].0
                    && checked@[k].1@ == named[k].1,
            i <= checked@.len(),
            views(errs.errors@) == e0 + length_errors(named.take(i as int)),
        decreases checked.len() - i,
    {
        let (name, value) = checked[i];
        check_length(errs, name, value);
        proof {
            lemma_length_errors_step(named, i + 1);
            assert(views(errs.errors@) =~= e0 + length_errors(named.take(i + 1)));
        }
        i = i + 1;
    }
    assert(named.take(named.len() as int) =~= named);
}

fn check_thumb(errs: &mut ValidationErrors, thumb: &str)
    ensures
        views(final(errs).errors@) == views(old(errs).errors@) + thumb_errors(thumb@),
{
    let ghost e0 = errs.errors@;
    if thumb.unicode_len() == 0 {
        assert(views(e0) + thumb_errors(thumb@) =~= views(e0));
        return;
    }
    match parse_u64(thumb) {
        Some(t) => {
            if t > 4096 {
                errs.push(owned("Thumbnail size must be ≤ 4096px"));
                assert(views(errs.errors@) =~= views(e0) + thumb_errors(thumb@));
            } else {
                assert(views(e0) + thumb_errors(thumb@) =~= views(e0));
            }
        },
        None => {
            errs.push(concat3("Invalid thumbnail size: '", thumb, "'"));
            assert(views(errs.errors@) =~= views(e0) + thumb_errors(thumb@));
        },
    }
}

/// Check every parameter of a request; the errors list every problem found,
/// in a fixed order.
pub fn validate_params(params: &ApiParams) -> (r: Result<(), ValidationErrors>)
    ensures
        match r {
            Ok(()) => param_errors(params@).len() == 0,
            Err(e) => param_errors(params@).len() > 0 && views(e.errors@) == param_errors(
                params@,
            ),
        },
{
    let mut errs = ValidationErrors::new();
    assert(views(errs.errors@) =~= Seq::<Seq<char>>::empty());
    proof {
        lemma_empty_str();
    }
    match &params.q {
        Some(q) => {
            let bad = q.unicode_len() > 0 && !validate_qid(q.as_str());
            push_msg(
                &mut errs,
                bad,
                "Invalid Q-id: '",
                q.as_str(),
                "'. Expected format: Q followed by digits.",
            );
        },
        None => {},
    }
    push_msg(&mut errs, !validate_lang(params.lang.as_str()), "Invalid language: '",
        params.lang.as_str(), "'");
    push_msg(&mut errs, !validate_mode(params.mode.as_str()), "Invalid mode: '",
        params.mode.as_str(), "'. Allowed: short, long");
    push_msg(
        &mut errs,
        !validate_links(params.links.as_str()),
        "Invalid links: '",
        params.links.as_str(),
        "'. Allowed: text, wikidata, wiki, wikipedia, reasonator",
    );
    let ghost after_links = views(errs.errors@);
    match &params.callback {
        Some(c) => {
            let bad = c.unicode_len() > 0 && !validate_jsonp_callback(c.as_str());
            push_msg(
                &mut errs,
                bad,
                "Invalid JSONP callback: '",
                c.as_str(),
                "'. Must be a valid JavaScript identifier.",
            );
        },
        None => {
            assert(views(errs.errors@) =~= after_links + Seq::<Seq<char>>::empty());
        },
    }
    check_lengths(&mut errs, params);
    check_thumb(&mut errs, params.thumb.as_str());
    assert(views(errs.errors@) =~= param_errors(params@));
    if errs.is_empty() {
        Ok(())
    } else {
        Err(errs)
    }
}

/// The parameters once the defaults that depend on other parameters are
/// filled in: `any` or no language means English, and an HTML page with media
/// but no thumbnail size asks for 200 pixels.
pub open spec fn normalized(p: ApiParamsView) -> ApiParamsView {
    ApiParamsView {
        lang: if p.lang == "any"@ || p.lang.len() == 0 {
            "en"@
        } else {
            p.lang
        },
        thumb: if p.format == Format::Html && p.media == "1"@ && p.thumb.len() == 0 {
            "200"@
        } else {
            p.thumb
        },
        ..p
    }
}

/// The key under which the answer to a request is kept.
pub open spec fn output_key_of(q: Seq<char>, a: ApiParamsView) -> Seq<char> {
    seq_join(
        seq![
            q,
            a.lang,
            a.mode,
            a.links,
            a.redlinks,
            format_name(a.format),
            a.get_infobox,
            a.infobox_template,
            a.media,
            a.thumb,
            decimal(a.user_zoom as nat),
        ],
        "|"@,
    )
}

/// What a request asks for, once its parameters are checked.
#[derive(Debug)]
pub enum ApiRequest {
    /// Some parameters are wrong.
    Invalid(ValidationErrors),
    /// No item is named: the start page is shown.
    Index,
    /// The item id cannot be read; the message says why.
    BadQid(String),
    /// Describe the item, with the completed parameters and the cache key.
    Describe(ApiParams, QId, String),
}

fn copy_opt(o: &Option<String>) -> (r: Option<String>)
    ensures
        opt_chars(r) == opt_chars(*o),
{
    match o {
        Some(s) => Some(owned(s.as_str())),
        None => None,
    }
}

/// A copy of the parameters.
pub fn copy_params(p: &ApiParams) -> (r: ApiParams)
    ensures
        r@ == p@,
{
    ApiParams {
        q: copy_opt(&p.q),
        lang: owned(p.lang.as_str()),
        mode: owned(p.mode.as_str()),
        links: owned(p.links.as_str()),
        redlinks: owned(p.redlinks.as_str()),
        format: p.format,
        get_infobox: owned(p.get_infobox.as_str()),
        infobox_template: owned(p.infobox_template.as_str()),
        media: owned(p.media.as_str()),
        thumb: owned(p.thumb.as_str()),
        user_zoom: p.user_zoom,
        callback: copy_opt(&p.callback),
    }
}

/// Fill in the defaults that depend on other parameters.
pub fn normalize_params(p: &mut ApiParams)
    ensures
        final(p)@ == normalized(old(p)@),
{
    proof {
        lemma_empty_str();
    }
    if str_eq(p.lang.as_str(), "any") || p.lang.unicode_len() == 0 {
        p.lang = owned(DEFAULT_LANGUAGE);
    }
    if p.format == Format::Html && str_eq(p.media.as_str(), "1") && p.thumb.unicode_len() == 0 {
        p.thumb = owned("200");
    }
}

/// The key under which the answer to a request for `q` is kept.
pub fn output_key(q: &QId, a: &ApiParams) -> (r: String)
    ensures
        r@ == output_key_of(q@, a@),
{
    let parts: Vec<String> = vec![
        q.to_string(),
        owned(a.lang.as_str()),
        owned(a.mode.as_str()),
        owned(a.links.as_str()),
        owned(a.redlinks.as_str()),
        owned(a.format.as_str()),
        owned(a.get_infobox.as_str()),
        owned(a.infobox_template.as_str()),
        owned(a.media.as_str()),
        owned(a.thumb.as_str()),
        crate::text::u64_to_decimal(a.user_zoom as u64),
    ];
    assert(views(parts@) =~= seq![
        q@,
        a.lang@,
        a.mode@,
        a.links@,
        a.redlinks@,
        format_name(a.format),
        a.get_infobox@,
        a.infobox_template@,
        a.media@,
        a.thumb@,
        decimal(a.user_zoom as nat),
    ]);
    crate::text::join(&parts, "|")
}

/// Decide what a request asks for: its errors, the start page, an id that
/// cannot be read, or the item to describe with the completed parameters
/// and the key its answer is kept under.
pub fn plan_request(params: &ApiParams) -> (r: ApiRequest)
    ensures
        match r {
            ApiRequest::Invalid(e) => param_errors(params@).len() > 0 && views(e.errors@)
                == param_errors(params@),
            ApiRequest::Index => param_errors(params@).len() == 0 && match params@.q {
                Some(q) => q.len() == 0,
                None => true,
            },
            ApiRequest::BadQid(m) => param_errors(params@).len() == 0 && match params@.q {
                Some(raw) => raw.len() > 0 && match parse_qid(raw) {
                    Err(e) => m@ == "Invalid Q-id: "@ + qid_error_message(e),
                    Ok(_) => false,
                },
                None => false,
            },
            ApiRequest::Describe(args, q, key) => param_errors(params@).len() == 0 && match params@.q {
                Some(raw) => raw.len() > 0 && parse_qid(raw) == Ok::<Seq<char>, QIdError>(q@),
                None => false,
            } && args@ == (ApiParamsView { q: Some(q@), ..normalized(params@) }) && key@
                == output_key_of(q@, args@),
        },
{
    match validate_params(params) {
        Err(e) => {
            return ApiRequest::Invalid(e);
        },
        Ok(()) => {},
    }
    let mut args = copy_params(params);
    normalize_params(&mut args);
    let raw = match &params.q {
        Some(q) => {
            if q.unicode_len() == 0 {
                return ApiRequest::Index;
            }
            q
        },
        None => {
            return ApiRequest::Index;
        },
    };
    match QId::parse(raw.as_str()) {
        Err(e) => ApiRequest::BadQid(concat2("Invalid Q-id: ", e.message().as_str())),
        Ok(q) => {
            args.q = Some(q.to_string());
            let key = output_key(&q, &args);
            ApiRequest::Describe(args, q, key)
        },
    }
}

/// The options the describers get for a request: the item, the language
/// (English when the parameter names none of the codes `valid` that the
/// server accepts), the link style and the mode.
pub fn desc_options_for(q: &QId, args: &ApiParams, valid: &Vec<String>) -> (r: DescOptions)
    ensures
        r.q@ == q@,
        r.lang@ == match parse_lang(args.lang@, views(valid@)) {
            Ok(l) => l,
            Err(_) => "en"@,
        },
        r.links@ == args.links@,
        r.mode@ == args.mode@,
        r.linktarget@.len() == 0,
        r.redlinks@.len() == 0,
        r.fallback@.len() == 0,
{
    let lang = match Lang::parse_in(args.lang.as_str(), valid) {
        Ok(l) => l,
        Err(_) => Lang::default(),
    };
    let d = DescOptions::default();
    DescOptions {
        q: q.to_string(),
        lang: lang.to_string(),
        links: owned(args.links.as_str()),
        mode: owned(args.mode.as_str()),
        ..d
    }
}

/// Whether an answer is kept for later requests: all but the answer that the
/// item cannot be described (`cannot_describe` is that text in the request's
/// language).
pub fn keeps_in_cache(result: &str, cannot_describe: &str) -> (r: bool)
    ensures
        r == (result@ != "<i>"@ + cannot_describe@ + "</i>"@),
{
    let refused = concat3("<i>", cannot_describe, "</i>");
    !str_eq(result, refused.as_str())
}

/// The start of every page.
pub open spec fn page_head() -> Seq<char> {
    "<!DOCTYPE html><html><head><meta charset=\"utf-8\"></head><body>"@
}

/// The style of red links.
pub open spec fn redlink_style() -> Seq<char> {
    "<style>a.redlink { color:red }</style>"@
}

/// The heading: the label, and the item id linked to Wikidata.
pub open spec fn title_block(label: Seq<char>, q: Seq<char>) -> Seq<char> {
    "<h1>"@ + escaped_text(label) + " (<a href='//www.wikidata.org/wiki/"@ + escaped_text(q) + "'>"@
        + escaped_text(q) + "</a>)</h1>"@
}

/// The description: preformatted for wiki markup, a paragraph else.
pub open spec fn result_block(result: Seq<char>, links: Seq<char>) -> Seq<char> {
    if links == "wiki"@ {
        "<pre style='white-space:pre-wrap;font-size:11pt'>"@ + result + "</pre>"@
    } else {
        "<p>"@ + result + "</p>"@
    }
}

/// A thumbnail floating on the right, linked to its description page.
pub open spec fn thumb_block(thumb: Option<(Seq<char>, Seq<char>)>) -> Seq<char> {
    match thumb {
        Some(t) => "<div style='float:right;margin:0 0 1em 1em;'><a href='"@ + escaped_attribute(t.1)
            + "' target='_blank'><img src='"@ + escaped_attribute(t.0)
            + "' style='max-width:200px;max-height:200px;display:block;'/></a></div>"@,
        None => Seq::empty(),
    }
}

/// The end of an HTML answer.
pub open spec fn page_footer() -> Seq<char> {
    "<hr/><div style='font-size:8pt;'>This text was generated automatically from Wikidata using <a href='/'>AutoDesc</a>.</div>"@
        + "</body></html>"@
}

/// The HTML answer to a request.
pub open spec fn html_page(
    label: Seq<char>,
    q: Seq<char>,
    result: Seq<char>,
    links: Seq<char>,
    thumb: Option<(Seq<char>, Seq<char>)>,
) -> Seq<char> {
    page_head() + redlink_style() + title_block(label, q) + thumb_block(thumb) + result_block(
        result,
        links,
    ) + "<div style='clear:both'></div>"@ + page_footer()
}

/// The HTML answer rebuilt from a kept answer.
pub open spec fn cached_html_page(
    label: Seq<char>,
    q: Seq<char>,
    result: Seq<char>,
    links: Seq<char>,
) -> Seq<char> {
    page_head() + redlink_style() + title_block(label, q) + result_block(result, links)
        + page_footer()
}

fn push_title(out: &mut String, label: &str, q: &str)
    ensures
        final(out)@ == old(out)@ + title_block(label@, q@),
{
    out.append("<h1>");
    let l = encode_text(label);
    out.append(l.as_str());
    out.append(" (<a href='//www.wikidata.org/wiki/");
    let e = encode_text(q);
    out.append(e.as_str());
    out.append("'>");
    out.append(e.as_str());
    out.append("</a>)</h1>");
}

fn push_result(out: &mut String, result: &str, links: &str)
    ensures
        final(out)@ == old(out)@ + result_block(result@, links@),
{
    if str_eq(links, "wiki") {
        out.append("<pre style='white-space:pre-wrap;font-size:11pt'>");
        out.append(result);
        out.append("</pre>");
    } else {
        out.append("<p>");
        out.append(result);
        out.append("</p>");
    }
}

fn push_footer(out: &mut String)
    ensures
        final(out)@ == old(out)@ + page_footer(),
{
    out.append(
        "<hr/><div style='font-size:8pt;'>This text was generated automatically from Wikidata using <a href='/'>AutoDesc</a>.</div>",
    );
    out.append("</body></html>");
}

/// The HTML answer: heading, thumbnail if there is one, the description and
/// the footer.
pub fn render_html_page(
    label: &str,
    q: &str,
    result: &str,
    links: &str,
    thumb: &Option<(String, String)>,
) -> (r: String)
    ensures
        r@ == html_page(
            label@,
            q@,
            result@,
            links@,
            match thumb {
                Some(p) => Some((p.0@, p.1@)),
                None => None,
            },
        ),
{
    let mut out = owned("<!DOCTYPE html><html><head><meta charset=\"utf-8\"></head><body>");
    out.append("<style>a.redlink { color:red }</style>");
    push_title(&mut out, label, q);
    match thumb {
        Some(p) => {
            out.append("<div style='float:right;margin:0 0 1em 1em;'><a href='");
            let d = encode_quoted_attribute(p.1.as_str());
            out.append(d.as_str());
            out.append("' target='_blank'><img src='");
            let t = encode_quoted_attribute(p.0.as_str());
            out.append(t.as_str());
            out.append("' style='max-width:200px;max-height:200px;display:block;'/></a></div>");
        },
        None => {
            proof {
                lemma_empty_str();
            }
            assert(out@ + Seq::<char>::empty() =~= out@);
        },
    }
    push_result(&mut out, result, links);
    out.append("<div style='clear:both'></div>");
    push_footer(&mut out);
    out
}

/// The HTML answer rebuilt from a kept answer: heading, description, footer.
pub fn render_cached_html_page(label: &str, q: &str, result: &str, links: &str) -> (r: String)
    ensures
        r@ == cached_html_page(label@, q@, result@, links@),
{
    let mut out = owned("<!DOCTYPE html><html><head><meta charset=\"utf-8\"></head><body>");
    out.append("<style>a.redlink { color:red }</style>");
    push_title(&mut out, label, q);
    push_result(&mut out, result, links);
    push_footer(&mut out);
    out
}

/// The note at the top of a JSON page shown as HTML.
pub open spec fn jsonfm_intro() -> Seq<char> {
    "<p>You are looking at the HTML representation of the JSON format. HTML is good for debugging, but is unsuitable for application use.</p>"@
}

/// The query of the link to the same answer as plain JSON.
pub open spec fn json_link_params(a: ApiParamsView) -> Seq<Seq<char>> {
    (match a.q {
        Some(q) => seq!["q="@ + escaped_text(q)],
        None => Seq::empty(),
    }) + seq![
        "lang="@ + escaped_text(a.lang),
        "mode="@ + escaped_text(a.mode),
        "links="@ + escaped_text(a.links),
        "format=json"@,
    ] + (if a.media.len() > 0 {
        seq!["media="@ + escaped_text(a.media)]
    } else {
        Seq::empty()
    }) + (if a.thumb.len() > 0 {
        seq!["thumb="@ + escaped_text(a.thumb)]
    } else {
        Seq::empty()
    })
}

/// The JSON answer shown as HTML, with a link to the plain JSON.
pub open spec fn jsonfm_page(a: ApiParamsView, json_text: Seq<char>) -> Seq<char> {
    page_head() + jsonfm_intro()
        + "<p>Specify the format parameter to change the output format. To see the non-HTML representation of the JSON format, set "@
        + "<a href='?"@ + seq_join(json_link_params(a), "&"@) + "'>format=json</a>"@ + ".</p>"@
        + "<hr/><pre style='white-space:pre-wrap'>"@ + escaped_text(json_text)
        + "</pre></body></html>"@
}

/// A kept JSON answer shown as HTML.
pub open spec fn cached_jsonfm_page(json_text: Seq<char>) -> Seq<char> {
    page_head() + jsonfm_intro() + "<hr/><pre style='white-space:pre-wrap'>"@ + escaped_text(
        json_text,
    ) + "</pre></body></html>"@
}

fn escaped_param(name: &str, value: &str) -> (r: String)
    ensures
        r@ == name@ + escaped_text(value@),
{
    let e = encode_text(value);
    concat2(name, e.as_str())
}

fn push_json_body(out: &mut String, json_text: &str)
    ensures
        final(out)@ == old(out)@ + "<hr/><pre style='white-space:pre-wrap'>"@ + escaped_text(
            json_text@,
        ) + "</pre></body></html>"@,
{
    out.append("<hr/><pre style='white-space:pre-wrap'>");
    let e = encode_text(json_text);
    out.append(e.as_str());
    out.append("</pre></body></html>");
}

/// The JSON answer `json_text` shown as HTML, with a link to the same request
/// as plain JSON.
pub fn render_jsonfm_page(args: &ApiParams, json_text: &str) -> (r: String)
    ensures
        r@ == jsonfm_page(args@, json_text@),
{
    let mut params: Vec<String> = Vec::new();
    let ghost a = args@;
    match &args.q {
        Some(q) => {
            params.push(escaped_param("q=", q.as_str()));
        },
        None => {},
    }
    let ghost p0 = views(params@);
    assert(p0 =~= match a.q {
        Some(q) => seq!["q="@ + escaped_text(q)],
        None => Seq::<Seq<char>>::empty(),
    });
    params.push(escaped_param("lang=", args.lang.as_str()));
    params.push(escaped_param("mode=", args.mode.as_str()));
    params.push(escaped_param("links=", args.links.as_str()));
    params.push(owned("format=json"));
    let ghost p1 = views(params@);
    assert(p1 =~= p0 + seq![
        "lang="@ + escaped_text(a.lang),
        "mode="@ + escaped_text(a.mode),
        "links="@ + escaped_text(a.links),
        "format=json"@,
    ]);
    if args.media.unicode_len() > 0 {
        params.push(escaped_param("media=", args.media.as_str()));
    }
    let ghost p2 = views(params@);
    assert(p2 =~= p1 + (if a.media.len() > 0 {
        seq!["media="@ + escaped_text(a.media)]
    } else {
        Seq::<Seq<char>>::empty()
    }));
    if args.thumb.unicode_len() > 0 {
        params.push(escaped_param("thumb=", args.thumb.as_str()));
    }
    assert(views(params@) =~= json_link_params(a));
    let joined = crate::text::join(&params, "&");
    let mut out = owned("<!DOCTYPE html><html><head><meta charset=\"utf-8\"></head><body>");
    out.append(
        "<p>You are looking at the HTML representation of the JSON format. HTML is good for debugging, but is unsuitable for application use.</p>",
    );
    out.append(
        "<p>Specify the format parameter to change the output format. To see the non-HTML representation of the JSON format, set ",
    );
    out.append("<a href='?");
    out.append(joined.as_str());
    out.append("'>format=json</a>");
    out.append(".</p>");
    push_json_body(&mut out, json_text);
    out
}

/// A kept JSON answer shown as HTML.
pub fn render_cached_jsonfm_page(json_text: &str) -> (r: String)
    ensures
        r@ == cached_jsonfm_page(json_text@),
{
    let mut out = owned("<!DOCTYPE html><html><head><meta charset=\"utf-8\"></head><body>");
    out.append(
        "<p>You are looking at the HTML representation of the JSON format. HTML is good for debugging, but is unsuitable for application use.</p>",
    );
    push_json_body(&mut out, json_text);
    out
}

/// A JSON answer wrapped in a call of the request's callback, when it names
/// one; none else (the plain JSON is sent).
pub fn jsonp_body(callback: &Option<String>, json: &str) -> (r: Option<String>)
    ensures
        match r {
            Some(b) => match *callback {
                Some(c) => c@.len() > 0 && b@ == c@ + "("@ + json@ + ")"@,
                None => false,
            },
            None => match *callback {
                Some(c) => c@.len() == 0,
                None => true,
            },
        },
{
    match callback {
        Some(c) => {
            if c.unicode_len() == 0 {
                return None;
            }
            let mut b = owned(c.as_str());
            b.append("(");
            b.append(json);
            b.append(")");
            Some(b)
        },
        None => None,
    }
}

/// The decision on one more request from an address whose current window
/// has admitted `count` requests: a window that has run out starts again from
/// zero, and the request is admitted while fewer than `max_requests` were
/// admitted in the window. With it comes the count of the window afterwards.
pub open spec fn admission(window_expired: bool, count: nat, max_requests: nat) -> (bool, nat) {
    let c: nat = if window_expired {
        0
    } else {
        count
    };
    if c < max_requests {
        (true, c + 1)
    } else {
        (false, c)
    }
}

/// The rate limiter's decision on one request (see `admission`).
pub fn admit_request(window_expired: bool, count: u64, max_requests: u64) -> (r: (bool, u64))
    ensures
        (r.0, r.1 as nat) == admission(window_expired, count as nat, max_requests as nat),
{
    let c = if window_expired {
        0
    } else {
        count
    };
    if c < max_requests {
        (true, c + 1)
    } else {
        (false, c)
    }
}

/// An address never has more requests admitted in a window than the limit:
/// the count stays within the limit from one request to the next.
pub proof fn lemma_admission_within_limit(window_expired: bool, count: nat, max_requests: nat)
    requires
        count <= max_requests,
    ensures
        admission(window_expired, count, max_requests).1 <= max_requests,
        admission(window_expired, count, max_requests).0 ==> admission(
            window_expired,
            count,
            max_requests,
        ).1 == (if window_expired {
            0
        } else {
            count
        }) + 1,
        !admission(window_expired, count, max_requests).0 ==> (if window_expired {
            0
        } else {
            count
        }) == max_requests,
{
}

/// The decisions on a run of requests from one address, each saying whether
/// the window had run out when it came, starting from a window that has
/// admitted `count` requests; with them the count afterwards.
pub open spec fn admissions(expired: Seq<bool>, count: nat, max_requests: nat) -> (Seq<bool>, nat)
    decreases expired.len(),
{
    if expired.len() == 0 {
        (Seq::empty(), count)
    } else {
        let prev = admissions(expired.drop_last(), count, max_requests);
        let step = admission(expired.last(), prev.1, max_requests);
        (prev.0.push(step.0), step.1)
    }
}

/// How many of the decisions admit.
pub open spec fn admitted(decisions: Seq<bool>) -> nat
    decreases decisions.len(),
{
    if decisions.len() == 0 {
        0
    } else {
        admitted(decisions.drop_last()) + if decisions.last() {
            1nat
        } else {
            0nat
        }
    }
}

/// Within one window (no request finds it run out), an address gets at most
/// the limit admitted: the count grows by one for each admitted request,
/// stays as it is for each refused one, and never passes the limit.
pub proof fn lemma_window_admits_at_most_limit(expired: Seq<bool>, count: nat, max_requests: nat)
    requires
        forall|i: int| 0 <= i < expired.len() ==> !expired[i],
        count <= max_requests,
    ensures
        admissions(expired, count, max_requests).1 == count + admitted(
            admissions(expired, count, max_requests).0,
        ),
        admissions(expired, count, max_requests).1 <= max_requests,
        admitted(admissions(expired, count, max_requests).0) <= max_requests - count,
    decreases expired.len(),
{
    if expired.len() > 0 {
        let e = expired.drop_last();
        assert forall|i: int| 0 <= i < e.len() implies !e[i] by {
            assert(e[i] == expired[i]);
        }
        lemma_window_admits_at_most_limit(e, count, max_requests);
        let prev = admissions(e, count, max_requests);
        let ds = admissions(expired, count, max_requests).0;
        assert(ds.drop_last() =~= prev.0);
        assert(!expired.last());
    }
}


/// Deciding a run of requests in two parts gives the decisions of the first
/// part, then those of the second from the count the first left.
pub proof fn lemma_admissions_split(a: Seq<bool>, b: Seq<bool>, count: nat, max_requests: nat)
    ensures
        admissions(a + b, count, max_requests) == ({
            let first = admissions(a, count, max_requests);
            let second = admissions(b, first.1, max_requests);
            (first.0 + second.0, second.1)
        }),
    decreases b.len(),
{
    if b.len() == 0 {
        assert(a + b =~= a);
        let first = admissions(a, count, max_requests);
        assert(first.0 + Seq::<bool>::empty() =~= first.0);
    } else {
        let b0 = b.drop_last();
        lemma_admissions_split(a, b0, count, max_requests);
        assert((a + b).drop_last() =~= a + b0);
        assert((a + b).last() == b.last());
        let first = admissions(a, count, max_requests);
        let second0 = admissions(b0, first.1, max_requests);
        let second = admissions(b, first.1, max_requests);
        assert(second.0 =~= second0.0.push(admission(b.last(), second0.1, max_requests).0));
        assert((first.0 + second0.0).push(admission(b.last(), second0.1, max_requests).0) =~= first.0 + second.0);
    }
}

/// The admitted requests of two runs of decisions add up.
pub proof fn lemma_admitted_concat(a: Seq<bool>, b: Seq<bool>)
    ensures
        admitted(a + b) == admitted(a) + admitted(b),
    decreases b.len(),
{
    if b.len() == 0 {
        assert(a + b =~= a);
    } else {
        lemma_admitted_concat(a, b.drop_last());
        assert((a + b).drop_last() =~= a + b.drop_last());
        assert((a + b).last() == b.last());
    }
}

/// Between two resets of an address's window, at most `max_requests` of its
/// requests are admitted, whatever its count before: the first request of
/// the run finds the window run out, and none of the later ones does.
pub proof fn lemma_between_resets_admits_at_most_limit(expired: Seq<bool>, count: nat, max_requests: nat)
    requires
        expired.len() > 0,
        expired[0],
        forall|i: int| 1 <= i < expired.len() ==> !expired[i],
    ensures
        admitted(admissions(expired, count, max_requests).0) <= max_requests,
{
    let a = expired.take(1);
    let b = expired.skip(1);
    assert(expired =~= a + b);
    lemma_admissions_split(a, b, count, max_requests);
    let first = admissions(a, count, max_requests);
    assert(a.drop_last() =~= Seq::<bool>::empty());
    assert(admissions(a.drop_last(), count, max_requests) == (Seq::<bool>::empty(), count));
    assert(a.last());
    let step = admission(true, count, max_requests);
    assert(first.0 =~= seq![step.0]);
    assert(first.0.drop_last() =~= Seq::<bool>::empty());
    assert(admitted(first.0.drop_last()) == 0);
    assert(admitted(first.0) == first.1);
    assert forall|i: int| 0 <= i < b.len() implies !b[i] by {
        assert(b[i] == expired[i + 1]);
    }
    lemma_window_admits_at_most_limit(b, first.1, max_requests);
    let second = admissions(b, first.1, max_requests);
    lemma_admitted_concat(first.0, second.0);
}

/// From an empty bucket, an address gets at most `max_requests` requests
/// admitted before its window is first reset.
pub proof fn lemma_fresh_bucket_admits_at_most_limit(expired: Seq<bool>, max_requests: nat)
    requires
        forall|i: int| 0 <= i < expired.len() ==> !expired[i],
    ensures
        admitted(admissions(expired, 0, max_requests).0) <= max_requests,
{
    lemma_window_admits_at_most_limit(expired, 0, max_requests);
}


/// The domains of the Wikimedia projects whose pages may call the API from a
/// browser.
pub open spec fn wikimedia_domains() -> Seq<Seq<char>> {
    seq![
        "wikipedia.org"@,
        "wikimedia.org"@,
        "wikidata.org"@,
        "wiktionary.org"@,
        "wikibooks.org"@,
        "wikinews.org"@,
        "wikiquote.org"@,
        "wikisource.org"@,
        "wikiversity.org"@,
        "wikivoyage.org"@,
        "wikifunctions.org"@,
        "mediawiki.org"@,
        "toolforge.org"@,
    ]
}

/// A character of a host name as browsers send it: a lower-case ASCII
/// letter, a digit, `-` or `.`.
pub open spec fn is_host_char(c: char) -> bool {
    ('a' <= c && c <= 'z') || ('0' <= c && c <= '9') || c == '-' || c == '.'
}

/// An `Origin` that cross-site requests are answered for: `https://` and a
/// host that is a Wikimedia domain or one of its subdomains.
pub open spec fn is_wikimedia_origin(origin: Seq<char>) -> bool {
    let host = origin.skip(8);
    &&& crate::text::has_prefix(origin, "https://"@)
    &&& forall|i: int| 0 <= i < host.len() ==> #[trigger] is_host_char(host[i])
    &&& exists|k: int|
        0 <= k < wikimedia_domains().len() && (host == #[trigger] wikimedia_domains()[k]
            || crate::text::has_suffix(host, "."@ + wikimedia_domains()[k]))
}

/// Whether cross-site requests from `origin` are answered (see
/// `is_wikimedia_origin`).
pub fn is_allowed_origin(origin: &str) -> (r: bool)
    ensures
        r == is_wikimedia_origin(origin@),
{
    proof {
        reveal_strlit("https://");
    }
    if !crate::text::starts_with(origin, "https://") {
        return false;
    }
    let n = origin.unicode_len();
    let host = origin.substring_char(8, n);
    assert(host@ =~= origin@.skip(8));
    let m = host.unicode_len();
    let mut i: usize = 0;
    while i < m
        invariant
            m == host@.len(),
            host@ == origin@.skip(8),
            i <= m,
            forall|k: int| 0 <= k < i ==> #[trigger] is_host_char(host@[k]),
        decreases m - i,
    {
        let c = host.get_char(i);
        if !(('a' <= c && c <= 'z') || ('0' <= c && c <= '9') || c == '-' || c == '.') {
            assert(!is_host_char(host@[i as int]));
            return false;
        }
        i = i + 1;
    }
    let domains = [
        "wikipedia.org",
        "wikimedia.org",
        "wikidata.org",
        "wiktionary.org",
        "wikibooks.org",
        "wikinews.org",
        "wikiquote.org",
        "wikisource.org",
        "wikiversity.org",
        "wikivoyage.org",
        "wikifunctions.org",
        "mediawiki.org",
        "toolforge.org",
    ];
    let ghost ds = wikimedia_domains();
    assert(domains@.map_values(|d: &str| d@) =~= ds);
    let mut k: usize = 0;
    while k < domains.len()
        invariant
            host@ == origin@.skip(8),
            crate::text::has_prefix(origin@, "https://"@),
            forall|j: int| 0 <= j < host@.len() ==> #[trigger] is_host_char(host@[j]),
            ds == wikimedia_domains(),
            domains@.map_values(|d: &str| d@) == ds,
            domains@.len() == ds.len(),
            k <= ds.len(),
            forall|j: int|
                0 <= j < k ==> !(host@ == #[trigger] ds[j] || crate::text::has_suffix(host@, "."@ + ds[j])),
        decreases ds.len() - k,
    {
        let d = domains[k];
        assert(d@ == ds[k as int]);
        let dotted = concat2(".", d);
        if str_eq(host, d) || crate::text::ends_with(host, dotted.as_str()) {
            assert(host@ == wikimedia_domains()[k as int] || crate::text::has_suffix(
                host@,
                "."@ + wikimedia_domains()[k as int],
            ));
            return true;
        }
        k = k + 1;
    }
    false
}

} // verus!
