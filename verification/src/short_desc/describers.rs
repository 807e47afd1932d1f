//! The describers: which items each kind of description labels, and how
//! the labels, years and stock texts make the description.

use vstd::prelude::*;
use crate::desc_options::DescOptions;
use crate::long_desc::{is_long_desc_available, long_desc_languages};
use crate::json::{Json, jarr_or_empty, jget, jstr, opt_array, opt_get, opt_str};
use crate::short_desc::{ShortDescription, replaced_text, stock_text};
use crate::short_desc::claims::{has_link, is_disambig_spec, is_person_spec, is_taxon_spec, item_refs, pair_views, prop_claims, tag_refs};
use crate::short_desc::labeler::{
    LabelMap, gathered, item_ids_for, item_label_fn, label_fn, label_ids_of, lemma_collected_ids_len, nationality_of,
    with_labels,
};
use crate::short_desc::word_helpers::{WordHints, modified_word, clean_spaces, cleaned, link_parts, percent_encoded, split_link, uc_first, uc_first_text, url_encode};
use crate::str_map::find;
use crate::text::{has_prefix, join, lowercase, owned, seq_join, str_eq, to_lower, views};
use crate::wikidata::{WikiData, year_text};
use crate::wikidata_item::{WikiDataItem, label_of};
use vstd::utf8::encode_utf8;

verus! {

/// The kinds of item the short descriptions tell apart.
#[derive(Debug, Clone, Copy, PartialEq, Eq, Structural)]
pub enum ItemKind {
    Person,
    Taxon,
    Disambiguation,
    Generic,
}

/// The kind of an item, by its claims: persons first, then taxa, then
/// disambiguation pages.
pub open spec fn kind_of(claims: Json) -> ItemKind {
    if is_person_spec(claims) {
        ItemKind::Person
    } else if is_taxon_spec(claims) {
        ItemKind::Taxon
    } else if is_disambig_spec(claims) {
        ItemKind::Disambiguation
    } else {
        ItemKind::Generic
    }
}

/// How an item is described: as a long text, or shortly by its kind.
#[derive(Debug, Clone, Copy, PartialEq, Eq, Structural)]
pub enum DescriptionPlan {
    Long,
    Short(ItemKind),
}

/// The plan for an item: a long text where the request asks for one, the
/// language has long texts and the item is a person; a short description by
/// the item's kind otherwise.
pub open spec fn description_plan(claims: Json, mode: Seq<char>, lang: Seq<char>) -> DescriptionPlan {
    if mode == "long"@ && long_desc_languages().contains(lang) && is_person_spec(claims) {
        DescriptionPlan::Long
    } else {
        DescriptionPlan::Short(kind_of(claims))
    }
}

/// A request for a long text in a language without long texts is answered as
/// a request for a short one.
pub proof fn lemma_long_falls_back_to_short(claims: Json, lang: Seq<char>)
    requires
        !long_desc_languages().contains(lang),
    ensures
        description_plan(claims, "long"@, lang) == description_plan(claims, "short"@, lang),
        description_plan(claims, "long"@, lang) == DescriptionPlan::Short(kind_of(claims)),
{
}

/// The items that the claims of the properties `props` name, with their
/// property, in order.
pub open spec fn items_for(claims: Json, props: Seq<u64>) -> Seq<(u64, Seq<char>)>
    decreases props.len(),
{
    if props.len() == 0 {
        Seq::empty()
    } else {
        items_for(claims, props.drop_last()) + tag_refs(props.last(), item_refs(prop_claims(claims, props.last() as nat)))
    }
}

/// The properties whose items a person description labels.
pub open spec fn person_props() -> Seq<u64> {
    seq![106u64, 39, 27, 166, 31, 22, 25, 26, 463, 800]
}

/// The properties whose items a generic description labels.
pub open spec fn generic_props() -> Seq<u64> {
    seq![
        361u64, 279, 1269, 31, 60, 175, 86, 170, 57, 162, 50, 61, 17, 131, 495, 159, 306, 400, 176, 123, 264, 105,
        138, 171, 1433, 571, 576, 585, 703, 1080, 1441, 921, 425, 59, 1082,
    ]
}

/// The part before the text of a link, its text and the part after it; a
/// plain text is all text.
pub open spec fn split_or_plain(v: Seq<char>) -> (Seq<char>, Seq<char>, Seq<char>) {
    match link_parts(v) {
        Some((_, b, i, a)) => (b, i, a),
        None => (Seq::empty(), v, Seq::empty()),
    }
}

/// The nationalities of a person from the labels of its countries and the
/// countries' ids: each country's nationality (its demonym, else the
/// nationality for its name) inside the country's link, joined by `-`, all
/// but the first in lower case.
pub open spec fn nationality_line(
    sd: ShortDescription,
    labels: Seq<Seq<char>>,
    countries: Seq<Seq<char>>,
    lang: Seq<char>,
    loaded: Seq<(Seq<char>, WikiDataItem)>,
) -> Seq<char>
    decreases labels.len(),
{
    if labels.len() == 0 {
        Seq::empty()
    } else {
        let (b, i, a) = split_or_plain(labels.last());
        let q = if countries.len() > 0 {
            Some(countries.last())
        } else {
            None
        };
        let s = nationality_of(sd, i, q, lang, loaded);
        if labels.len() == 1 {
            b + s + a
        } else {
            nationality_line(sd, labels.drop_last(), countries.drop_last(), lang, loaded) + "-"@ + b
                + to_lower(s) + a
        }
    }
}

/// The life years of a person, `(born–died)`, `(*born)` or `(†died)`.
pub open spec fn life_dates(born: Seq<char>, died: Seq<char>) -> Option<Seq<char>> {
    if born.len() > 0 && died.len() > 0 {
        Some("("@ + born + "–"@ + died + ")"@)
    } else if born.len() > 0 {
        Some("(*"@ + born + ")"@)
    } else if died.len() > 0 {
        Some("(†"@ + died + ")"@)
    } else {
        None
    }
}

/// `h` with `x` appended when there is one.
pub open spec fn push_opt(h: Seq<Seq<char>>, x: Option<Seq<char>>) -> Seq<Seq<char>> {
    match x {
        Some(v) => h.push(v),
        None => h,
    }
}

/// Hints without gender or occupation.
pub open spec fn no_hints() -> WordHints {
    WordHints { is_female: false, is_male: false, occupation: false }
}

/// `h` with the occupations: the labels of `props`, each in the form the
/// hints ask for, joined by `, `; nothing is added without labels.
pub open spec fn with_occupations(
    h: Seq<Seq<char>>,
    labels: spec_fn(u64) -> Seq<Seq<char>>,
    props: Seq<u64>,
    hints: WordHints,
    lang: Seq<char>,
) -> Seq<Seq<char>> {
    let words = gathered(labels, props);
    if words.len() == 0 {
        h
    } else {
        h.push(seq_join(words.map_values(|w: Seq<char>| modified_word(w, hints, lang)), ", "@))
    }
}

/// The sex symbols of a person: `♀` for a woman, `♂` for a man.
pub open spec fn sex_symbols(claims: Json) -> Seq<Seq<char>> {
    let h = if has_link(claims, 21, 6581072) {
        seq!["♀"@]
    } else {
        Seq::empty()
    };
    if has_link(claims, 21, 6581097) {
        h.push("♂"@)
    } else {
        h
    }
}

/// The parts of a person's description, in the order of the documented
/// example `♂ British novelist, screenwriter (1952–2001)`: the sex symbol,
/// the nationality, the occupations (or `person`), offices, life dates,
/// then awards, memberships, parents, spouses and notable works.
pub open spec fn person_parts(
    sd: ShortDescription,
    claims: Json,
    labels: spec_fn(u64) -> Seq<Seq<char>>,
    countries: Seq<Seq<char>>,
    lang: Seq<char>,
    loaded: Seq<(Seq<char>, WikiDataItem)>,
) -> Seq<Seq<char>> {
    let stock = sd.stock@;
    let is_male = has_link(claims, 21, 6581097);
    let is_female = has_link(claims, 21, 6581072);
    let h0 = sex_symbols(claims);
    let nl = nationality_line(sd, labels(27), countries, lang, loaded);
    let h1 = if nl.len() > 0 {
        h0.push(nl)
    } else {
        h0
    };
    let h2 = with_occupations(
        h1,
        labels,
        seq![31u64, 106],
        WordHints { is_female, is_male, occupation: true },
        lang,
    );
    let h3 = if h2.len() == h1.len() {
        h2.push(stock_text(stock, "person"@, lang))
    } else {
        h2
    };
    let h4 = with_labels(
        stock,
        h3,
        labels,
        seq![39u64],
        WordHints { is_female, is_male, occupation: false },
        Some(","@),
        None,
        lang,
    );
    let h5 = push_opt(h4, life_dates(year_text(claims, 569, lang, stock), year_text(claims, 570, lang, stock)));
    let h8 = with_labels(stock, h5, labels, seq![166u64], no_hints(), Some(";"@), None, lang);
    let h9 = with_labels(stock, h8, labels, seq![463u64], no_hints(), Some(";"@), Some("member of"@), lang);
    let h10 = with_labels(stock, h9, labels, seq![22u64, 25], no_hints(), Some(";"@), Some("child of"@), lang);
    let h11 = with_labels(stock, h10, labels, seq![26u64], no_hints(), Some(";"@), Some("spouse of"@), lang);
    with_labels(stock, h11, labels, seq![800u64], no_hints(), Some(";"@), Some("notable work"@), lang)
}

proof fn lemma_prefix_trans(a: Seq<char>, b: Seq<char>, c: Seq<char>)
    requires
        has_prefix(b, a),
        has_prefix(c, b),
    ensures
        has_prefix(c, a),
{
    assert(c.subrange(0, a.len() as int) =~= c.subrange(0, b.len() as int).subrange(0, a.len() as int));
}

proof fn lemma_with_labels_keeps(
    stock: Seq<(Seq<char>, crate::str_map::StrMap<String>)>,
    h: Seq<Seq<char>>,
    labels: spec_fn(u64) -> Seq<Seq<char>>,
    props: Seq<u64>,
    hints: WordHints,
    prefix: Option<Seq<char>>,
    key: Option<Seq<char>>,
    lang: Seq<char>,
    i: int,
)
    requires
        0 <= i < h.len(),
    ensures
        with_labels(stock, h, labels, props, hints, prefix, key, lang).len() >= h.len(),
        has_prefix(with_labels(stock, h, labels, props, hints, prefix, key, lang)[i], h[i]),
        i < h.len() - 1 ==> with_labels(stock, h, labels, props, hints, prefix, key, lang)[i] == h[i],
{
    let r = with_labels(stock, h, labels, props, hints, prefix, key, lang);
    if gathered(labels, props).len() > 0 {
        match prefix {
            Some(pf) => {
                if i == h.len() - 1 {
                    assert((h[i] + pf).subrange(0, h[i].len() as int) =~= h[i]);
                } else {
                    assert(h[i].subrange(0, h[i].len() as int) =~= h[i]);
                }
            },
            None => {
                assert(h[i].subrange(0, h[i].len() as int) =~= h[i]);
            },
        }
    } else {
        assert(h[i].subrange(0, h[i].len() as int) =~= h[i]);
    }
}

proof fn lemma_with_labels_keeps_all(
    stock: Seq<(Seq<char>, crate::str_map::StrMap<String>)>,
    h: Seq<Seq<char>>,
    labels: spec_fn(u64) -> Seq<Seq<char>>,
    props: Seq<u64>,
    hints: WordHints,
    prefix: Option<Seq<char>>,
    key: Option<Seq<char>>,
    lang: Seq<char>,
)
    requires
        h.len() > 0,
    ensures
        with_labels(stock, h, labels, props, hints, prefix, key, lang).len() >= h.len(),
        forall|i: int|
            0 <= i < h.len() ==> has_prefix(
                #[trigger] with_labels(stock, h, labels, props, hints, prefix, key, lang)[i],
                h[i],
            ),
        forall|i: int|
            0 <= i < h.len() - 1 ==> #[trigger] with_labels(stock, h, labels, props, hints, prefix, key, lang)[i]
                == h[i],
{
    assert forall|i: int| 0 <= i < h.len() implies has_prefix(
        #[trigger] with_labels(stock, h, labels, props, hints, prefix, key, lang)[i],
        h[i],
    ) && (i < h.len() - 1 ==> with_labels(stock, h, labels, props, hints, prefix, key, lang)[i] == h[i]) by {
        lemma_with_labels_keeps(stock, h, labels, props, hints, prefix, key, lang, i);
    }
    lemma_with_labels_keeps(stock, h, labels, props, hints, prefix, key, lang, 0);
}

/// The sex symbol opens a person's description: the first parts are `♀` for
/// a woman and `♂` for a man, and at least one part follows them. The life
/// dates, `(born–died)`, `(*born)` or `(†died)`, begin one of the parts
/// after the first (a `;` may follow them there when awards or relations
/// come after).
pub proof fn lemma_person_parts_shape(
    sd: ShortDescription,
    claims: Json,
    labels: spec_fn(u64) -> Seq<Seq<char>>,
    countries: Seq<Seq<char>>,
    lang: Seq<char>,
    loaded: Seq<(Seq<char>, WikiDataItem)>,
)
    ensures
        person_parts(sd, claims, labels, countries, lang, loaded).len() > sex_symbols(claims).len(),
        forall|i: int|
            0 <= i < sex_symbols(claims).len() ==> #[trigger] person_parts(sd, claims, labels, countries, lang, loaded)[i]
                == sex_symbols(claims)[i],
        match life_dates(
            year_text(claims, 569, lang, sd.stock@),
            year_text(claims, 570, lang, sd.stock@),
        ) {
            Some(d) => exists|i: int|
                1 <= i < person_parts(sd, claims, labels, countries, lang, loaded).len() && has_prefix(
                    #[trigger] person_parts(sd, claims, labels, countries, lang, loaded)[i],
                    d,
                ),
            None => true,
        },
{
    let stock = sd.stock@;
    let is_male = has_link(claims, 21, 6581097);
    let is_female = has_link(claims, 21, 6581072);
    let h0 = sex_symbols(claims);
    let nl = nationality_line(sd, labels(27), countries, lang, loaded);
    let h1 = if nl.len() > 0 {
        h0.push(nl)
    } else {
        h0
    };
    let h2 = with_occupations(h1, labels, seq![31u64, 106], WordHints { is_female, is_male, occupation: true }, lang);
    let h3 = if h2.len() == h1.len() {
        h2.push(stock_text(stock, "person"@, lang))
    } else {
        h2
    };
    assert(h3.len() > h0.len());
    assert(forall|i: int| 0 <= i < h0.len() ==> h3[i] == h0[i]);
    let oh = WordHints { is_female, is_male, occupation: false };
    let h4 = with_labels(stock, h3, labels, seq![39u64], oh, Some(","@), None, lang);
    lemma_with_labels_keeps_all(stock, h3, labels, seq![39u64], oh, Some(","@), None, lang);
    let dates = life_dates(year_text(claims, 569, lang, stock), year_text(claims, 570, lang, stock));
    let h5 = push_opt(h4, dates);
    assert(h5.len() >= h4.len());
    assert(forall|i: int| 0 <= i < h4.len() ==> h5[i] == h4[i]);
    let k = h4.len() as int;
    if let Some(d) = dates {
        assert(h5[k] == d);
        assert(h5[k].subrange(0, d.len() as int) =~= d);
    }
    let nh = no_hints();
    let h8 = with_labels(stock, h5, labels, seq![166u64], nh, Some(";"@), None, lang);
    lemma_with_labels_keeps_all(stock, h5, labels, seq![166u64], nh, Some(";"@), None, lang);
    let h9 = with_labels(stock, h8, labels, seq![463u64], nh, Some(";"@), Some("member of"@), lang);
    lemma_with_labels_keeps_all(stock, h8, labels, seq![463u64], nh, Some(";"@), Some("member of"@), lang);
    let h10 = with_labels(stock, h9, labels, seq![22u64, 25], nh, Some(";"@), Some("child of"@), lang);
    lemma_with_labels_keeps_all(stock, h9, labels, seq![22u64, 25], nh, Some(";"@), Some("child of"@), lang);
    let h11 = with_labels(stock, h10, labels, seq![26u64], nh, Some(";"@), Some("spouse of"@), lang);
    lemma_with_labels_keeps_all(stock, h10, labels, seq![26u64], nh, Some(";"@), Some("spouse of"@), lang);
    let h12 = with_labels(stock, h11, labels, seq![800u64], nh, Some(";"@), Some("notable work"@), lang);
    lemma_with_labels_keeps_all(stock, h11, labels, seq![800u64], nh, Some(";"@), Some("notable work"@), lang);
    assert(h12 == person_parts(sd, claims, labels, countries, lang, loaded));
    assert forall|i: int| 0 <= i < h0.len() implies #[trigger] h12[i] == h0[i] by {
        assert(h4[i] == h3[i]);
        assert(h5[i] == h4[i]);
        assert(h8[i] == h5[i]);
        assert(h9[i] == h8[i]);
        assert(h10[i] == h9[i]);
        assert(h11[i] == h10[i]);
    }
    if let Some(d) = dates {
        lemma_prefix_trans(d, h5[k], h8[k]);
        lemma_prefix_trans(d, h8[k], h9[k]);
        lemma_prefix_trans(d, h9[k], h10[k]);
        lemma_prefix_trans(d, h10[k], h11[k]);
        lemma_prefix_trans(d, h11[k], h12[k]);
        assert(has_prefix(h12[k], d));
    }
}

/// The life dates of a person, `(born–died)`, `(*born)` or `(†died)` with
/// the years that `get_year` gives, stand whole in the description, when
/// they hold no two spaces in a row and no space before a comma (which the
/// cleaning of spaces would change).
pub proof fn lemma_person_description_shows_dates(
    sd: ShortDescription,
    claims: Json,
    labels: spec_fn(u64) -> Seq<Seq<char>>,
    countries: Seq<Seq<char>>,
    lang: Seq<char>,
    loaded: Seq<(Seq<char>, WikiDataItem)>,
)
    requires
        life_dates(year_text(claims, 569, lang, sd.stock@), year_text(claims, 570, lang, sd.stock@)) matches Some(d)
            ==> crate::short_desc::word_helpers::no_double_space(d)
            && crate::short_desc::word_helpers::no_space_before_comma(d),
    ensures
        life_dates(year_text(claims, 569, lang, sd.stock@), year_text(claims, 570, lang, sd.stock@)) matches Some(d)
            ==> exists|p: Seq<char>, q: Seq<char>|
            person_description(sd, claims, labels, countries, lang, loaded) == p + d + q,
{
    let born = year_text(claims, 569, lang, sd.stock@);
    let died = year_text(claims, 570, lang, sd.stock@);
    if let Some(d) = life_dates(born, died) {
        reveal_strlit("(");
        reveal_strlit("(*");
        reveal_strlit("(†");
        reveal_strlit(")");
        reveal_strlit(" ");
        assert(d[0] == '(' && d.last() == ')');
        let parts = person_parts(sd, claims, labels, countries, lang, loaded);
        lemma_person_parts_shape(sd, claims, labels, countries, lang, loaded);
        let i = choose|i: int| 1 <= i < parts.len() && has_prefix(#[trigger] parts[i], d);
        let ab = crate::text::lemma_join_around(parts, " "@, i);
        let rest = parts[i].skip(d.len() as int);
        assert(parts[i] =~= d + rest);
        let x = ab.0 + " "@;
        let y = rest + ab.1;
        assert(seq_join(parts, " "@) =~= x + d + y);
        crate::short_desc::word_helpers::lemma_uc_first_keeps_rest(x, d, y);
        let pq = crate::short_desc::word_helpers::lemma_cleaned_keeps(
            crate::text::to_upper(seq![x[0]]) + x.drop_first(),
            d,
            y,
        );
        assert(person_description(sd, claims, labels, countries, lang, loaded) == pq.0 + d + pq.1);
    }
}

/// The life dates of a person read the way a reader expects: a person
/// with only a birth year gets `(*born)` (marked as born, never with the
/// death marker), one with only a death year gets `(†died)`, and one with
/// both gets `(born–died)`, the birth year first. The years are what
/// `get_year` gives for the birth (P569) and death (P570) claims; the dates
/// begin one of the parts after the first.
pub proof fn lemma_person_life_date_forms(
    sd: ShortDescription,
    claims: Json,
    labels: spec_fn(u64) -> Seq<Seq<char>>,
    countries: Seq<Seq<char>>,
    lang: Seq<char>,
    loaded: Seq<(Seq<char>, WikiDataItem)>,
)
    ensures
        ({
            let born = year_text(claims, 569, lang, sd.stock@);
            let died = year_text(claims, 570, lang, sd.stock@);
            let parts = person_parts(sd, claims, labels, countries, lang, loaded);
            &&& born.len() > 0 && died.len() == 0 ==> exists|i: int|
                1 <= i < parts.len() && has_prefix(#[trigger] parts[i], "(*"@ + born + ")"@)
            &&& born.len() == 0 && died.len() > 0 ==> exists|i: int|
                1 <= i < parts.len() && has_prefix(#[trigger] parts[i], "(†"@ + died + ")"@)
            &&& born.len() > 0 && died.len() > 0 ==> exists|i: int|
                1 <= i < parts.len() && has_prefix(#[trigger] parts[i], "("@ + born + "–"@ + died + ")"@)
        }),
{
    lemma_person_parts_shape(sd, claims, labels, countries, lang, loaded);
}

/// A man's description (sex or gender P21 is Q6581097) opens with `♂`, a
/// woman's (Q6581072) with `♀`; an item with both claims shows `♀` and then
/// `♂`.
pub proof fn lemma_person_sex_symbol(
    sd: ShortDescription,
    claims: Json,
    labels: spec_fn(u64) -> Seq<Seq<char>>,
    countries: Seq<Seq<char>>,
    lang: Seq<char>,
    loaded: Seq<(Seq<char>, WikiDataItem)>,
)
    ensures
        ({
            let parts = person_parts(sd, claims, labels, countries, lang, loaded);
            let male = has_link(claims, 21, 6581097);
            let female = has_link(claims, 21, 6581072);
            &&& male && !female ==> parts.len() >= 2 && parts[0] == "♂"@
            &&& female && !male ==> parts.len() >= 2 && parts[0] == "♀"@
            &&& male && female ==> parts.len() >= 3 && parts[0] == "♀"@ && parts[1] == "♂"@
        }),
{
    lemma_person_parts_shape(sd, claims, labels, countries, lang, loaded);
    let h0 = sex_symbols(claims);
    if has_link(claims, 21, 6581097) || has_link(claims, 21, 6581072) {
        assert(h0.len() > 0);
        assert(person_parts(sd, claims, labels, countries, lang, loaded)[0] == h0[0]);
    }
    if has_link(claims, 21, 6581097) && has_link(claims, 21, 6581072) {
        assert(person_parts(sd, claims, labels, countries, lang, loaded)[1] == h0[1]);
    }
}

/// With only a birth year, the finished description of a person shows
/// `(*born)`, when that text holds no two spaces in a row and no space
/// before a comma.
pub proof fn lemma_person_description_shows_birth(
    sd: ShortDescription,
    claims: Json,
    labels: spec_fn(u64) -> Seq<Seq<char>>,
    countries: Seq<Seq<char>>,
    lang: Seq<char>,
    loaded: Seq<(Seq<char>, WikiDataItem)>,
)
    requires
        year_text(claims, 569, lang, sd.stock@).len() > 0,
        year_text(claims, 570, lang, sd.stock@).len() == 0,
        crate::short_desc::word_helpers::no_double_space("(*"@ + year_text(claims, 569, lang, sd.stock@) + ")"@),
        crate::short_desc::word_helpers::no_space_before_comma(
            "(*"@ + year_text(claims, 569, lang, sd.stock@) + ")"@,
        ),
    ensures
        exists|p: Seq<char>, q: Seq<char>|
            person_description(sd, claims, labels, countries, lang, loaded) == p + ("(*"@ + year_text(
                claims,
                569,
                lang,
                sd.stock@,
            ) + ")"@) + q,
{
    lemma_person_description_shows_dates(sd, claims, labels, countries, lang, loaded);
}

/// The years of a generic description: the inception year (P571) comes as
/// `, <from> <year>` and the dissolution year (P576) as `, <until> <year>`,
/// with the stock texts `from` and `until` of the language, the inception
/// first.
pub proof fn lemma_generic_years(
    sd: ShortDescription,
    claims: Json,
    labels: spec_fn(u64) -> Seq<Seq<char>>,
    lang: Seq<char>,
    pop_label: Seq<char>,
    population: Option<Seq<char>>,
)
    ensures
        ({
            let stock = sd.stock@;
            let start = year_text(claims, 571, lang, stock);
            let end = year_text(claims, 576, lang, stock);
            let parts = generic_parts(sd, claims, labels, lang, pop_label, population);
            let from_part = ", "@ + stock_text(stock, "from"@, lang) + " "@ + start;
            let until_part = ", "@ + stock_text(stock, "until"@, lang) + " "@ + end;
            &&& start.len() > 0 ==> exists|i: int| 0 <= i < parts.len() && #[trigger] parts[i] == from_part
            &&& end.len() > 0 ==> exists|j: int| 0 <= j < parts.len() && #[trigger] parts[j] == until_part
            &&& start.len() > 0 && end.len() > 0 ==> exists|i: int|
                0 <= i < parts.len() - 1 && #[trigger] parts[i] == from_part && parts[i + 1] == until_part
        }),
{
    let stock = sd.stock@;
    let start = year_text(claims, 571, lang, stock);
    let end = year_text(claims, 576, lang, stock);
    let head = generic_head(sd, claims, labels, lang, pop_label, population);
    let h = generic_context(stock, generic_credits(stock, head, labels, lang), labels, lang);
    let h20 = with_year(stock, h, start, "from"@, lang);
    let h21 = with_year(stock, h20, end, "until"@, lang);
    let parts = located(stock, h21, labels(159), labels(495), "from"@, lang);
    assert(parts == generic_parts(sd, claims, labels, lang, pop_label, population));
    assert(parts.len() >= h21.len());
    assert(forall|k: int| 0 <= k < h21.len() ==> parts[k] == h21[k]);
    let from_part = ", "@ + stock_text(stock, "from"@, lang) + " "@ + start;
    let until_part = ", "@ + stock_text(stock, "until"@, lang) + " "@ + end;
    let k0 = h.len() as int;
    if start.len() > 0 {
        assert(h21[k0] == from_part);
        assert(parts[k0] == from_part);
    }
    if end.len() > 0 {
        let k1 = h20.len() as int;
        assert(h21[k1] == until_part);
        assert(parts[k1] == until_part);
        if start.len() > 0 {
            assert(k1 == k0 + 1);
            assert(parts[k0] == from_part && parts[k0 + 1] == until_part);
        }
    }
}

/// A taxon with a rank label and a named taxon is described as the rank,
/// then `of` (the stock text of the language), then the named taxon, in
/// that order; a scientific name closes it in brackets. The text is cleaned
/// of extra spaces and its first letter made upper case.
pub proof fn lemma_taxon_description_order(
    stock: Seq<(Seq<char>, crate::str_map::StrMap<String>)>,
    l0: Seq<Seq<char>>,
    name: Option<Seq<char>>,
    lang: Seq<char>,
)
    requires
        l0.len() >= 2,
    ensures
        exists|t: Seq<char>|
            taxon_description(stock, l0, name, lang) == Some(cleaned(uc_first_text(t))) && has_prefix(
                t,
                l0[0] + " "@ + stock_text(stock, "of"@, lang) + " "@ + l0[1],
            ) && (name matches Some(n) ==> crate::text::has_suffix(t, ", "@ + ("["@ + n + "]"@))),
{
    let first = l0[0] + " "@ + stock_text(stock, "of"@, lang) + " "@ + l0[1];
    match name {
        Some(n) => {
            let parts = seq![first, "["@ + n + "]"@];
            let t = seq_join(parts, ", "@);
            assert(parts.drop_last() =~= seq![first]);
            assert(seq_join(seq![first], ", "@) == first);
            let tail = ", "@ + ("["@ + n + "]"@);
            assert(t =~= first + tail);
            assert(t.subrange(0, first.len() as int) =~= first);
            assert(t.subrange(t.len() - tail.len(), t.len() as int) =~= tail);
            assert(taxon_description(stock, l0, name, lang) == Some(cleaned(uc_first_text(t))));
            assert(has_prefix(t, first) && crate::text::has_suffix(t, tail));
        },
        None => {
            let parts = seq![first];
            let t = seq_join(parts, ", "@);
            assert(t == first);
            assert(t.subrange(0, first.len() as int) =~= first);
            assert(taxon_description(stock, l0, name, lang) == Some(cleaned(uc_first_text(t))));
            assert(has_prefix(t, first));
        },
    }
}

/// The description of a person.
pub open spec fn person_description(
    sd: ShortDescription,
    claims: Json,
    labels: spec_fn(u64) -> Seq<Seq<char>>,
    countries: Seq<Seq<char>>,
    lang: Seq<char>,
    loaded: Seq<(Seq<char>, WikiDataItem)>,
) -> Seq<char> {
    cleaned(uc_first_text(seq_join(person_parts(sd, claims, labels, countries, lang, loaded), " "@)))
}

/// `h` with the text of a place: the stock text `key`, then the labels of
/// `a`, then those of `b`, each joined by ` / `.
pub open spec fn located(
    stock: Seq<(Seq<char>, crate::str_map::StrMap<String>)>,
    h: Seq<Seq<char>>,
    a: Seq<Seq<char>>,
    b: Seq<Seq<char>>,
    key: Seq<char>,
    lang: Seq<char>,
) -> Seq<Seq<char>> {
    let t = stock_text(stock, key, lang);
    if a.len() > 0 && b.len() > 0 {
        h.push(t + " "@ + seq_join(a, " / "@) + ", "@ + seq_join(b, " / "@))
    } else if a.len() > 0 {
        h.push(t + " "@ + seq_join(a, " / "@))
    } else if b.len() > 0 {
        h.push(t + " "@ + seq_join(b, " / "@))
    } else {
        h
    }
}

/// `h` with `, <stock text of key> <year>` when there is a year.
pub open spec fn with_year(
    stock: Seq<(Seq<char>, crate::str_map::StrMap<String>)>,
    h: Seq<Seq<char>>,
    year: Seq<char>,
    key: Seq<char>,
    lang: Seq<char>,
) -> Seq<Seq<char>> {
    if year.len() > 0 {
        h.push(", "@ + stock_text(stock, key, lang) + " "@ + year)
    } else {
        h
    }
}

/// The label of the population property, `population` when it is not
/// loaded.
pub open spec fn population_label(loaded: Seq<(Seq<char>, WikiDataItem)>, lang: Seq<char>) -> Seq<char> {
    match find(loaded, "P1082"@) {
        Some(item) => label_of(item.raw, Some(lang)),
        None => "population"@,
    }
}

/// The first parts of a generic description: publication year, kinds,
/// place and population (`population` is the population figure as shown).
pub open spec fn generic_head(
    sd: ShortDescription,
    claims: Json,
    labels: spec_fn(u64) -> Seq<Seq<char>>,
    lang: Seq<char>,
    pop_label: Seq<char>,
    population: Option<Seq<char>>,
) -> Seq<Seq<char>> {
    let stock = sd.stock@;
    let pubdate = year_text(claims, 577, lang, stock);
    let h1 = if pubdate.len() > 0 {
        seq![pubdate]
    } else {
        Seq::empty()
    };
    let h2 = with_labels(stock, h1, labels, seq![279u64, 31, 1269, 60, 105], no_hints(), None, None, lang);
    let a = labels(131);
    let b = labels(17);
    let h3 = if h2.len() == 0 && (a.len() > 0 || b.len() > 0) {
        h2.push(stock_text(stock, "location"@, lang))
    } else {
        h2
    };
    let h4 = located(stock, h3, a, b, "in"@, lang);
    match population {
        Some(best) => h4.push(", "@ + pop_label + " "@ + best),
        None => h4,
    }
}

/// The creators, producers, platforms, publishers, wholes, namesakes and
/// fields of a generic description, after `h`.
pub open spec fn generic_credits(
    stock: Seq<(Seq<char>, crate::str_map::StrMap<String>)>,
    h: Seq<Seq<char>>,
    labels: spec_fn(u64) -> Seq<Seq<char>>,
    lang: Seq<char>,
) -> Seq<Seq<char>> {
    let n = no_hints();
    let h6 = with_labels(stock, h, labels, seq![175u64, 86, 170, 57, 50, 61, 176], n, None, Some("by"@), lang);
    let h7 = with_labels(stock, h6, labels, seq![162u64], n, Some(","@), Some("produced by"@), lang);
    let h8 = with_labels(stock, h7, labels, seq![306u64, 400], n, None, Some("for"@), lang);
    let h9 = with_labels(stock, h8, labels, seq![264u64, 123], n, None, Some("from"@), lang);
    let h10 = with_labels(stock, h9, labels, seq![361u64], n, Some(","@), Some("part of"@), lang);
    let h11 = with_labels(stock, h10, labels, seq![138u64], n, Some(","@), Some("named after"@), lang);
    with_labels(stock, h11, labels, seq![425u64], n, Some(","@), Some("in the field of"@), lang)
}

/// The parent taxa, constellations, publications, times, taxa, worlds
/// and topics of a generic description, after `h`.
pub open spec fn generic_context(
    stock: Seq<(Seq<char>, crate::str_map::StrMap<String>)>,
    h: Seq<Seq<char>>,
    labels: spec_fn(u64) -> Seq<Seq<char>>,
    lang: Seq<char>,
) -> Seq<Seq<char>> {
    let n = no_hints();
    let h13 = with_labels(stock, h, labels, seq![171u64], n, None, Some("of"@), lang);
    let h14 = with_labels(stock, h13, labels, seq![59u64], n, None, Some("in the constellation"@), lang);
    let h15 = with_labels(stock, h14, labels, seq![1433u64], n, None, Some("published in"@), lang);
    let h16 = with_labels(stock, h15, labels, seq![585u64], n, None, Some("in"@), lang);
    let h17 = with_labels(stock, h16, labels, seq![703u64], n, None, Some("found_in"@), lang);
    let h18 = with_labels(stock, h17, labels, seq![1080u64, 1441], n, None, Some("from"@), lang);
    with_labels(stock, h18, labels, seq![921u64], n, None, Some("about"@), lang)
}

/// The years and origin of a generic description, after `h`.
pub open spec fn generic_tail(
    stock: Seq<(Seq<char>, crate::str_map::StrMap<String>)>,
    h: Seq<Seq<char>>,
    claims: Json,
    labels: spec_fn(u64) -> Seq<Seq<char>>,
    lang: Seq<char>,
) -> Seq<Seq<char>> {
    let h20 = with_year(stock, h, year_text(claims, 571, lang, stock), "from"@, lang);
    let h21 = with_year(stock, h20, year_text(claims, 576, lang, stock), "until"@, lang);
    located(stock, h21, labels(159), labels(495), "from"@, lang)
}

/// The parts of a generic description; `population` is the population
/// figure as shown.
pub open spec fn generic_parts(
    sd: ShortDescription,
    claims: Json,
    labels: spec_fn(u64) -> Seq<Seq<char>>,
    lang: Seq<char>,
    pop_label: Seq<char>,
    population: Option<Seq<char>>,
) -> Seq<Seq<char>> {
    let stock = sd.stock@;
    let head = generic_head(sd, claims, labels, lang, pop_label, population);
    generic_tail(stock, generic_context(stock, generic_credits(stock, head, labels, lang), labels, lang), claims, labels, lang)
}

/// The text for an item that cannot be described.
pub open spec fn cannot_describe_text(stock: Seq<(Seq<char>, crate::str_map::StrMap<String>)>, lang: Seq<char>) -> Seq<char> {
    "<i>"@ + stock_text(stock, "cannot_describe"@, lang) + "</i>"@
}

/// The description of an item that is no person, taxon or disambiguation
/// page.
pub open spec fn generic_description(
    sd: ShortDescription,
    claims: Json,
    labels: spec_fn(u64) -> Seq<Seq<char>>,
    lang: Seq<char>,
    pop_label: Seq<char>,
    population: Option<Seq<char>>,
) -> Seq<char> {
    let h = generic_parts(sd, claims, labels, lang, pop_label, population);
    if h.len() == 0 {
        cannot_describe_text(sd.stock@, lang)
    } else {
        cleaned(uc_first_text(seq_join(h, " "@)))
    }
}

/// The items of the claims of `props`, with their property.
fn collect_items(claims: &Json, props: &[u64]) -> (r: Vec<(u64, String)>)
    ensures
        pair_views(r@) == items_for(*claims, props@),
{
    let mut r: Vec<(u64, String)> = Vec::new();
    let mut i: usize = 0;
    assert(pair_views(r@) =~= items_for(*claims, props@.take(0)));
    while i < props.len()
        invariant
            i <= props@.len(),
            pair_views(r@) == items_for(*claims, props@.take(i as int)),
        decreases props.len() - i,
    {
        assert(props@.take(i + 1).drop_last() =~= props@.take(i as int));
        ShortDescription::add_items_from_claims(claims, props[i], &mut r);
        i = i + 1;
    }
    assert(props@.take(props@.len() as int) =~= props@);
    r
}

/// The nationality text of a person from the labels of its countries and
/// their ids.
fn nationality_text(
    sd: &ShortDescription,
    labels: &Vec<String>,
    countries: &Vec<String>,
    lang: &str,
    wd: &WikiData,
) -> (r: String)
    requires
        labels@.len() == countries@.len(),
    ensures
        r@ == nationality_line(*sd, views(labels@), views(countries@), lang@, wd@),
{
    let ghost ls = views(labels@);
    let ghost cs = views(countries@);
    let mut h2 = String::new();
    let mut k: usize = 0;
    assert(ls.take(0) =~= Seq::<Seq<char>>::empty());
    while k < labels.len()
        invariant
            ls == views(labels@),
            cs == views(countries@),
            labels@.len() == countries@.len(),
            k <= labels@.len(),
            h2@ == nationality_line(*sd, ls.take(k as int), cs.take(k as int), lang@, wd@),
        decreases labels.len() - k,
    {
        let ghost t = ls.take(k + 1);
        let ghost u = cs.take(k + 1);
        assert(t.drop_last() =~= ls.take(k as int));
        assert(u.drop_last() =~= cs.take(k as int));
        assert(t.last() == labels@[k as int]@);
        assert(u.last() == countries@[k as int]@);
        let (_full, before, inner, after) = ShortDescription::split_link(labels[k].as_str());
        let s = sd.get_nationality_from_country(inner.as_str(), Some(countries[k].as_str()), lang, wd);
        if k == 0 {
            let mut x = before;
            x.append(s.as_str());
            x.append(after.as_str());
            h2 = x;
        } else {
            let low = lowercase(s.as_str());
            h2.append("-");
            h2.append(before.as_str());
            h2.append(low.as_str());
            h2.append(after.as_str());
        }
        k = k + 1;
    }
    assert(ls.take(labels@.len() as int) =~= ls);
    assert(cs.take(labels@.len() as int) =~= cs);
    h2
}

/// The life years text.
fn life_dates_text(born: &str, died: &str) -> (r: Option<String>)
    ensures
        match r {
            Some(s) => life_dates(born@, died@) == Some(s@),
            None => life_dates(born@, died@) is None,
        },
{
    let b = born.unicode_len() > 0;
    let d = died.unicode_len() > 0;
    if b && d {
        let mut s = owned("(");
        s.append(born);
        s.append("–");
        s.append(died);
        s.append(")");
        Some(s)
    } else if b {
        let mut s = owned("(*");
        s.append(born);
        s.append(")");
        Some(s)
    } else if d {
        let mut s = owned("(†");
        s.append(died);
        s.append(")");
        Some(s)
    } else {
        None
    }
}

/// A list of strings and a fixed part joined by ` / `.
fn slash_joined(v: &Vec<String>) -> (r: String)
    ensures
        r@ == seq_join(views(v@), " / "@),
{
    join(v, " / ")
}

impl ShortDescription {
    /// The items a person description labels.
    pub fn person_load_items(claims: &Json) -> (r: Vec<(u64, String)>)
        ensures
            pair_views(r@) == items_for(*claims, person_props()),
    {
        let props = vec![106u64, 39, 27, 166, 31, 22, 25, 26, 463, 800];
        assert(props@ == person_props());
        collect_items(claims, props.as_slice())
    }

    /// The items a generic description labels.
    pub fn generic_load_items(claims: &Json) -> (r: Vec<(u64, String)>)
        ensures
            pair_views(r@) == items_for(*claims, generic_props()),
    {
        let props = vec![
            361u64, 279, 1269, 31, 60, 175, 86, 170, 57, 162, 50, 61, 17, 131, 495, 159, 306, 400, 176, 123, 264,
            105, 138, 171, 1433, 571, 576, 585, 703, 1080, 1441, 921, 425, 59, 1082,
        ];
        assert(props@ == generic_props());
        collect_items(claims, props.as_slice())
    }

    /// The kind of an item, by its claims.
    pub fn classify(claims: &Json) -> (r: ItemKind)
        ensures
            r == kind_of(*claims),
    {
        if Self::is_person(claims) {
            ItemKind::Person
        } else if Self::is_taxon(claims) {
            ItemKind::Taxon
        } else if Self::is_disambig(claims) {
            ItemKind::Disambiguation
        } else {
            ItemKind::Generic
        }
    }

    /// The plan for an item with these claims under these options.
    pub fn plan_description(claims: &Json, opt: &DescOptions) -> (r: DescriptionPlan)
        ensures
            r == description_plan(*claims, opt.mode@, opt.lang@),
    {
        if str_eq(opt.mode.as_str(), "long") && is_long_desc_available(opt.lang.as_str())
            && Self::is_person(claims) {
            DescriptionPlan::Long
        } else {
            DescriptionPlan::Short(Self::classify(claims))
        }
    }

    /// The text for an item that cannot be described.
    pub fn cannot_describe(&self, lang: &str) -> (r: String)
        ensures
            r@ == cannot_describe_text(self.stock@, lang@),
    {
        let mut r = owned("<i>");
        let t = self.txt("cannot_describe", lang);
        r.append(t.as_str());
        r.append("</i>");
        r
    }

    /// Split a link into the whole link, the part before its text, the text
    /// and the part after it; a plain text gives `("", "", text, "")`.
    pub fn split_link(v: &str) -> (r: (String, String, String, String))
        ensures
            match link_parts(v@) {
                Some((f, a, b, c)) => r.0@ == f && r.1@ == a && r.2@ == b && r.3@ == c,
                None => r.0@ == Seq::<char>::empty() && r.1@ == Seq::<char>::empty() && r.2@ == v@ && r.3@
                    == Seq::<char>::empty(),
            },
    {
        match crate::short_desc::word_helpers::split_link(v) {
            Some(t) => t,
            None => (String::new(), String::new(), owned(v), String::new()),
        }
    }

    /// Describe a person from its claims and the loaded labels of the items
    /// of `person_load_items(claims)`.
    #[verifier::rlimit(60)]
    pub fn describe_person(&self, q: &str, claims: &Json, opt: &DescOptions, wd: &WikiData) -> (r: (String, String))
        ensures
            r.0@ == q@,
            r.1@ == person_description(
                *self,
                *claims,
                item_label_fn(items_for(*claims, person_props()), wd@, *opt),
                item_ids_for(items_for(*claims, person_props()), wd@, *opt, 27),
                opt.lang@,
                wd@,
            ),
    {
        let load_items = Self::person_load_items(claims);
        let is_male = Self::has_pq(claims, 21, 6581097);
        let is_female = Self::has_pq(claims, 21, 6581072);
        let item_labels = self.label_items(load_items.as_slice(), opt, wd);
        let ghost labels = item_label_fn(items_for(*claims, person_props()), wd@, *opt);
        assert(label_fn(item_labels) =~= labels);
        let lang = opt.lang.as_str();
        let ghost stock = self.stock@;
        let mut h: Vec<String> = Vec::new();
        if is_female {
            h.push(owned("♀"));
        }
        if is_male {
            h.push(owned("♂"));
        }
        let ghost h0 = views(h@);
        assert(h0 =~= sex_symbols(*claims));

        let nationality_items = item_labels.get_owned(27);
        let countries = self.labelled_ids(load_items.as_slice(), opt, wd, 27);
        let ghost countries_v = item_ids_for(items_for(*claims, person_props()), wd@, *opt, 27);
        proof {
            lemma_collected_ids_len(
                label_ids_of(items_for(*claims, person_props())),
                items_for(*claims, person_props()),
                wd@,
                opt.lang@,
                opt.links@,
                opt.linktarget@,
                27,
            );
        }
        assert(views(nationality_items@).len() == views(countries@).len());
        let h2 = nationality_text(self, &nationality_items, &countries, lang, wd);
        if h2.unicode_len() > 0 {
            h.push(h2);
        }
        let ghost h1 = views(h@);
        assert(h1 =~= if nationality_line(*self, labels(27), countries_v, lang@, wd@).len() > 0 {
            h0.push(nationality_line(*self, labels(27), countries_v, lang@, wd@))
        } else {
            h0
        });

        let ol = h.len();
        let hints = WordHints { is_male, is_female, occupation: true };
        self.add_occupations(&mut h, &item_labels, &hints, lang);
        let ghost h2s = with_occupations(h1, labels, seq![31u64, 106], hints, lang@);
        assert(views(h@) == h2s);
        if h.len() == ol {
            h.push(self.txt("person", lang));
        }
        let ghost h3s = if h2s.len() == h1.len() {
            h2s.push(stock_text(stock, "person"@, lang@))
        } else {
            h2s
        };
        assert(views(h@) =~= h3s);
        let office_hints = WordHints { is_male, is_female, occupation: false };
        let p39 = vec![39u64];
        assert(p39@ == seq![39u64]);
        self.add2desc(&mut h, &item_labels, p39.as_slice(), &office_hints, Some(","), None, lang);
        let ghost h4s = with_labels(stock, h3s, labels, seq![39u64], office_hints, Some(","@), None, lang@);
        assert(views(h@) == h4s);

        let born = WikiData::get_year(claims, 569, lang, &self.stock);
        let died = WikiData::get_year(claims, 570, lang, &self.stock);
        match life_dates_text(born.as_str(), died.as_str()) {
            Some(d) => h.push(d),
            None => {},
        }
        let ghost h5s = push_opt(h4s, life_dates(year_text(*claims, 569, lang@, stock), year_text(*claims, 570, lang@, stock)));
        assert(views(h@) =~= h5s);
        let empty_hints = WordHints { is_male: false, is_female: false, occupation: false };
        assert(empty_hints == no_hints());
        let p166 = vec![166u64];
        assert(p166@ == seq![166u64]);
        self.add2desc(&mut h, &item_labels, p166.as_slice(), &empty_hints, Some(";"), None, lang);
        let ghost h8s = with_labels(stock, h5s, labels, seq![166u64], no_hints(), Some(";"@), None, lang@);
        assert(views(h@) == h8s);
        let p463 = vec![463u64];
        assert(p463@ == seq![463u64]);
        self.add2desc(&mut h, &item_labels, p463.as_slice(), &empty_hints, Some(";"), Some("member of"), lang);
        let ghost h9s = with_labels(stock, h8s, labels, seq![463u64], no_hints(), Some(";"@), Some("member of"@), lang@);
        assert(views(h@) == h9s);
        self.add2desc(&mut h, &item_labels, &[22u64, 25u64], &empty_hints, Some(";"), Some("child of"), lang);
        let ghost h10s = with_labels(stock, h9s, labels, seq![22u64, 25], no_hints(), Some(";"@), Some("child of"@), lang@);
        assert(views(h@) == h10s);
        let p26 = vec![26u64];
        assert(p26@ == seq![26u64]);
        self.add2desc(&mut h, &item_labels, p26.as_slice(), &empty_hints, Some(";"), Some("spouse of"), lang);
        let ghost h11s = with_labels(stock, h10s, labels, seq![26u64], no_hints(), Some(";"@), Some("spouse of"@), lang@);
        assert(views(h@) == h11s);
        let p800 = vec![800u64];
        assert(p800@ == seq![800u64]);
        self.add2desc(&mut h, &item_labels, p800.as_slice(), &empty_hints, Some(";"), Some("notable work"), lang);
        let ghost h12s = with_labels(stock, h11s, labels, seq![800u64], no_hints(), Some(";"@), Some("notable work"@), lang@);
        assert(views(h@) == h12s);
        assert(views(h@) =~= person_parts(*self, *claims, labels, countries_v, lang@, wd@));
        let joined = join(&h, " ");
        let up = uc_first(joined.as_str());
        (owned(q), clean_spaces(up.as_str()))
    }
}

impl ShortDescription {
    /// Append the occupations: the labels of instance-of and occupation,
    /// each in the form the hints ask for, joined by `, `.
    fn add_occupations(&self, h: &mut Vec<String>, item_labels: &LabelMap, hints: &WordHints, lang: &str)
        ensures
            views(final(h)@) == with_occupations(views(old(h)@), label_fn(*item_labels), seq![31u64, 106], *hints, lang@),
    {
        let a = item_labels.get_owned(31);
        let b = item_labels.get_owned(106);
        let ghost all = views(a@) + views(b@);
        assert(gathered(label_fn(*item_labels), seq![31u64, 106]) =~= all) by {
            let l = label_fn(*item_labels);
            assert(seq![31u64, 106].drop_last() =~= seq![31u64]);
            assert(seq![31u64].drop_last() =~= Seq::<u64>::empty());
            assert(gathered(l, Seq::<u64>::empty()) == Seq::<Seq<char>>::empty());
            assert(gathered(l, seq![31u64]) == gathered(l, Seq::<u64>::empty()) + l(31));
            assert(Seq::<Seq<char>>::empty() + views(a@) =~= views(a@));
            assert(gathered(l, seq![31u64]) == views(a@));
            assert(gathered(l, seq![31u64, 106]) == gathered(l, seq![31u64]) + l(106));
        }
        let ghost mw = all.map_values(|w: Seq<char>| modified_word(w, *hints, lang@));
        let mut words: Vec<String> = Vec::new();
        let mut i: usize = 0;
        while i < a.len()
            invariant
                i <= a.len(),
                all == views(a@) + views(b@),
                mw == all.map_values(|w: Seq<char>| modified_word(w, *hints, lang@)),
                views(words@) == mw.take(i as int),
            decreases a.len() - i,
        {
            let w = self.modify_word(a[i].as_str(), hints, lang);
            let ghost w0 = words@;
            words.push(w);
            assert(all[i as int] == a@[i as int]@);
            assert(views(words@) =~= mw.take(i + 1)) by {
                assert(views(words@) =~= views(w0).push(w@));
            }
            i = i + 1;
        }
        let mut k: usize = 0;
        while k < b.len()
            invariant
                k <= b.len(),
                all == views(a@) + views(b@),
                mw == all.map_values(|w: Seq<char>| modified_word(w, *hints, lang@)),
                views(words@) == mw.take(a.len() + k),
            decreases b.len() - k,
        {
            let w = self.modify_word(b[k].as_str(), hints, lang);
            let ghost w0 = words@;
            words.push(w);
            assert(all[a.len() + k] == b@[k as int]@);
            assert(views(words@) =~= mw.take(a.len() + k + 1)) by {
                assert(views(words@) =~= views(w0).push(w@));
            }
            k = k + 1;
        }
        assert(mw.take(a.len() + b.len()) =~= mw);
        if words.len() == 0 {
            return;
        }
        let joined = join(&words, ", ");
        h.push(joined);
    }

    /// Append the text of a place: the stock text `key`, then the labels
    /// of `a`, then those of `b`, each joined by ` / `.
    fn add_located(&self, h: &mut Vec<String>, a: &Vec<String>, b: &Vec<String>, key: &str, lang: &str)
        ensures
            views(final(h)@) == located(self.stock@, views(old(h)@), views(a@), views(b@), key@, lang@),
    {
        let ghost h0 = views(h@);
        if a.len() > 0 || b.len() > 0 {
            let mut x = self.txt(key, lang);
            x.append(" ");
            if a.len() > 0 && b.len() > 0 {
                let ja = slash_joined(a);
                let jb = slash_joined(b);
                x.append(ja.as_str());
                x.append(", ");
                x.append(jb.as_str());
            } else if a.len() > 0 {
                let ja = slash_joined(a);
                x.append(ja.as_str());
            } else {
                let jb = slash_joined(b);
                x.append(jb.as_str());
            }
            h.push(x);
            assert(views(h@) =~= h0.push(h@.last()@));
        }
    }

    /// Append `, <stock text of key> <year>` when there is a year.
    fn add_year(&self, h: &mut Vec<String>, year: &str, key: &str, lang: &str)
        ensures
            views(final(h)@) == with_year(self.stock@, views(old(h)@), year@, key@, lang@),
    {
        let ghost h0 = views(h@);
        if year.unicode_len() > 0 {
            let mut x = owned(", ");
            let t = self.txt(key, lang);
            x.append(t.as_str());
            x.append(" ");
            x.append(year);
            h.push(x);
            assert(views(h@) =~= h0.push(h@.last()@));
        }
    }

    /// The first parts of a generic description.
    #[verifier::rlimit(40)]
    fn generic_head_parts(
        &self,
        claims: &Json,
        item_labels: &LabelMap,
        lang: &str,
        wd: &WikiData,
        population: Option<&str>,
    ) -> (r: Vec<String>)
        ensures
            views(r@) == generic_head(
                *self,
                *claims,
                label_fn(*item_labels),
                lang@,
                population_label(wd@, lang@),
                match population {
                    Some(p) => Some(p@),
                    None => None,
                },
            ),
    {
        let ghost labels = label_fn(*item_labels);
        let ghost stock = self.stock@;
        let empty_hints = WordHints { is_male: false, is_female: false, occupation: false };
        assert(empty_hints == no_hints());
        let mut h: Vec<String> = Vec::new();
        let pubdate = WikiData::get_year(claims, 577, lang, &self.stock);
        if pubdate.unicode_len() > 0 {
            h.push(pubdate);
        }
        let ghost h1 = views(h@);
        let p_kinds = vec![279u64, 31, 1269, 60, 105];
        assert(p_kinds@ == seq![279u64, 31, 1269, 60, 105]);
        self.add2desc(&mut h, item_labels, p_kinds.as_slice(), &empty_hints, None, None, lang);
        let ghost h2 = views(h@);
        let in_units = item_labels.get_owned(131);
        let in_countries = item_labels.get_owned(17);
        if h.len() == 0 && (in_units.len() > 0 || in_countries.len() > 0) {
            h.push(self.txt("location", lang));
        }
        assert(views(h@) =~= if h2.len() == 0 && (labels(131).len() > 0 || labels(17).len() > 0) {
            h2.push(stock_text(stock, "location"@, lang@))
        } else {
            h2
        });
        self.add_located(&mut h, &in_units, &in_countries, "in", lang);
        let ghost h4 = views(h@);
        match population {
            Some(best) => {
                let pop_label = match wd.get_entity("P1082") {
                    Some(item) => item.get_label(Some(lang)),
                    None => owned("population"),
                };
                let mut x = owned(", ");
                x.append(pop_label.as_str());
                x.append(" ");
                x.append(best);
                h.push(x);
                assert(views(h@) =~= h4.push(", "@ + population_label(wd@, lang@) + " "@ + best@));
            },
            None => {},
        }
        h
    }

    /// Append the creators, producers, platforms, publishers, wholes,
    /// namesakes and fields.
    #[verifier::rlimit(40)]
    fn add_credits(&self, h: &mut Vec<String>, item_labels: &LabelMap, lang: &str)
        ensures
            views(final(h)@) == generic_credits(self.stock@, views(old(h)@), label_fn(*item_labels), lang@),
    {
        let empty_hints = WordHints { is_male: false, is_female: false, occupation: false };
        assert(empty_hints == no_hints());
        let p_by = vec![175u64, 86, 170, 57, 50, 61, 176];
        assert(p_by@ == seq![175u64, 86, 170, 57, 50, 61, 176]);
        self.add2desc(h, item_labels, p_by.as_slice(), &empty_hints, None, Some("by"), lang);
        let p162 = vec![162u64];
        assert(p162@ == seq![162u64]);
        self.add2desc(h, item_labels, p162.as_slice(), &empty_hints, Some(","), Some("produced by"), lang);
        let p_for = vec![306u64, 400];
        assert(p_for@ == seq![306u64, 400]);
        self.add2desc(h, item_labels, p_for.as_slice(), &empty_hints, None, Some("for"), lang);
        let p_from = vec![264u64, 123];
        assert(p_from@ == seq![264u64, 123]);
        self.add2desc(h, item_labels, p_from.as_slice(), &empty_hints, None, Some("from"), lang);
        let p361 = vec![361u64];
        assert(p361@ == seq![361u64]);
        self.add2desc(h, item_labels, p361.as_slice(), &empty_hints, Some(","), Some("part of"), lang);
        let p138 = vec![138u64];
        assert(p138@ == seq![138u64]);
        self.add2desc(h, item_labels, p138.as_slice(), &empty_hints, Some(","), Some("named after"), lang);
        let p425 = vec![425u64];
        assert(p425@ == seq![425u64]);
        self.add2desc(h, item_labels, p425.as_slice(), &empty_hints, Some(","), Some("in the field of"), lang);
    }

    /// Append the parent taxa, constellations, publications, times, taxa,
    /// worlds and topics.
    #[verifier::rlimit(40)]
    fn add_context(&self, h: &mut Vec<String>, item_labels: &LabelMap, lang: &str)
        ensures
            views(final(h)@) == generic_context(self.stock@, views(old(h)@), label_fn(*item_labels), lang@),
    {
        let empty_hints = WordHints { is_male: false, is_female: false, occupation: false };
        assert(empty_hints == no_hints());
        let p171 = vec![171u64];
        assert(p171@ == seq![171u64]);
        self.add2desc(h, item_labels, p171.as_slice(), &empty_hints, None, Some("of"), lang);
        let p59 = vec![59u64];
        assert(p59@ == seq![59u64]);
        self.add2desc(h, item_labels, p59.as_slice(), &empty_hints, None, Some("in the constellation"), lang);
        let p1433 = vec![1433u64];
        assert(p1433@ == seq![1433u64]);
        self.add2desc(h, item_labels, p1433.as_slice(), &empty_hints, None, Some("published in"), lang);
        let p585 = vec![585u64];
        assert(p585@ == seq![585u64]);
        self.add2desc(h, item_labels, p585.as_slice(), &empty_hints, None, Some("in"), lang);
        let p703 = vec![703u64];
        assert(p703@ == seq![703u64]);
        self.add2desc(h, item_labels, p703.as_slice(), &empty_hints, None, Some("found_in"), lang);
        let p_uni = vec![1080u64, 1441];
        assert(p_uni@ == seq![1080u64, 1441]);
        self.add2desc(h, item_labels, p_uni.as_slice(), &empty_hints, None, Some("from"), lang);
        let p921 = vec![921u64];
        assert(p921@ == seq![921u64]);
        self.add2desc(h, item_labels, p921.as_slice(), &empty_hints, None, Some("about"), lang);
    }

    /// Describe an item that is no person, taxon or disambiguation page,
    /// from its claims and the loaded labels of the items of
    /// `generic_load_items(claims)`; `population` is the population figure
    /// as shown, when the item has one.
    pub fn describe_generic(
        &self,
        q: &str,
        claims: &Json,
        opt: &DescOptions,
        wd: &WikiData,
        population: Option<&str>,
    ) -> (r: (String, String))
        ensures
            r.0@ == q@,
            r.1@ == generic_description(
                *self,
                *claims,
                item_label_fn(items_for(*claims, generic_props()), wd@, *opt),
                opt.lang@,
                population_label(wd@, opt.lang@),
                match population {
                    Some(p) => Some(p@),
                    None => None,
                },
            ),
    {
        let load_items = Self::generic_load_items(claims);
        let item_labels = self.label_items(load_items.as_slice(), opt, wd);
        let ghost labels = item_label_fn(items_for(*claims, generic_props()), wd@, *opt);
        assert(label_fn(item_labels) =~= labels);
        let lang = opt.lang.as_str();
        let mut h = self.generic_head_parts(claims, &item_labels, lang, wd, population);
        self.add_credits(&mut h, &item_labels, lang);
        self.add_context(&mut h, &item_labels, lang);
        let inception = WikiData::get_year(claims, 571, lang, &self.stock);
        self.add_year(&mut h, inception.as_str(), "from", lang);
        let until = WikiData::get_year(claims, 576, lang, &self.stock);
        self.add_year(&mut h, until.as_str(), "until", lang);
        let hq = item_labels.get_owned(159);
        let origin = item_labels.get_owned(495);
        self.add_located(&mut h, &hq, &origin, "from", lang);
        if h.len() == 0 {
            return (owned(q), self.cannot_describe(lang));
        }
        let joined = join(&h, " ");
        let up = uc_first(joined.as_str());
        (owned(q), clean_spaces(up.as_str()))
    }
}

/// The SPARQL query for the taxon chain of `q`, labels in `lang`.
pub open spec fn taxon_sparql(q: Seq<char>, lang: Seq<char>) -> Seq<char> {
    "SELECT ?taxon ?taxonRank ?taxonRankLabel ?parentTaxon ?taxonLabel ?taxonName { wd:"@ + q
        + " wdt:P171* ?taxon . ?taxon wdt:P171 ?parentTaxon . ?taxon wdt:P225 ?taxonName . ?taxon wdt:P105 ?taxonRank . SERVICE wikibase:label { bd:serviceParam wikibase:language \"[AUTO_LANGUAGE],"@
        + lang + "\". } }"@
}

/// The URL that asks the query service for the taxon chain of `q`.
pub open spec fn taxon_query_url_text(q: Seq<char>, lang: Seq<char>) -> Seq<char> {
    "https://query.wikidata.org/bigdata/namespace/wdq/sparql?format=json&query="@ + percent_encoded(
        encode_utf8(taxon_sparql(q, lang)),
    )
}

/// `entity/` starts at `k`, after at least one character and no line feed.
pub open spec fn entity_at(s: Seq<char>, k: int) -> bool {
    &&& 1 <= k && k + 7 <= s.len()
    &&& s[k] == 'e' && s[k + 1] == 'n' && s[k + 2] == 't' && s[k + 3] == 'i' && s[k + 4] == 't' && s[k + 5]
        == 'y' && s[k + 6] == '/'
    &&& crate::short_desc::word_helpers::no_newline(s.subrange(0, k))
}

/// The first place from `k` on where `entity/` ends the entity URL prefix.
pub open spec fn first_entity_at(s: Seq<char>, k: int) -> Option<int>
    decreases s.len() - k,
{
    if k < 0 || k >= s.len() {
        None
    } else if entity_at(s, k) {
        Some(k)
    } else {
        first_entity_at(s, k + 1)
    }
}

/// An entity URL without its prefix up to the first `entity/`
/// (`^.+?entity/` replaced by nothing).
pub open spec fn strip_entity(s: Seq<char>) -> Seq<char> {
    match first_entity_at(s, 1) {
        Some(k) => s.skip(k + 7),
        None => s,
    }
}

/// The text of the `value` of a query result field.
pub open spec fn bval(b: Json, field: Seq<char>) -> Option<Seq<char>> {
    jstr(jget(jget(Some(b), field), "value"@))
}

/// The text of the `value` of a query result field, `""` without one.
pub open spec fn bval_or_empty(b: Json, field: Seq<char>) -> Seq<char> {
    match bval(b, field) {
        Some(s) => s,
        None => Seq::empty(),
    }
}

/// The taxon id of a query result row.
pub open spec fn binding_taxon(b: Json) -> Seq<char> {
    strip_entity(bval_or_empty(b, "taxon"@))
}

/// The rank id of a query result row.
pub open spec fn binding_rank(b: Json) -> Seq<char> {
    strip_entity(bval_or_empty(b, "taxonRank"@))
}

/// The place of a taxon rank, from variety (0) to kingdom (8).
pub open spec fn rank_index(q: Seq<char>) -> Option<nat> {
    if q == "Q767728"@ {
        Some(0)
    } else if q == "Q68947"@ {
        Some(1)
    } else if q == "Q7432"@ {
        Some(2)
    } else if q == "Q34740"@ {
        Some(3)
    } else if q == "Q35409"@ {
        Some(4)
    } else if q == "Q36602"@ {
        Some(5)
    } else if q == "Q37517"@ {
        Some(6)
    } else if q == "Q38348"@ {
        Some(7)
    } else if q == "Q36732"@ {
        Some(8)
    } else {
        None
    }
}

/// The rows of a query answer.
pub open spec fn taxon_bindings(body: Json) -> Seq<Json> {
    jarr_or_empty(jget(jget(Some(body), "results"@), "bindings"@))
}

/// The ranks of the rows about `q` itself, as items of property 0.
pub open spec fn own_ranks(q: Seq<char>, bs: Seq<Json>) -> Seq<(u64, Seq<char>)>
    decreases bs.len(),
{
    if bs.len() == 0 {
        Seq::empty()
    } else {
        own_ranks(q, bs.drop_last()) + if binding_taxon(bs.last()) == q {
            seq![(0u64, binding_rank(bs.last()))]
        } else {
            Seq::empty()
        }
    }
}

/// The scientific name in the last row about `q` that has one.
pub open spec fn own_name(q: Seq<char>, bs: Seq<Json>) -> Option<Seq<char>>
    decreases bs.len(),
{
    if bs.len() == 0 {
        None
    } else if binding_taxon(bs.last()) == q && bval(bs.last(), "taxonName"@) is Some {
        bval(bs.last(), "taxonName"@)
    } else {
        own_name(q, bs.drop_last())
    }
}

/// The last row whose rank has place `idx`.
pub open spec fn rank_binding(bs: Seq<Json>, idx: nat) -> Option<Json>
    decreases bs.len(),
{
    if bs.len() == 0 {
        None
    } else if rank_index(binding_rank(bs.last())) == Some(idx) {
        Some(bs.last())
    } else {
        rank_binding(bs.drop_last(), idx)
    }
}

/// A row whose label is not its scientific name (ignoring case).
pub open spec fn named_apart(b: Json) -> bool {
    to_lower(bval_or_empty(b, "taxonLabel"@)) != to_lower(bval_or_empty(b, "taxonName"@))
}

/// The taxon of the lowest rank, from place `idx` on, whose label is not
/// its scientific name.
pub open spec fn first_named_apart(bs: Seq<Json>, idx: nat) -> Option<Seq<char>>
    decreases 9 - idx,
{
    if idx >= 9 {
        None
    } else {
        match rank_binding(bs, idx) {
            Some(b) => if named_apart(b) {
                Some(binding_taxon(b))
            } else {
                first_named_apart(bs, idx + 1)
            },
            None => first_named_apart(bs, idx + 1),
        }
    }
}

/// The items a taxon description labels: the ranks of `q`, then the
/// lowest-ranked taxon with a common name.
pub open spec fn taxon_items(q: Seq<char>, body: Json) -> Seq<(u64, Seq<char>)> {
    let bs = taxon_bindings(body);
    own_ranks(q, bs) + match first_named_apart(bs, 0) {
        Some(t) => seq![(0u64, t)],
        None => Seq::empty(),
    }
}

/// The description of a taxon from the labels of its items: its rank, `of`
/// the named taxon, and the scientific name in brackets; nothing without
/// labels.
pub open spec fn taxon_description(
    stock: Seq<(Seq<char>, crate::str_map::StrMap<String>)>,
    l0: Seq<Seq<char>>,
    name: Option<Seq<char>>,
    lang: Seq<char>,
) -> Option<Seq<char>> {
    if l0.len() == 0 {
        None
    } else {
        let first = if l0.len() >= 2 {
            l0[0] + " "@ + stock_text(stock, "of"@, lang) + " "@ + l0[1]
        } else {
            l0[0]
        };
        let parts = match name {
            Some(n) => seq![first, "["@ + n + "]"@],
            None => seq![first],
        };
        Some(cleaned(uc_first_text(seq_join(parts, ", "@))))
    }
}

/// The place of a taxon rank, from variety (0) to kingdom (8).
pub fn taxon_rank_index(q: &str) -> (r: Option<usize>)
    ensures
        match r {
            Some(i) => rank_index(q@) == Some(i as nat),
            None => rank_index(q@) is None,
        },
{
    if str_eq(q, "Q767728") {
        Some(0)
    } else if str_eq(q, "Q68947") {
        Some(1)
    } else if str_eq(q, "Q7432") {
        Some(2)
    } else if str_eq(q, "Q34740") {
        Some(3)
    } else if str_eq(q, "Q35409") {
        Some(4)
    } else if str_eq(q, "Q36602") {
        Some(5)
    } else if str_eq(q, "Q37517") {
        Some(6)
    } else if str_eq(q, "Q38348") {
        Some(7)
    } else if str_eq(q, "Q36732") {
        Some(8)
    } else {
        None
    }
}

/// The URL that asks the query service for the taxon chain of `q`.
pub fn taxon_query_url(q: &str, lang: &str) -> (r: String)
    ensures
        r@ == taxon_query_url_text(q@, lang@),
{
    let mut sparql = owned("SELECT ?taxon ?taxonRank ?taxonRankLabel ?parentTaxon ?taxonLabel ?taxonName { wd:");
    sparql.append(q);
    sparql.append(
        " wdt:P171* ?taxon . ?taxon wdt:P171 ?parentTaxon . ?taxon wdt:P225 ?taxonName . ?taxon wdt:P105 ?taxonRank . SERVICE wikibase:label { bd:serviceParam wikibase:language \"[AUTO_LANGUAGE],",
    );
    sparql.append(lang);
    sparql.append("\". } }");
    let enc = url_encode(sparql.as_str());
    let mut r = owned("https://query.wikidata.org/bigdata/namespace/wdq/sparql?format=json&query=");
    r.append(enc.as_str());
    r
}

/// An entity URL without its prefix up to the first `entity/`.
pub fn strip_entity_prefix(s: &str) -> (r: String)
    ensures
        r@ == strip_entity(s@),
{
    let n = s.unicode_len();
    let mut k: usize = 1;
    let mut clean: bool = n == 0 || s.get_char(0) != '\n';
    assert(s@.subrange(0, 0) =~= Seq::<char>::empty());
    if n == 0 {
        return owned(s);
    }
    assert(s@.subrange(0, 1) =~= seq![s@[0]]);
    assert(s@.subrange(0, 1)[0] == s@[0]);
    assert(clean == crate::short_desc::word_helpers::no_newline(s@.subrange(0, 1)));
    while k < n
        invariant
            n == s@.len(),
            1 <= k <= n,
            clean == crate::short_desc::word_helpers::no_newline(s@.subrange(0, k as int)),
            first_entity_at(s@, 1) == first_entity_at(s@, k as int),
        decreases n - k,
    {
        if clean && n - k >= 7 && s.get_char(k) == 'e' && s.get_char(k + 1) == 'n' && s.get_char(k + 2) == 't'
            && s.get_char(k + 3) == 'i' && s.get_char(k + 4) == 't' && s.get_char(k + 5) == 'y' && s.get_char(k + 6)
            == '/' {
            assert(entity_at(s@, k as int));
            return owned(s.substring_char(k + 7, n));
        }
        assert(!entity_at(s@, k as int));
        let c = s.get_char(k);
        assert(s@.subrange(0, k + 1) =~= s@.subrange(0, k as int).push(c));
        proof {
            lemma_no_newline_push(s@.subrange(0, k as int), c);
        }
        clean = clean && c != '\n';
        k = k + 1;
    }
    owned(s)
}

proof fn lemma_no_newline_push(s: Seq<char>, c: char)
    ensures
        crate::short_desc::word_helpers::no_newline(s.push(c)) == (crate::short_desc::word_helpers::no_newline(s)
            && c != '\n'),
{
    if crate::short_desc::word_helpers::no_newline(s.push(c)) {
        assert(s.push(c)[s.len() as int] == c);
        assert forall|i: int| 0 <= i < s.len() implies s[i] != '\n' by {
            assert(s.push(c)[i] == s[i]);
        }
    }
}

/// The text of the `value` of a query result field, `""` without one.
fn binding_value<'a>(b: &'a Json, field: &str) -> (r: &'a str)
    ensures
        r@ == bval_or_empty(*b, field@),
{
    proof {
        reveal_strlit("");
    }
    match opt_str(opt_get(b.get(field), "value")) {
        Some(s) => s,
        None => "",
    }
}

impl ShortDescription {
    /// The items a taxon description labels, from the query answer `body`
    /// about the taxon chain of `q`, and the scientific name of `q`.
    #[verifier::rlimit(60)]
    pub fn taxon_plan(q: &str, body: &Json) -> (r: (Vec<(u64, String)>, Option<String>))
        ensures
            pair_views(r.0@) == taxon_items(q@, *body),
            match r.1 {
                Some(n) => own_name(q@, taxon_bindings(*body)) == Some(n@),
                None => own_name(q@, taxon_bindings(*body)) is None,
            },
    {
        let empty: Vec<Json> = Vec::new();
        let bindings: &Vec<Json> = match opt_array(opt_get(body.get("results"), "bindings")) {
            Some(a) => a,
            None => &empty,
        };
        let ghost bs = bindings@;
        assert(bs == taxon_bindings(*body));
        let mut load: Vec<(u64, String)> = Vec::new();
        let mut name: Option<String> = None;
        let mut cache: Vec<Option<usize>> = vec![None, None, None, None, None, None, None, None, None];
        let mut i: usize = 0;
        assert(bs.take(0) =~= Seq::<Json>::empty());
        assert(pair_views(load@) =~= own_ranks(q@, bs.take(0)));
        while i < bindings.len()
            invariant
                bs == bindings@,
                bs == taxon_bindings(*body),
                i <= bs.len(),
                cache@.len() == 9,
                pair_views(load@) == own_ranks(q@, bs.take(i as int)),
                match name {
                    Some(n) => own_name(q@, bs.take(i as int)) == Some(n@),
                    None => own_name(q@, bs.take(i as int)) is None,
                },
                forall|idx: int|
                    0 <= idx < 9 ==> match #[trigger] cache@[idx] {
                        Some(j) => j < i && rank_binding(bs.take(i as int), idx as nat) == Some(bs[j as int]),
                        None => rank_binding(bs.take(i as int), idx as nat) is None,
                    },
            decreases bindings.len() - i,
        {
            let ghost t = bs.take(i + 1);
            assert(t.drop_last() =~= bs.take(i as int));
            assert(t.last() == bs[i as int]);
            let b = &bindings[i];
            let taxon_q = strip_entity_prefix(binding_value(b, "taxon"));
            let taxon_rank = strip_entity_prefix(binding_value(b, "taxonRank"));
            if str_eq(taxon_q.as_str(), q) {
                let ghost prev = load@;
                let ghost rv = taxon_rank@;
                load.push((0, taxon_rank.clone()));
                assert(pair_views(load@) =~= pair_views(prev).push((0u64, rv)));
                assert(own_ranks(q@, t) =~= own_ranks(q@, bs.take(i as int)).push((0u64, rv)));
                match opt_str(opt_get(b.get("taxonName"), "value")) {
                    Some(tn) => {
                        name = Some(owned(tn));
                    },
                    None => {},
                }
            } else {
                assert(own_ranks(q@, t) =~= own_ranks(q@, bs.take(i as int)));
            }
            match taxon_rank_index(taxon_rank.as_str()) {
                Some(idx) => {
                    cache.set(idx, Some(i));
                },
                None => {},
            }
            assert forall|idx: int|
                0 <= idx < 9 implies match #[trigger] cache@[idx] {
                    Some(j) => j < i + 1 && rank_binding(t, idx as nat) == Some(bs[j as int]),
                    None => rank_binding(t, idx as nat) is None,
                } by {}
            i = i + 1;
        }
        assert(bs.take(bs.len() as int) =~= bs);
        let ghost own = pair_views(load@);
        assert(own == own_ranks(q@, bs));
        let mut idx: usize = 0;
        while idx < 9
            invariant
                bs == bindings@,
                bs == taxon_bindings(*body),
                own == own_ranks(q@, bs),
                match name {
                    Some(n) => own_name(q@, bs) == Some(n@),
                    None => own_name(q@, bs) is None,
                },
                cache@.len() == 9,
                idx <= 9,
                pair_views(load@) == own,
                first_named_apart(bs, 0) == first_named_apart(bs, idx as nat),
                forall|k: int|
                    0 <= k < 9 ==> match #[trigger] cache@[k] {
                        Some(j) => j < bs.len() && rank_binding(bs, k as nat) == Some(bs[j as int]),
                        None => rank_binding(bs, k as nat) is None,
                    },
            decreases 9 - idx,
        {
            match cache[idx] {
                Some(j) => {
                    let b = &bindings[j];
                    let label = lowercase(binding_value(b, "taxonLabel"));
                    let sci = lowercase(binding_value(b, "taxonName"));
                    if !str_eq(label.as_str(), sci.as_str()) {
                        let taxon_q = strip_entity_prefix(binding_value(b, "taxon"));
                        let ghost tv = taxon_q@;
                        load.push((0, taxon_q));
                        assert(pair_views(load@) =~= own.push((0u64, tv)));
                        assert(pair_views(load@) =~= taxon_items(q@, *body));
                        return (load, name);
                    }
                },
                None => {},
            }
            idx = idx + 1;
        }
        assert(pair_views(load@) =~= taxon_items(q@, *body));
        (load, name)
    }

    /// Describe a taxon from the loaded labels of the items of
    /// `taxon_plan` and its scientific name; nothing when the items have no
    /// label (the description then falls back to a generic one).
    pub fn describe_taxon(
        &self,
        q: &str,
        items: &[(u64, String)],
        taxon_name: Option<&str>,
        opt: &DescOptions,
        wd: &WikiData,
    ) -> (r: Option<(String, String)>)
        ensures
            match r {
                Some(t) => t.0@ == q@ && taxon_description(
                    self.stock@,
                    item_labels_0(pair_views(items@), wd@, *opt),
                    match taxon_name {
                        Some(n) => Some(n@),
                        None => None,
                    },
                    opt.lang@,
                ) == Some(t.1@),
                None => taxon_description(
                    self.stock@,
                    item_labels_0(pair_views(items@), wd@, *opt),
                    match taxon_name {
                        Some(n) => Some(n@),
                        None => None,
                    },
                    opt.lang@,
                ) is None,
            },
    {
        let lm = self.label_items(items, opt, wd);
        let labels_0 = lm.get_owned(0);
        let ghost l0 = item_labels_0(pair_views(items@), wd@, *opt);
        assert(views(labels_0@) == l0);
        if labels_0.len() == 0 {
            return None;
        }
        assert(labels_0@[0]@ == l0[0]);
        assert(labels_0.len() >= 2 ==> labels_0@[1]@ == l0[1]);
        let mut first = labels_0[0].clone();
        if labels_0.len() >= 2 {
            first.append(" ");
            let of = self.txt("of", opt.lang.as_str());
            first.append(of.as_str());
            first.append(" ");
            first.append(labels_0[1].as_str());
        }
        let mut parts: Vec<String> = Vec::new();
        parts.push(first);
        match taxon_name {
            Some(n) => {
                let mut x = owned("[");
                x.append(n);
                x.append("]");
                parts.push(x);
            },
            None => {},
        }
        assert(views(parts@) =~= match taxon_name {
            Some(n) => seq![parts@[0]@, "["@ + n@ + "]"@],
            None => seq![parts@[0]@],
        });
        let joined = join(&parts, ", ");
        let up = uc_first(joined.as_str());
        Some((owned(q), clean_spaces(up.as_str())))
    }
}

/// The labels of property 0 that `items` get.
pub open spec fn item_labels_0(
    items: Seq<(u64, Seq<char>)>,
    loaded: Seq<(Seq<char>, WikiDataItem)>,
    opt: DescOptions,
) -> Seq<Seq<char>> {
    crate::short_desc::labeler::item_labels(items, loaded, opt, 0)
}

} // verus!
