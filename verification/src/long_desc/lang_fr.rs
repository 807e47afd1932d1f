//! The French long description.

use vstd::prelude::*;
use crate::json::Json;
use crate::long_desc::{Flags, FragView, LangConfig, LongDescState, claims_of, dated_items, first_claim_date, first_claim_date_of, first_item, first_string, flags_of, frags, get_claim_item_ids, get_first_claim_item, get_first_claim_string, has_claims, has_first_claim, it, subject_of, tx};
use crate::long_desc::render::{LongLang, bold_text, date_frags, dated_items_with, dated_sentence_frags, get_main_title_label, get_work_fields, main_title_label, opt_item_frags, parents_frags, push_bold_title, push_date, push_dated_sentence, push_opt_item, push_parents, push_sentence, push_simple_list, push_spouse_sentence, sentence_frags, simple_list_frags, spouse_sentence_frags, work_fields, occupation_frags, push_gendered_occupations, rendered_date, render_date};
use crate::long_desc::WdDate;
use crate::long_desc::render::{country_label, parse_time, time_parts};

use crate::short_desc::ShortDescription;
use crate::text::{concat2, concat3, owned, to_lower, views};
use crate::wikidata::WikiData;
use crate::wikidata_item::{WikiDataItem, item_ids};

verus! {

/// French pronouns and forms of "to be".
pub open spec fn config() -> LangConfig {
    LangConfig {
        pronoun_subject_male: "Il",
        pronoun_possessive_male: "Son",
        pronoun_subject_female: "Elle",
        pronoun_possessive_female: "Son",
        pronoun_subject_neutral: "Il",
        pronoun_possessive_neutral: "Son",
        be_present_singular: "est",
        be_past_singular: "était",
        be_present_neutral: "est",
        be_past_neutral: "était",
    }
}

/// French pronouns and forms of "to be".
pub fn cfg() -> (r: LangConfig)
    ensures
        r == config(),
{
    LangConfig {
        pronoun_subject_male: "Il",
        pronoun_possessive_male: "Son",
        pronoun_subject_female: "Elle",
        pronoun_possessive_female: "Son",
        pronoun_subject_neutral: "Il",
        pronoun_possessive_neutral: "Son",
        be_present_singular: "est",
        be_past_singular: "était",
        be_present_neutral: "est",
        be_past_neutral: "était",
    }
}

/// The fragments of the country at `k`: its label, all but the first in
/// lower case and after `-`, each followed by a space.
pub open spec fn country_entry(qs: Seq<Seq<char>>, k: int, lang: Seq<char>, loaded: Seq<(Seq<char>, WikiDataItem)>) -> Seq<
    FragView,
> {
    let label = country_label(loaded, qs[k], lang);
    (if k > 0 {
        seq![tx("-"@), tx(to_lower(label))]
    } else {
        seq![tx(label)]
    }) + seq![tx(" "@)]
}

/// The fragments of the first `k` countries.
pub open spec fn countries_upto(
    qs: Seq<Seq<char>>,
    lang: Seq<char>,
    loaded: Seq<(Seq<char>, WikiDataItem)>,
    k: nat,
) -> Seq<FragView>
    decreases k,
{
    if k == 0 {
        Seq::empty()
    } else {
        countries_upto(qs, lang, loaded, (k - 1) as nat) + country_entry(qs, k - 1, lang, loaded)
    }
}

/// Append the labels of the countries.
fn push_countries(state: &mut LongDescState, qs: &Vec<String>, wd: &WikiData)
    ensures
        flags_of(*final(state)) == flags_of(*old(state)),
        frags(*final(state)) == frags(*old(state)) + countries_upto(views(qs@), old(state).lang@, wd@, qs@.len() as nat),
{
    let ghost s0 = frags(*state);
    let ghost lang = state.lang@;
    let mut k: usize = 0;
    assert(s0 + countries_upto(views(qs@), lang, wd@, 0) =~= s0);
    while k < qs.len()
        invariant
            k <= qs@.len(),
            lang == old(state).lang@,
            flags_of(*state) == flags_of(*old(state)),
            frags(*state) == s0 + countries_upto(views(qs@), lang, wd@, k as nat),
        decreases qs.len() - k,
    {
        let ghost before = frags(*state);
        let q = qs[k].as_str();
        assert(views(qs@)[k as int] == q@);
        let label = match wd.get_entity(q) {
            Some(item) => item.get_label(Some(state.lang.as_str())),
            None => String::new(),
        };
        if k > 0 {
            state.push_text("-");
            let low = crate::text::lowercase(label.as_str());
            state.push_text(low.as_str());
        } else {
            state.push_text(label.as_str());
        }
        state.push_text(" ");
        assert(frags(*state) =~= before + country_entry(views(qs@), k as int, lang, wd@));
        k = k + 1;
    }
}

/// The opening of the first sentence: name, occupations (gendered where
/// known) and countries; nothing when there are neither countries nor
/// occupations.
pub open spec fn first_head(
    f: Flags,
    q: Seq<char>,
    claims: Json,
    sd: ShortDescription,
    loaded: Seq<(Seq<char>, WikiDataItem)>,
) -> Seq<FragView> {
    let nats = item_ids(claims_of(claims, "P27"@));
    let occs = item_ids(claims_of(claims, "P106"@));
    if nats.len() == 0 && occs.len() == 0 {
        Seq::empty()
    } else {
        seq![
            tx(bold_text(f, main_title_label(q, loaded, f.lang))),
            tx(
                "est "@ + (if f.is_male {
                    "un "@
                } else {
                    "une "@
                }),
            ),
        ] + occupation_frags(LongLang::Fr, f, occs, loaded) + countries_upto(nats, f.lang, loaded, nats.len())
            + seq![tx(". "@)]
    }
}

/// The year of a date, `""` when its time cannot be read.
pub open spec fn bare_year(d: (Seq<char>, u64)) -> Seq<char> {
    match time_parts(d.0) {
        Some(tp) => tp.year,
        None => Seq::empty(),
    }
}

/// The year of a date, `""` when its time cannot be read.
fn bare_year_of(d: &WdDate) -> (r: String)
    ensures
        r@ == bare_year((d.time@, d.precision)),
{
    match parse_time(d.time.as_str()) {
        Some((_, y, _, _)) => y,
        None => String::new(),
    }
}

/// Active, for a woman or a man.
pub open spec fn active(f: Flags) -> Seq<char> {
    if f.is_female {
        "active"@
    } else {
        "actif"@
    }
}

/// The working life: active around (floruit), from and to, from, or to.
pub open spec fn career_text(f: Flags, claims: Json) -> Seq<FragView> {
    let fl = first_claim_date(claims, "P1317"@);
    let st = first_claim_date(claims, "P2031"@);
    let en = first_claim_date(claims, "P2032"@);
    let lead = subject_of(f, config()) + " était "@ + active(f);
    if fl is None && st is None && en is None {
        Seq::empty()
    } else {
        (match fl {
            Some(d) => seq![tx(lead + " vers "@ + bare_year(d))],
            None => match (st, en) {
                (Some(a), Some(b)) => seq![tx(lead + " de "@ + bare_year(a) + " à "@ + bare_year(b))],
                (Some(a), None) => seq![tx(lead + " à partir de "@ + bare_year(a))],
                (None, Some(b)) => seq![tx(lead + " "@), tx(rendered_date(LongLang::Fr, b, true))],
                (None, None) => Seq::empty(),
            },
        }) + seq![tx(". "@)]
    }
}

/// The first sentence, the working life, then the significant events.
pub open spec fn first_sentence(
    f: Flags,
    q: Seq<char>,
    claims: Json,
    sd: ShortDescription,
    loaded: Seq<(Seq<char>, WikiDataItem)>,
) -> Seq<FragView> {
    first_head(f, q, claims, sd, loaded) + career_text(f, claims) + sentence_frags(
        LongLang::Fr,
        subject_of(f, config()) + " a joué un rôle important dans "@,
        item_ids(claims_of(claims, "P793"@)),
        "."@,
    ) + seq![tx(f.newline)]
}

/// Born, for a man or a woman.
pub open spec fn born(f: Flags) -> Seq<char> {
    if f.is_male {
        "est né"@
    } else {
        "est née"@
    }
}

/// The parents' sentence opening.
pub open spec fn child_of(f: Flags) -> Seq<char> {
    if f.is_male {
        ". Il est le fils de "@
    } else {
        ". Elle est la fille de "@
    }
}

/// The birth sentence.
pub open spec fn birth_body(f: Flags, claims: Json) -> Seq<FragView> {
    birth_intro(f, claims) + birth_details(f, claims)
}

/// The opening of the birth sentence, with the birth name when known.
pub open spec fn birth_intro(f: Flags, claims: Json) -> Seq<FragView> {
    seq![tx(subject_of(f, config()) + " "@ + born(f) + " "@)] + (match first_string(claims, "P513"@) {
        Some(n) => seq![tx("<i>"@ + n + "</i> "@)],
        None => Seq::empty(),
    })
}

/// The birth date and place, the parents, and the end of the sentence.
pub open spec fn birth_details(f: Flags, claims: Json) -> Seq<FragView> {
    date_frags(LongLang::Fr, first_claim_date(claims, "P569"@), false) + opt_item_frags(
        first_item(claims, "P19"@),
        "à "@,
        " "@,
    ) + parents_frags(child_of(f), "et "@, first_item(claims, "P22"@), first_item(claims, "P25"@)) + seq![
        tx(". "@),
        tx(f.newline),
    ]
}

/// The birth: birth name, date and place, and parents; nothing when none
/// of date, place and name is known.
pub open spec fn birth_text(f: Flags, claims: Json) -> Seq<FragView> {
    if !has_first_claim(claims, "P569"@) && first_item(claims, "P19"@) is None && first_string(claims, "P513"@) is None {
        Seq::empty()
    } else {
        birth_body(f, claims)
    }
}

/// The verb of a position or membership.
pub open spec fn held_verb(f: Flags) -> Seq<char> {
    if f.is_dead {
        "était "@
    } else {
        "est/était "@
    }
}

/// The work: education, fields of work, positions, memberships,
/// employers and notable works.
pub open spec fn work_text(f: Flags, claims: Json) -> Seq<FragView> {
    let subj = subject_of(f, config());
    dated_sentence_frags(LongLang::Fr, subj + " a étudié à "@, dated_items(claims, "P69"@, Seq::empty()), None, None)
        + sentence_frags(
        LongLang::Fr,
        "Son domaine de travail "@ + (if f.is_dead {
            "comprenait"@
        } else {
            "comprend"@
        }) + " "@,
        work_fields(claims),
        ". "@,
    ) + dated_sentence_frags(
        LongLang::Fr,
        subj + " "@ + held_verb(f),
        dated_items(claims, "P39"@, seq!["P642"@]),
        Some(("P642"@, "pour "@)),
        None,
    ) + dated_sentence_frags(
        LongLang::Fr,
        subj + " "@ + held_verb(f) + "membre de "@,
        dated_items(claims, "P463"@, Seq::empty()),
        None,
        None,
    ) + dated_sentence_frags(
        LongLang::Fr,
        subj + " a travaillé pour "@,
        dated_items(claims, "P108"@, seq!["P794"@]),
        Some(("P794"@, "en tant que "@)),
        Some("pour "@),
    ) + sentence_frags(
        LongLang::Fr,
        "Ses œuvres notables "@ + (if f.is_dead {
            "comprenaient"@
        } else {
            "comprennent"@
        }) + " "@,
        item_ids(claims_of(claims, "P800"@)),
        ". "@,
    ) + seq![tx(f.newline)]
}

/// Father or mother of.
pub open spec fn parent_of(f: Flags) -> Seq<char> {
    if f.is_male {
        "Il est le père de "@
    } else {
        "Elle est la mère de "@
    }
}

/// The family: spouses and children.
pub open spec fn family_text(f: Flags, claims: Json) -> Seq<FragView> {
    spouse_sentence_frags(
        LongLang::Fr,
        subject_of(f, config()) + " a épousé "@,
        dated_items(claims, "P26"@, Seq::empty()),
        "(mariés "@,
        true,
    ) + sentence_frags(LongLang::Fr, parent_of(f), item_ids(claims_of(claims, "P40"@)), ". "@) + seq![
        tx(f.newline),
    ]
}

/// Died, for a man or a woman.
pub open spec fn died(f: Flags) -> Seq<char> {
    if f.is_male {
        "est mort"@
    } else {
        "est morte"@
    }
}

/// Buried, for a man or a woman.
pub open spec fn buried(f: Flags) -> Seq<char> {
    if f.is_male {
        "est enterré à "@
    } else {
        "est enterrée à "@
    }
}

/// The death sentence: causes, killers, date and place.
pub open spec fn death_body(f: Flags, claims: Json) -> Seq<FragView> {
    seq![tx(subject_of(f, config()) + " "@ + died(f) + " "@)] + (if claims_of(claims, "P509"@).len() > 0 {
        simple_list_frags(LongLang::Fr, item_ids(claims_of(claims, "P509"@)), "de "@, " "@)
    } else {
        Seq::empty()
    }) + (if claims_of(claims, "P157"@).len() > 0 {
        simple_list_frags(LongLang::Fr, item_ids(claims_of(claims, "P157"@)), "par "@, " "@)
    } else {
        Seq::empty()
    }) + date_frags(LongLang::Fr, first_claim_date(claims, "P570"@), false) + opt_item_frags(
        first_item(claims, "P20"@),
        "à "@,
        " "@,
    ) + seq![tx(". "@)]
}

/// The death, when anything of it is known, then the burial place.
pub open spec fn death_text(f: Flags, claims: Json) -> Seq<FragView> {
    (if has_first_claim(claims, "P570"@) || first_item(claims, "P20"@) is Some || claims_of(claims, "P509"@).len() > 0
        || claims_of(claims, "P157"@).len() > 0 {
        death_body(f, claims)
    } else {
        Seq::empty()
    }) + opt_item_frags(first_item(claims, "P119"@), subject_of(f, config()) + " "@ + buried(f), ". "@)
}

/// The whole French description.
pub open spec fn description(
    f: Flags,
    q: Seq<char>,
    claims: Json,
    sd: ShortDescription,
    loaded: Seq<(Seq<char>, WikiDataItem)>,
) -> Seq<FragView> {
    first_sentence(f, q, claims, sd, loaded) + birth_text(f, claims) + work_text(f, claims) + family_text(f, claims)
        + death_text(f, claims)
}

/// Append the opening of the first sentence.
fn add_first_head(state: &mut LongDescState, q: &str, claims: &Json, sd: &ShortDescription, wd: &WikiData)
    ensures
        flags_of(*final(state)) == flags_of(*old(state)),
        frags(*final(state)) == frags(*old(state)) + first_head(flags_of(*old(state)), q@, *claims, *sd, wd@),
{
    let ghost f = flags_of(*state);
    let ghost s0 = frags(*state);
    let label = get_main_title_label(q, wd, state.lang.as_str());
    let initial_len = state.fragments.len();
    push_bold_title(state, label.as_str());
    let art = if state.is_male {
        "un "
    } else {
        "une "
    };
    let t = concat2("est ", art);
    state.push_text(t.as_str());
    let occupations = get_claim_item_ids(claims, "P106");
    push_gendered_occupations(state, LongLang::Fr, &occupations, wd);
    let nationalities = get_claim_item_ids(claims, "P27");
    push_countries(state, &nationalities, wd);
    state.push_text(". ");
    assert(frags(*state).len() >= s0.len());
    if nationalities.len() == 0 && occupations.len() == 0 {
        state.truncate_fragments(initial_len);
        assert(frags(*state) =~= s0 + Seq::<FragView>::empty());
    } else {
        assert(frags(*state) =~= s0 + first_head(f, q@, *claims, *sd, wd@));
    }
}

/// Append the working life.
fn add_career(state: &mut LongDescState, claims: &Json)
    ensures
        flags_of(*final(state)) == flags_of(*old(state)),
        frags(*final(state)) == frags(*old(state)) + career_text(flags_of(*old(state)), *claims),
{
    let ghost f = flags_of(*state);
    let ghost s0 = frags(*state);
    let c = cfg();
    let floruit = first_claim_date_of(claims, "P1317");
    let work_start = first_claim_date_of(claims, "P2031");
    let work_end = first_claim_date_of(claims, "P2032");
    if floruit.is_none() && work_start.is_none() && work_end.is_none() {
        assert(frags(*state) =~= s0 + Seq::<FragView>::empty());
        return;
    }
    let subj = state.pronoun_subject(&c);
    let adj = if state.is_female {
        "active"
    } else {
        "actif"
    };
    let lead = concat3(subj, " était ", adj);
    match &floruit {
        Some(d) => {
            let mut t = concat2(lead.as_str(), " vers ");
            let y = bare_year_of(d);
            t.append(y.as_str());
            state.push_text(t.as_str());
        },
        None => match (&work_start, &work_end) {
            (Some(a), Some(b)) => {
                let mut t = concat2(lead.as_str(), " de ");
                let ya = bare_year_of(a);
                t.append(ya.as_str());
                t.append(" à ");
                let yb = bare_year_of(b);
                t.append(yb.as_str());
                state.push_text(t.as_str());
            },
            (Some(a), None) => {
                let mut t = concat2(lead.as_str(), " à partir de ");
                let ya = bare_year_of(a);
                t.append(ya.as_str());
                state.push_text(t.as_str());
            },
            (None, Some(b)) => {
                let t = concat2(lead.as_str(), " ");
                state.push_text(t.as_str());
                let r = render_date(LongLang::Fr, b, true);
                state.push_text(r.as_str());
            },
            (None, None) => {},
        },
    }
    state.push_text(". ");
    assert(frags(*state) =~= s0 + career_text(f, *claims));
}

/// Append the first sentence.
pub fn add_first_sentence(
    state: &mut LongDescState,
    q: &str,
    claims: &Json,
    sd: &ShortDescription,
    wd: &WikiData,
)
    ensures
        flags_of(*final(state)) == flags_of(*old(state)),
        frags(*final(state)) == frags(*old(state)) + first_sentence(flags_of(*old(state)), q@, *claims, *sd, wd@),
{
    let ghost f = flags_of(*state);
    let ghost s0 = frags(*state);
    let c = cfg();
    add_first_head(state, q, claims, sd, wd);
    add_career(state, claims);
    let events = get_claim_item_ids(claims, "P793");
    let subj = state.pronoun_subject(&c);
    let intro = concat2(subj, " a joué un rôle important dans ");
    push_sentence(state, LongLang::Fr, intro.as_str(), &events, ".");
    state.push_newline();
    assert(frags(*state) =~= s0 + first_sentence(f, q@, *claims, *sd, wd@));
}

/// Append the opening of the birth sentence and the birth name.
fn add_birth_intro(state: &mut LongDescState, claims: &Json)
    ensures
        flags_of(*final(state)) == flags_of(*old(state)),
        frags(*final(state)) == frags(*old(state)) + birth_intro(flags_of(*old(state)), *claims),
{
    let ghost f = flags_of(*state);
    let ghost s0 = frags(*state);
    let c = cfg();
    let subj = state.pronoun_subject(&c);
    let b = if state.is_male {
        "est né"
    } else {
        "est née"
    };
    let mut intro = concat3(subj, " ", b);
    intro.append(" ");
    state.push_text(intro.as_str());
    let birthname = get_first_claim_string(claims, "P513");
    match &birthname {
        Some(name) => {
            let t = concat3("<i>", name.as_str(), "</i> ");
            state.push_text(t.as_str());
        },
        None => {},
    }
    assert(frags(*state) =~= s0 + birth_intro(f, *claims));
}

/// Append the birth date and place, the parents and the end of the
/// sentence.
fn add_birth_details(state: &mut LongDescState, claims: &Json)
    ensures
        flags_of(*final(state)) == flags_of(*old(state)),
        frags(*final(state)) == frags(*old(state)) + birth_details(flags_of(*old(state)), *claims),
{
    let ghost f = flags_of(*state);
    let ghost s0 = frags(*state);
    let date = first_claim_date_of(claims, "P569");
    push_date(state, LongLang::Fr, &date, false);
    let birthplace = get_first_claim_item(claims, "P19");
    push_opt_item(state, &birthplace, "à ", " ");
    let child = if state.is_male {
        ". Il est le fils de "
    } else {
        ". Elle est la fille de "
    };
    push_parents(state, claims, child, "et ");
    state.push_text(". ");
    state.push_newline();
    assert(frags(*state) =~= s0 + birth_details(f, *claims));
}

/// Append the birth sentence.
fn add_birth_body(state: &mut LongDescState, claims: &Json)
    ensures
        flags_of(*final(state)) == flags_of(*old(state)),
        frags(*final(state)) == frags(*old(state)) + birth_body(flags_of(*old(state)), *claims),
{
    let ghost f = flags_of(*state);
    let ghost s0 = frags(*state);
    add_birth_intro(state, claims);
    add_birth_details(state, claims);
    assert(frags(*state) =~= s0 + birth_body(f, *claims));
}

/// Append the birth.
pub fn add_birth_text(state: &mut LongDescState, claims: &Json)
    ensures
        flags_of(*final(state)) == flags_of(*old(state)),
        frags(*final(state)) == frags(*old(state)) + birth_text(flags_of(*old(state)), *claims),
{
    let ghost s0 = frags(*state);
    let has_date = has_claims(claims, "P569");
    let birthplace = get_first_claim_item(claims, "P19");
    let birthname = get_first_claim_string(claims, "P513");
    if !has_date && birthplace.is_none() && birthname.is_none() {
        assert(frags(*state) =~= s0 + Seq::<FragView>::empty());
        return;
    }
    add_birth_body(state, claims);
}

/// Append the work.
#[verifier::rlimit(80)]
pub fn add_work_text(state: &mut LongDescState, claims: &Json)
    ensures
        flags_of(*final(state)) == flags_of(*old(state)),
        frags(*final(state)) == frags(*old(state)) + work_text(flags_of(*old(state)), *claims),
{
    let ghost f = flags_of(*state);
    let ghost s0 = frags(*state);
    let c = cfg();
    let subj = state.pronoun_subject(&c);
    let verb = if state.is_dead {
        "était "
    } else {
        "est/était "
    };
    let alma = dated_items_with(claims, "P69", None);
    let t = concat2(subj, " a étudié à ");
    push_dated_sentence(state, LongLang::Fr, t.as_str(), &alma, None, None);
    let fields = get_work_fields(claims);
    let mut t = owned("Son domaine de travail ");
    t.append(if state.is_dead {
        "comprenait"
    } else {
        "comprend"
    });
    t.append(" ");
    push_sentence(state, LongLang::Fr, t.as_str(), &fields, ". ");
    let positions = dated_items_with(claims, "P39", Some("P642"));
    let t = concat3(subj, " ", verb);
    push_dated_sentence(state, LongLang::Fr, t.as_str(), &positions, Some(("P642", "pour ")), None);
    let members = dated_items_with(claims, "P463", None);
    let mut t = concat3(subj, " ", verb);
    t.append("membre de ");
    push_dated_sentence(state, LongLang::Fr, t.as_str(), &members, None, None);
    let employers = dated_items_with(claims, "P108", Some("P794"));
    let t = concat2(subj, " a travaillé pour ");
    push_dated_sentence(state, LongLang::Fr, t.as_str(), &employers, Some(("P794", "en tant que ")), Some("pour "));
    let works = get_claim_item_ids(claims, "P800");
    let mut t = owned("Ses œuvres notables ");
    t.append(if state.is_dead {
        "comprenaient"
    } else {
        "comprennent"
    });
    t.append(" ");
    push_sentence(state, LongLang::Fr, t.as_str(), &works, ". ");
    state.push_newline();
    assert(frags(*state) =~= s0 + work_text(f, *claims));
}

/// Append the family.
pub fn add_family_text(state: &mut LongDescState, claims: &Json)
    ensures
        flags_of(*final(state)) == flags_of(*old(state)),
        frags(*final(state)) == frags(*old(state)) + family_text(flags_of(*old(state)), *claims),
{
    let ghost f = flags_of(*state);
    let ghost s0 = frags(*state);
    let c = cfg();
    let spouses = dated_items_with(claims, "P26", None);
    let subj = state.pronoun_subject(&c);
    let t = concat2(subj, " a épousé ");
    push_spouse_sentence(state, LongLang::Fr, t.as_str(), &spouses, "(mariés ", true);
    let children = get_claim_item_ids(claims, "P40");
    let p = if state.is_male {
        "Il est le père de "
    } else {
        "Elle est la mère de "
    };
    push_sentence(state, LongLang::Fr, p, &children, ". ");
    state.push_newline();
    assert(frags(*state) =~= s0 + family_text(f, *claims));
}

/// Append the death sentence.
#[verifier::rlimit(80)]
fn add_death_body(state: &mut LongDescState, claims: &Json)
    ensures
        flags_of(*final(state)) == flags_of(*old(state)),
        frags(*final(state)) == frags(*old(state)) + death_body(flags_of(*old(state)), *claims),
{
    let ghost f = flags_of(*state);
    let ghost s0 = frags(*state);
    let c = cfg();
    let subj = state.pronoun_subject(&c);
    let d = if state.is_male {
        "est mort"
    } else {
        "est morte"
    };
    let mut t = concat3(subj, " ", d);
    t.append(" ");
    state.push_text(t.as_str());
    if has_claims(claims, "P509") {
        let causes = get_claim_item_ids(claims, "P509");
        push_simple_list(state, LongLang::Fr, &causes, "de ", " ");
    }
    let ghost s1 = frags(*state);
    if has_claims(claims, "P157") {
        let killers = get_claim_item_ids(claims, "P157");
        push_simple_list(state, LongLang::Fr, &killers, "par ", " ");
    }
    let date = first_claim_date_of(claims, "P570");
    push_date(state, LongLang::Fr, &date, false);
    let deathplace = get_first_claim_item(claims, "P20");
    push_opt_item(state, &deathplace, "à ", " ");
    state.push_text(". ");
    assert(frags(*state) =~= s0 + death_body(f, *claims));
}

/// Append the death and burial.
pub fn add_death_text(state: &mut LongDescState, claims: &Json)
    ensures
        flags_of(*final(state)) == flags_of(*old(state)),
        frags(*final(state)) == frags(*old(state)) + death_text(flags_of(*old(state)), *claims),
{
    let ghost f = flags_of(*state);
    let ghost s0 = frags(*state);
    let c = cfg();
    let known = has_claims(claims, "P570") || get_first_claim_item(claims, "P20").is_some() || has_claims(
        claims,
        "P509",
    ) || has_claims(claims, "P157");
    if known {
        add_death_body(state, claims);
    }
    let ghost s1 = frags(*state);
    assert(s1 == s0 + (if known {
        death_body(f, *claims)
    } else {
        Seq::<FragView>::empty()
    }));
    let burial = get_first_claim_item(claims, "P119");
    let subj = state.pronoun_subject(&c);
    let b = if state.is_male {
        "est enterré à "
    } else {
        "est enterrée à "
    };
    let before = concat3(subj, " ", b);
    push_opt_item(state, &burial, before.as_str(), ". ");
    assert(frags(*state) =~= s0 + death_text(f, *claims));
}

/// Append the whole French description.
pub fn generate(state: &mut LongDescState, q: &str, claims: &Json, sd: &ShortDescription, wd: &WikiData)
    ensures
        flags_of(*final(state)) == flags_of(*old(state)),
        frags(*final(state)) == frags(*old(state)) + description(flags_of(*old(state)), q@, *claims, *sd, wd@),
{
    let ghost f = flags_of(*state);
    let ghost s0 = frags(*state);
    add_first_sentence(state, q, claims, sd, wd);
    add_birth_text(state, claims);
    add_work_text(state, claims);
    add_family_text(state, claims);
    add_death_text(state, claims);
    proof {
        crate::long_desc::lemma_appended_in_turn(
            s0,
            first_sentence(f, q@, *claims, *sd, wd@),
            birth_text(f, *claims),
            work_text(f, *claims),
            family_text(f, *claims),
            death_text(f, *claims),
            frags(*state),
        );
    }
}

} // verus!
