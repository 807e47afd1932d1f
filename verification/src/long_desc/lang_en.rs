//! The English long description.

use vstd::prelude::*;
use crate::json::Json;
use crate::long_desc::{Flags, FragView, LangConfig, LongDescState, be_past_of, be_present_of, claims_of, dated_items, first_claim_date, first_claim_date_of, first_item, first_string, flags_of, frags, get_claim_item_ids, get_first_claim_item, get_first_claim_string, has_claims, has_first_claim, it, possessive_of, subject_of, tx};
use crate::long_desc::render::{LongLang, bold_text, date_frags, dated_items_with, dated_sentence_frags, get_main_title_label, get_work_fields, item_list_frags, main_title_label, nationality_frags, opt_item_frags, parents_frags, push_bold_title, push_date, push_dated_sentence, push_item_list, push_nationalities, push_opt_item, push_parents, push_sentence, push_simple_list, push_spouse_sentence, sentence_frags, simple_list_frags, spouse_sentence_frags, work_fields};
use crate::short_desc::ShortDescription;
use crate::text::{concat2, concat3};
use crate::wikidata::WikiData;
use crate::wikidata_item::{WikiDataItem, item_ids};

verus! {

/// English pronouns and forms of "to be".
pub open spec fn config() -> LangConfig {
    LangConfig {
        pronoun_subject_male: "He",
        pronoun_possessive_male: "His",
        pronoun_subject_female: "She",
        pronoun_possessive_female: "Her",
        pronoun_subject_neutral: "They",
        pronoun_possessive_neutral: "Their",
        be_present_singular: "is",
        be_past_singular: "was",
        be_present_neutral: "are",
        be_past_neutral: "were",
    }
}

/// English pronouns and forms of "to be".
pub fn cfg() -> (r: LangConfig)
    ensures
        r == config(),
{
    LangConfig {
        pronoun_subject_male: "He",
        pronoun_possessive_male: "His",
        pronoun_subject_female: "She",
        pronoun_possessive_female: "Her",
        pronoun_subject_neutral: "They",
        pronoun_possessive_neutral: "Their",
        be_present_singular: "is",
        be_past_singular: "was",
        be_present_neutral: "are",
        be_past_neutral: "were",
    }
}

/// The opening of the first sentence: name, nationalities and
/// occupations; nothing when there are neither nationalities nor
/// occupations.
pub open spec fn first_head(
    f: Flags,
    q: Seq<char>,
    claims: Json,
    sd: ShortDescription,
    loaded: Seq<(Seq<char>, WikiDataItem)>,
) -> Seq<FragView> {
    let nats = item_ids(claims_of(claims, "P27"@));
    let occs = item_ids(claims_of(claims, "P106"@));
    if nats.len() == 0 && occs.len() == 0 {
        Seq::empty()
    } else {
        seq![
            tx(bold_text(f, main_title_label(q, loaded, f.lang))),
            tx(
                (if f.is_dead {
                    "was"@
                } else {
                    "is"@
                }) + " a "@,
            ),
        ] + nationality_frags(sd, nats, f.lang, loaded) + item_list_frags(LongLang::En, occs) + seq![tx(". "@)]
    }
}

/// The English long description of a person opens with the name and then
/// the verb `was` when the item has a date of death (P570) and `is` when it
/// has none, followed by ` a ` and the nationality and occupations.
pub proof fn lemma_first_verb_tense(
    q: Seq<char>,
    claims: Json,
    sd: ShortDescription,
    opt: crate::desc_options::DescOptions,
    loaded: Seq<(Seq<char>, WikiDataItem)>,
)
    requires
        item_ids(claims_of(claims, "P27"@)).len() > 0 || item_ids(claims_of(claims, "P106"@)).len() > 0,
    ensures
        ({
            let d = description(crate::long_desc::initial_flags(claims, opt), q, claims, sd, loaded);
            &&& d.len() >= 2
            &&& d[1] == tx(
                (if claims_of(claims, "P570"@).len() > 0 {
                    "was"@
                } else {
                    "is"@
                }) + " a "@,
            )
        }),
{
    let f = crate::long_desc::initial_flags(claims, opt);
    let h = first_head(f, q, claims, sd, loaded);
    assert(h.len() >= 2);
    let d = description(f, q, claims, sd, loaded);
    assert(d[1] == h[1]);
}

/// The first sentence, then the significant events.
pub open spec fn first_sentence(
    f: Flags,
    q: Seq<char>,
    claims: Json,
    sd: ShortDescription,
    loaded: Seq<(Seq<char>, WikiDataItem)>,
) -> Seq<FragView> {
    first_head(f, q, claims, sd, loaded) + sentence_frags(
        LongLang::En,
        subject_of(f, config()) + " played a role in "@,
        item_ids(claims_of(claims, "P793"@)),
        "."@,
    ) + seq![tx(f.newline)]
}

/// The birth sentence.
pub open spec fn birth_body(f: Flags, claims: Json) -> Seq<FragView> {
    seq![tx(subject_of(f, config()) + " "@ + be_past_of(f, config()) + " born "@)] + (match first_string(
        claims,
        "P513"@,
    ) {
        Some(n) => seq![tx("<i>"@ + n + "</i> "@)],
        None => Seq::empty(),
    }) + date_frags(LongLang::En, first_claim_date(claims, "P569"@), false) + opt_item_frags(
        first_item(claims, "P19"@),
        "in "@,
        " "@,
    ) + parents_frags("to "@, "and "@, first_item(claims, "P22"@), first_item(claims, "P25"@)) + seq![
        tx(". "@),
        tx(f.newline),
    ]
}

/// The birth: birth name, date and place, and parents; nothing when none
/// of date, place and name is known.
pub open spec fn birth_text(f: Flags, claims: Json) -> Seq<FragView> {
    if !has_first_claim(claims, "P569"@) && first_item(claims, "P19"@) is None && first_string(claims, "P513"@) is None {
        Seq::empty()
    } else {
        birth_body(f, claims)
    }
}

/// The verb of a position or membership: past for the dead, else present
/// and past.
pub open spec fn held_verb(f: Flags) -> Seq<char> {
    if f.is_dead {
        be_past_of(f, config()) + " "@
    } else {
        be_present_of(f, config()) + "/"@ + be_past_of(f, config()) + " "@
    }
}

/// The work: education, fields of work, positions, memberships and
/// employers.
pub open spec fn work_text(f: Flags, claims: Json) -> Seq<FragView> {
    work_studies(f, claims) + work_posts(f, claims)
}

/// Where the person studied and the fields of work.
pub open spec fn work_studies(f: Flags, claims: Json) -> Seq<FragView> {
    dated_sentence_frags(
        LongLang::En,
        subject_of(f, config()) + " studied at "@,
        dated_items(claims, "P69"@, Seq::empty()),
        None,
        None,
    ) + sentence_frags(
        LongLang::En,
        possessive_of(f, config()) + " field of work "@ + (if f.is_dead {
            "included"@
        } else {
            "includes"@
        }) + " "@,
        work_fields(claims),
        ". "@,
    )
}

/// The positions held, the memberships and the employers, then a line
/// break.
pub open spec fn work_posts(f: Flags, claims: Json) -> Seq<FragView> {
    let subj = subject_of(f, config());
    dated_sentence_frags(
        LongLang::En,
        subj + " "@ + held_verb(f),
        dated_items(claims, "P39"@, seq!["P642"@]),
        Some(("P642"@, "for "@)),
        None,
    ) + dated_sentence_frags(
        LongLang::En,
        subj + " "@ + held_verb(f) + "a member of "@,
        dated_items(claims, "P463"@, Seq::empty()),
        None,
        None,
    ) + dated_sentence_frags(
        LongLang::En,
        subj + " worked for "@,
        dated_items(claims, "P108"@, seq!["P794"@]),
        Some(("P794"@, "as "@)),
        Some("for "@),
    ) + seq![tx(f.newline)]
}

/// The family: spouses and children.
pub open spec fn family_text(f: Flags, claims: Json) -> Seq<FragView> {
    spouse_sentence_frags(
        LongLang::En,
        subject_of(f, config()) + " married "@,
        dated_items(claims, "P26"@, Seq::empty()),
        "(married until "@,
        false,
    ) + sentence_frags(
        LongLang::En,
        possessive_of(f, config()) + " children include "@,
        item_ids(claims_of(claims, "P40"@)),
        ". "@,
    ) + seq![tx(f.newline)]
}

/// The death sentence: causes, killers, date and place.
pub open spec fn death_body(f: Flags, claims: Json) -> Seq<FragView> {
    seq![tx(subject_of(f, config()) + " died "@)] + (if claims_of(claims, "P509"@).len() > 0 {
        simple_list_frags(LongLang::En, item_ids(claims_of(claims, "P509"@)), "of "@, " "@)
    } else {
        Seq::empty()
    }) + (if claims_of(claims, "P157"@).len() > 0 {
        simple_list_frags(LongLang::En, item_ids(claims_of(claims, "P157"@)), "by "@, " "@)
    } else {
        Seq::empty()
    }) + date_frags(LongLang::En, first_claim_date(claims, "P570"@), false) + opt_item_frags(
        first_item(claims, "P20"@),
        "in "@,
        " "@,
    ) + seq![tx(". "@)]
}

/// The death, when anything of it is known, then the burial place.
pub open spec fn death_text(f: Flags, claims: Json) -> Seq<FragView> {
    (if has_first_claim(claims, "P570"@) || first_item(claims, "P20"@) is Some || claims_of(claims, "P509"@).len() > 0
        || claims_of(claims, "P157"@).len() > 0 {
        death_body(f, claims)
    } else {
        Seq::empty()
    }) + opt_item_frags(
        first_item(claims, "P119"@),
        subject_of(f, config()) + " "@ + be_past_of(f, config()) + " buried at "@,
        ". "@,
    )
}

/// The whole English description.
pub open spec fn description(
    f: Flags,
    q: Seq<char>,
    claims: Json,
    sd: ShortDescription,
    loaded: Seq<(Seq<char>, WikiDataItem)>,
) -> Seq<FragView> {
    first_sentence(f, q, claims, sd, loaded) + birth_text(f, claims) + work_text(f, claims) + family_text(f, claims)
        + death_text(f, claims)
}

/// Append the opening of the first sentence.
fn add_first_head(state: &mut LongDescState, q: &str, claims: &Json, sd: &ShortDescription, wd: &WikiData)
    ensures
        flags_of(*final(state)) == flags_of(*old(state)),
        frags(*final(state)) == frags(*old(state)) + first_head(flags_of(*old(state)), q@, *claims, *sd, wd@),
{
    let ghost f = flags_of(*state);
    let ghost s0 = frags(*state);
    let label = get_main_title_label(q, wd, state.lang.as_str());
    let initial_len = state.fragments.len();
    push_bold_title(state, label.as_str());
    let be = if state.is_dead {
        "was"
    } else {
        "is"
    };
    let t = concat2(be, " a ");
    state.push_text(t.as_str());
    let nationalities = get_claim_item_ids(claims, "P27");
    push_nationalities(state, sd, &nationalities, wd);
    let occupations = get_claim_item_ids(claims, "P106");
    push_item_list(state, LongLang::En, &occupations);
    state.push_text(". ");
    assert(frags(*state).len() >= s0.len());
    if nationalities.len() == 0 && occupations.len() == 0 {
        state.truncate_fragments(initial_len);
        assert(frags(*state) =~= s0 + Seq::<FragView>::empty());
    } else {
        assert(frags(*state) =~= s0 + first_head(f, q@, *claims, *sd, wd@));
    }
}

/// Append the first sentence.
pub fn add_first_sentence(
    state: &mut LongDescState,
    q: &str,
    claims: &Json,
    sd: &ShortDescription,
    wd: &WikiData,
)
    ensures
        flags_of(*final(state)) == flags_of(*old(state)),
        frags(*final(state)) == frags(*old(state)) + first_sentence(flags_of(*old(state)), q@, *claims, *sd, wd@),
{
    let ghost f = flags_of(*state);
    let ghost s0 = frags(*state);
    let c = cfg();
    add_first_head(state, q, claims, sd, wd);
    let events = get_claim_item_ids(claims, "P793");
    let subj = state.pronoun_subject(&c);
    let intro = concat2(subj, " played a role in ");
    push_sentence(state, LongLang::En, intro.as_str(), &events, ".");
    state.push_newline();
    assert(frags(*state) =~= s0 + first_sentence(f, q@, *claims, *sd, wd@));
}

/// Append the birth sentence.
fn add_birth_body(state: &mut LongDescState, claims: &Json)
    ensures
        flags_of(*final(state)) == flags_of(*old(state)),
        frags(*final(state)) == frags(*old(state)) + birth_body(flags_of(*old(state)), *claims),
{
    let ghost f = flags_of(*state);
    let ghost s0 = frags(*state);
    let c = cfg();
    let subj = state.pronoun_subject(&c);
    let be_past = state.be_past(&c);
    let mut intro = concat3(subj, " ", be_past);
    intro.append(" born ");
    state.push_text(intro.as_str());
    let birthname = get_first_claim_string(claims, "P513");
    match &birthname {
        Some(name) => {
            let t = concat3("<i>", name.as_str(), "</i> ");
            state.push_text(t.as_str());
        },
        None => {},
    }
    let date = first_claim_date_of(claims, "P569");
    push_date(state, LongLang::En, &date, false);
    let birthplace = get_first_claim_item(claims, "P19");
    push_opt_item(state, &birthplace, "in ", " ");
    push_parents(state, claims, "to ", "and ");
    state.push_text(". ");
    state.push_newline();
    assert(frags(*state) =~= s0 + birth_body(f, *claims));
}

/// Append the birth.
pub fn add_birth_text(state: &mut LongDescState, claims: &Json)
    ensures
        flags_of(*final(state)) == flags_of(*old(state)),
        frags(*final(state)) == frags(*old(state)) + birth_text(flags_of(*old(state)), *claims),
{
    let ghost s0 = frags(*state);
    let has_date = has_claims(claims, "P569");
    let birthplace = get_first_claim_item(claims, "P19");
    let birthname = get_first_claim_string(claims, "P513");
    if !has_date && birthplace.is_none() && birthname.is_none() {
        assert(frags(*state) =~= s0 + Seq::<FragView>::empty());
        return;
    }
    add_birth_body(state, claims);
}

/// Append where the person studied and the fields of work.
fn add_work_studies(state: &mut LongDescState, claims: &Json)
    ensures
        flags_of(*final(state)) == flags_of(*old(state)),
        frags(*final(state)) == frags(*old(state)) + work_studies(flags_of(*old(state)), *claims),
{
    let ghost f = flags_of(*state);
    let ghost s0 = frags(*state);
    let c = cfg();
    let subj = state.pronoun_subject(&c);
    let poss = state.pronoun_possessive(&c);
    let alma = dated_items_with(claims, "P69", None);
    let t = concat2(subj, " studied at ");
    push_dated_sentence(state, LongLang::En, t.as_str(), &alma, None, None);
    let fields = get_work_fields(claims);
    let mut t = concat2(poss, " field of work ");
    t.append(if state.is_dead {
        "included"
    } else {
        "includes"
    });
    t.append(" ");
    push_sentence(state, LongLang::En, t.as_str(), &fields, ". ");
    assert(frags(*state) =~= s0 + work_studies(f, *claims));
}

/// Append the positions, memberships and employers, then a line break.
fn add_work_posts(state: &mut LongDescState, claims: &Json)
    ensures
        flags_of(*final(state)) == flags_of(*old(state)),
        frags(*final(state)) == frags(*old(state)) + work_posts(flags_of(*old(state)), *claims),
{
    let ghost f = flags_of(*state);
    let ghost s0 = frags(*state);
    let c = cfg();
    let subj = state.pronoun_subject(&c);
    let be_present = state.be_present(&c);
    let be_past = state.be_past(&c);
    let verb = if state.is_dead {
        concat2(be_past, " ")
    } else {
        let mut v = concat3(be_present, "/", be_past);
        v.append(" ");
        v
    };
    assert(verb@ == held_verb(f));
    let positions = dated_items_with(claims, "P39", Some("P642"));
    let t = concat3(subj, " ", verb.as_str());
    push_dated_sentence(state, LongLang::En, t.as_str(), &positions, Some(("P642", "for ")), None);
    let members = dated_items_with(claims, "P463", None);
    let mut t = concat3(subj, " ", verb.as_str());
    t.append("a member of ");
    push_dated_sentence(state, LongLang::En, t.as_str(), &members, None, None);
    let employers = dated_items_with(claims, "P108", Some("P794"));
    let t = concat2(subj, " worked for ");
    push_dated_sentence(state, LongLang::En, t.as_str(), &employers, Some(("P794", "as ")), Some("for "));
    state.push_newline();
    assert(frags(*state) =~= s0 + work_posts(f, *claims));
}

/// Append the work.
pub fn add_work_text(state: &mut LongDescState, claims: &Json)
    ensures
        flags_of(*final(state)) == flags_of(*old(state)),
        frags(*final(state)) == frags(*old(state)) + work_text(flags_of(*old(state)), *claims),
{
    let ghost f = flags_of(*state);
    let ghost s0 = frags(*state);
    add_work_studies(state, claims);
    add_work_posts(state, claims);
    assert(frags(*state) =~= s0 + work_text(f, *claims));
}

/// Append the family.
pub fn add_family_text(state: &mut LongDescState, claims: &Json)
    ensures
        flags_of(*final(state)) == flags_of(*old(state)),
        frags(*final(state)) == frags(*old(state)) + family_text(flags_of(*old(state)), *claims),
{
    let ghost f = flags_of(*state);
    let ghost s0 = frags(*state);
    let c = cfg();
    let spouses = dated_items_with(claims, "P26", None);
    let subj = state.pronoun_subject(&c);
    let t = concat2(subj, " married ");
    push_spouse_sentence(state, LongLang::En, t.as_str(), &spouses, "(married until ", false);
    let children = get_claim_item_ids(claims, "P40");
    let poss = state.pronoun_possessive(&c);
    let t = concat2(poss, " children include ");
    push_sentence(state, LongLang::En, t.as_str(), &children, ". ");
    state.push_newline();
    assert(frags(*state) =~= s0 + family_text(f, *claims));
}

/// Append the death sentence.
fn add_death_body(state: &mut LongDescState, claims: &Json)
    ensures
        flags_of(*final(state)) == flags_of(*old(state)),
        frags(*final(state)) == frags(*old(state)) + death_body(flags_of(*old(state)), *claims),
{
    let ghost f = flags_of(*state);
    let ghost s0 = frags(*state);
    let c = cfg();
    let subj = state.pronoun_subject(&c);
    let t = concat2(subj, " died ");
    state.push_text(t.as_str());
    if has_claims(claims, "P509") {
        let causes = get_claim_item_ids(claims, "P509");
        push_simple_list(state, LongLang::En, &causes, "of ", " ");
    }
    let ghost s1 = frags(*state);
    if has_claims(claims, "P157") {
        let killers = get_claim_item_ids(claims, "P157");
        push_simple_list(state, LongLang::En, &killers, "by ", " ");
    }
    let date = first_claim_date_of(claims, "P570");
    push_date(state, LongLang::En, &date, false);
    let deathplace = get_first_claim_item(claims, "P20");
    push_opt_item(state, &deathplace, "in ", " ");
    state.push_text(". ");
    assert(frags(*state) =~= s0 + death_body(f, *claims));
}

/// Append the death and burial.
pub fn add_death_text(state: &mut LongDescState, claims: &Json)
    ensures
        flags_of(*final(state)) == flags_of(*old(state)),
        frags(*final(state)) == frags(*old(state)) + death_text(flags_of(*old(state)), *claims),
{
    let ghost f = flags_of(*state);
    let ghost s0 = frags(*state);
    let c = cfg();
    let known = has_claims(claims, "P570") || get_first_claim_item(claims, "P20").is_some() || has_claims(
        claims,
        "P509",
    ) || has_claims(claims, "P157");
    if known {
        add_death_body(state, claims);
    }
    let ghost s1 = frags(*state);
    assert(s1 == s0 + (if known {
        death_body(f, *claims)
    } else {
        Seq::<FragView>::empty()
    }));
    let burial = get_first_claim_item(claims, "P119");
    let subj = state.pronoun_subject(&c);
    let be_past = state.be_past(&c);
    let mut before = concat3(subj, " ", be_past);
    before.append(" buried at ");
    push_opt_item(state, &burial, before.as_str(), ". ");
    assert(frags(*state) =~= s0 + death_text(f, *claims));
}

/// Append the whole English description.
pub fn generate(state: &mut LongDescState, q: &str, claims: &Json, sd: &ShortDescription, wd: &WikiData)
    ensures
        flags_of(*final(state)) == flags_of(*old(state)),
        frags(*final(state)) == frags(*old(state)) + description(flags_of(*old(state)), q@, *claims, *sd, wd@),
{
    let ghost f = flags_of(*state);
    let ghost s0 = frags(*state);
    add_first_sentence(state, q, claims, sd, wd);
    add_birth_text(state, claims);
    add_work_text(state, claims);
    add_family_text(state, claims);
    add_death_text(state, claims);
    proof {
        crate::long_desc::lemma_appended_in_turn(
            s0,
            first_sentence(f, q@, *claims, *sd, wd@),
            birth_text(f, *claims),
            work_text(f, *claims),
            family_text(f, *claims),
            death_text(f, *claims),
            frags(*state),
        );
    }
}

} // verus!
