//! The Dutch long description.

use vstd::prelude::*;
use crate::json::Json;
use crate::long_desc::{Flags, FragView, LangConfig, LongDescState, claims_of, dated_items, first_claim_date, first_claim_date_of, first_item, first_string, flags_of, frags, get_claim_item_ids, get_first_claim_item, get_first_claim_string, has_claims, has_first_claim, it, possessive_of, subject_of, tx};
use crate::long_desc::render::{LongLang, bold_text, date_frags, dated_items_with, dated_sentence_frags, get_main_title_label, get_work_fields, main_title_label, nationality_frags, opt_item_frags, parents_frags, push_bold_title, push_date, push_dated_sentence, push_nationalities, push_opt_item, push_parents, push_sentence, push_simple_list, push_spouse_sentence, sentence_frags, simple_list_frags, spouse_sentence_frags, work_fields, occupation_frags, push_gendered_occupations, rendered_date, render_date};

use crate::short_desc::ShortDescription;
use crate::text::{concat2, concat3};
use crate::wikidata::WikiData;
use crate::wikidata_item::{WikiDataItem, item_ids};

verus! {

/// Dutch pronouns and forms of "to be".
pub open spec fn config() -> LangConfig {
    LangConfig {
        pronoun_subject_male: "Hij",
        pronoun_possessive_male: "Zijn",
        pronoun_subject_female: "Zij",
        pronoun_possessive_female: "Haar",
        pronoun_subject_neutral: "Hij/zij",
        pronoun_possessive_neutral: "Zijn/haar",
        be_present_singular: "is",
        be_past_singular: "was",
        be_present_neutral: "is",
        be_past_neutral: "was",
    }
}

/// Dutch pronouns and forms of "to be".
pub fn cfg() -> (r: LangConfig)
    ensures
        r == config(),
{
    LangConfig {
        pronoun_subject_male: "Hij",
        pronoun_possessive_male: "Zijn",
        pronoun_subject_female: "Zij",
        pronoun_possessive_female: "Haar",
        pronoun_subject_neutral: "Hij/zij",
        pronoun_possessive_neutral: "Zijn/haar",
        be_present_singular: "is",
        be_past_singular: "was",
        be_present_neutral: "is",
        be_past_neutral: "was",
    }
}

/// The opening of the first sentence: name, nationalities and
/// occupations (gendered where known); nothing when there are neither
/// nationalities nor occupations.
pub open spec fn first_head(
    f: Flags,
    q: Seq<char>,
    claims: Json,
    sd: ShortDescription,
    loaded: Seq<(Seq<char>, WikiDataItem)>,
) -> Seq<FragView> {
    let nats = item_ids(claims_of(claims, "P27"@));
    let occs = item_ids(claims_of(claims, "P106"@));
    if nats.len() == 0 && occs.len() == 0 {
        Seq::empty()
    } else {
        seq![
            tx(bold_text(f, main_title_label(q, loaded, f.lang))),
            tx(
                (if f.is_dead {
                    "was"@
                } else {
                    "is"@
                }) + " een "@,
            ),
        ] + nationality_frags(sd, nats, f.lang, loaded) + occupation_frags(LongLang::Nl, f, occs, loaded) + seq![
            tx(". "@),
        ]
    }
}

/// The working life: active around (floruit), from and to, from, or to.
pub open spec fn career_text(f: Flags, claims: Json) -> Seq<FragView> {
    let fl = first_claim_date(claims, "P1317"@);
    let st = first_claim_date(claims, "P2031"@);
    let en = first_claim_date(claims, "P2032"@);
    let subj = subject_of(f, config());
    if fl is None && st is None && en is None {
        Seq::empty()
    } else {
        (match fl {
            Some(d) => seq![tx(subj + " was beroepsmatig actief rond "@), tx(rendered_date(LongLang::Nl, d, true))],
            None => match (st, en) {
                (Some(a), Some(b)) => seq![
                    tx(possessive_of(f, config()) + " beroepsloopbaan strekte zich uit van "@),
                    tx(rendered_date(LongLang::Nl, a, true)),
                    tx(" tot "@),
                    tx(rendered_date(LongLang::Nl, b, true)),
                ],
                (Some(a), None) => seq![tx(subj + " was beroepsmatig actief vanaf "@), tx(rendered_date(LongLang::Nl, a, true))],
                (None, Some(b)) => seq![tx(subj + " was beroepsmatig actief tot "@), tx(rendered_date(LongLang::Nl, b, true))],
                (None, None) => Seq::empty(),
            },
        }) + seq![tx(". "@)]
    }
}

/// The first sentence, the working life, then the significant events.
pub open spec fn first_sentence(
    f: Flags,
    q: Seq<char>,
    claims: Json,
    sd: ShortDescription,
    loaded: Seq<(Seq<char>, WikiDataItem)>,
) -> Seq<FragView> {
    first_head(f, q, claims, sd, loaded) + career_text(f, claims) + sentence_frags(
        LongLang::Nl,
        subject_of(f, config()) + " speelde een rol in "@,
        item_ids(claims_of(claims, "P793"@)),
        "."@,
    ) + seq![tx(f.newline)]
}

/// The birth sentence.
pub open spec fn birth_body(f: Flags, claims: Json) -> Seq<FragView> {
    seq![tx(subject_of(f, config()) + " werd geboren "@)] + (match first_string(claims, "P513"@) {
        Some(n) => seq![tx("<i>"@ + n + "</i> "@)],
        None => Seq::empty(),
    }) + date_frags(LongLang::Nl, first_claim_date(claims, "P569"@), false) + opt_item_frags(
        first_item(claims, "P19"@),
        "in "@,
        " "@,
    ) + parents_frags("als kind van "@, "en "@, first_item(claims, "P22"@), first_item(claims, "P25"@)) + seq![
        tx(". "@),
        tx(f.newline),
    ]
}

/// The birth: birth name, date and place, and parents; nothing when none
/// of date, place and name is known.
pub open spec fn birth_text(f: Flags, claims: Json) -> Seq<FragView> {
    if !has_first_claim(claims, "P569"@) && first_item(claims, "P19"@) is None && first_string(claims, "P513"@) is None {
        Seq::empty()
    } else {
        birth_body(f, claims)
    }
}

/// The verb of a position or membership.
pub open spec fn held_verb(f: Flags) -> Seq<char> {
    if f.is_dead {
        "was "@
    } else {
        "is/was "@
    }
}

/// The work: education, fields of work, positions, memberships,
/// employers and notable works.
pub open spec fn work_text(f: Flags, claims: Json) -> Seq<FragView> {
    let subj = subject_of(f, config());
    let poss = possessive_of(f, config());
    dated_sentence_frags(
        LongLang::Nl,
        subj + " studeerde op de "@,
        dated_items(claims, "P69"@, Seq::empty()),
        None,
        None,
    ) + sentence_frags(
        LongLang::Nl,
        poss + " werkveld "@ + (if f.is_dead {
            "omvatte"@
        } else {
            "omvat"@
        }) + " "@,
        work_fields(claims),
        ". "@,
    ) + dated_sentence_frags(
        LongLang::Nl,
        subj + " "@ + held_verb(f),
        dated_items(claims, "P39"@, seq!["P642"@]),
        None,
        None,
    ) + dated_sentence_frags(
        LongLang::Nl,
        subj + " "@ + held_verb(f) + "een lid van "@,
        dated_items(claims, "P463"@, Seq::empty()),
        None,
        None,
    ) + dated_sentence_frags(
        LongLang::Nl,
        subj + " werkte voor "@,
        dated_items(claims, "P108"@, seq!["P794"@]),
        Some(("P794"@, "als "@)),
        Some("voor "@),
    ) + sentence_frags(
        LongLang::Nl,
        poss + " bekende werk "@ + (if f.is_dead {
            "omvatte"@
        } else {
            "omvat"@
        }) + " "@,
        item_ids(claims_of(claims, "P800"@)),
        ". "@,
    ) + seq![tx(f.newline)]
}

/// The family: spouses and children.
pub open spec fn family_text(f: Flags, claims: Json) -> Seq<FragView> {
    spouse_sentence_frags(
        LongLang::Nl,
        subject_of(f, config()) + " trouwde "@,
        dated_items(claims, "P26"@, Seq::empty()),
        "(getrouwd tot "@,
        false,
    ) + sentence_frags(
        LongLang::Nl,
        possessive_of(f, config()) + " kinderen zijn "@,
        item_ids(claims_of(claims, "P40"@)),
        ". "@,
    ) + seq![tx(f.newline)]
}

/// The death sentence: causes, killers, date and place.
pub open spec fn death_body(f: Flags, claims: Json) -> Seq<FragView> {
    seq![tx(subject_of(f, config()) + " stierf "@)] + (if claims_of(claims, "P509"@).len() > 0 {
        simple_list_frags(LongLang::Nl, item_ids(claims_of(claims, "P509"@)), "ten gevolge van "@, " "@)
    } else {
        Seq::empty()
    }) + (if claims_of(claims, "P157"@).len() > 0 {
        simple_list_frags(LongLang::Nl, item_ids(claims_of(claims, "P157"@)), "door "@, " "@)
    } else {
        Seq::empty()
    }) + date_frags(LongLang::Nl, first_claim_date(claims, "P570"@), false) + opt_item_frags(
        first_item(claims, "P20"@),
        "in "@,
        " "@,
    ) + seq![tx(". "@)]
}

/// The death, when anything of it is known, then the burial place.
pub open spec fn death_text(f: Flags, claims: Json) -> Seq<FragView> {
    (if has_first_claim(claims, "P570"@) || first_item(claims, "P20"@) is Some || claims_of(claims, "P509"@).len() > 0
        || claims_of(claims, "P157"@).len() > 0 {
        death_body(f, claims)
    } else {
        Seq::empty()
    }) + opt_item_frags(first_item(claims, "P119"@), subject_of(f, config()) + " werd begraven in "@, ". "@)
}

/// The whole Dutch description.
pub open spec fn description(
    f: Flags,
    q: Seq<char>,
    claims: Json,
    sd: ShortDescription,
    loaded: Seq<(Seq<char>, WikiDataItem)>,
) -> Seq<FragView> {
    first_sentence(f, q, claims, sd, loaded) + birth_text(f, claims) + work_text(f, claims) + family_text(f, claims)
        + death_text(f, claims)
}

/// The Dutch long description of a person opens with the name and then
/// the verb `was` when the item has a date of death (P570) and `is` when it
/// has none, followed by ` een ` and the nationality and occupations.
pub proof fn lemma_first_verb_tense(
    q: Seq<char>,
    claims: Json,
    sd: ShortDescription,
    opt: crate::desc_options::DescOptions,
    loaded: Seq<(Seq<char>, WikiDataItem)>,
)
    requires
        item_ids(claims_of(claims, "P27"@)).len() > 0 || item_ids(claims_of(claims, "P106"@)).len() > 0,
    ensures
        ({
            let d = description(crate::long_desc::initial_flags(claims, opt), q, claims, sd, loaded);
            &&& d.len() >= 2
            &&& d[1] == tx(
                (if claims_of(claims, "P570"@).len() > 0 {
                    "was"@
                } else {
                    "is"@
                }) + " een "@,
            )
        }),
{
    let f = crate::long_desc::initial_flags(claims, opt);
    let h = first_head(f, q, claims, sd, loaded);
    assert(h.len() >= 2);
    let d = description(f, q, claims, sd, loaded);
    assert(d[1] == h[1]);
}

/// Append the opening of the first sentence.
fn add_first_head(state: &mut LongDescState, q: &str, claims: &Json, sd: &ShortDescription, wd: &WikiData)
    ensures
        flags_of(*final(state)) == flags_of(*old(state)),
        frags(*final(state)) == frags(*old(state)) + first_head(flags_of(*old(state)), q@, *claims, *sd, wd@),
{
    let ghost f = flags_of(*state);
    let ghost s0 = frags(*state);
    let label = get_main_title_label(q, wd, state.lang.as_str());
    let initial_len = state.fragments.len();
    push_bold_title(state, label.as_str());
    let be = if state.is_dead {
        "was"
    } else {
        "is"
    };
    let t = concat2(be, " een ");
    state.push_text(t.as_str());
    let nationalities = get_claim_item_ids(claims, "P27");
    push_nationalities(state, sd, &nationalities, wd);
    let occupations = get_claim_item_ids(claims, "P106");
    push_gendered_occupations(state, LongLang::Nl, &occupations, wd);
    state.push_text(". ");
    assert(frags(*state).len() >= s0.len());
    if nationalities.len() == 0 && occupations.len() == 0 {
        state.truncate_fragments(initial_len);
        assert(frags(*state) =~= s0 + Seq::<FragView>::empty());
    } else {
        assert(frags(*state) =~= s0 + first_head(f, q@, *claims, *sd, wd@));
    }
}

/// Append the working life.
fn add_career(state: &mut LongDescState, claims: &Json)
    ensures
        flags_of(*final(state)) == flags_of(*old(state)),
        frags(*final(state)) == frags(*old(state)) + career_text(flags_of(*old(state)), *claims),
{
    let ghost f = flags_of(*state);
    let ghost s0 = frags(*state);
    let c = cfg();
    let floruit = first_claim_date_of(claims, "P1317");
    let work_start = first_claim_date_of(claims, "P2031");
    let work_end = first_claim_date_of(claims, "P2032");
    if floruit.is_none() && work_start.is_none() && work_end.is_none() {
        assert(frags(*state) =~= s0 + Seq::<FragView>::empty());
        return;
    }
    let subj = state.pronoun_subject(&c);
    let poss = state.pronoun_possessive(&c);
    match &floruit {
        Some(d) => {
            let t = concat2(subj, " was beroepsmatig actief rond ");
            state.push_text(t.as_str());
            let r = render_date(LongLang::Nl, d, true);
            state.push_text(r.as_str());
        },
        None => match (&work_start, &work_end) {
            (Some(a), Some(b)) => {
                let t = concat2(poss, " beroepsloopbaan strekte zich uit van ");
                state.push_text(t.as_str());
                let r = render_date(LongLang::Nl, a, true);
                state.push_text(r.as_str());
                state.push_text(" tot ");
                let r = render_date(LongLang::Nl, b, true);
                state.push_text(r.as_str());
            },
            (Some(a), None) => {
                let t = concat2(subj, " was beroepsmatig actief vanaf ");
                state.push_text(t.as_str());
                let r = render_date(LongLang::Nl, a, true);
                state.push_text(r.as_str());
            },
            (None, Some(b)) => {
                let t = concat2(subj, " was beroepsmatig actief tot ");
                state.push_text(t.as_str());
                let r = render_date(LongLang::Nl, b, true);
                state.push_text(r.as_str());
            },
            (None, None) => {},
        },
    }
    state.push_text(". ");
    assert(frags(*state) =~= s0 + career_text(f, *claims));
}

/// Append the first sentence.
pub fn add_first_sentence(
    state: &mut LongDescState,
    q: &str,
    claims: &Json,
    sd: &ShortDescription,
    wd: &WikiData,
)
    ensures
        flags_of(*final(state)) == flags_of(*old(state)),
        frags(*final(state)) == frags(*old(state)) + first_sentence(flags_of(*old(state)), q@, *claims, *sd, wd@),
{
    let ghost f = flags_of(*state);
    let ghost s0 = frags(*state);
    let c = cfg();
    add_first_head(state, q, claims, sd, wd);
    add_career(state, claims);
    let events = get_claim_item_ids(claims, "P793");
    let subj = state.pronoun_subject(&c);
    let intro = concat2(subj, " speelde een rol in ");
    push_sentence(state, LongLang::Nl, intro.as_str(), &events, ".");
    state.push_newline();
    assert(frags(*state) =~= s0 + first_sentence(f, q@, *claims, *sd, wd@));
}

/// Append the birth sentence.
fn add_birth_body(state: &mut LongDescState, claims: &Json)
    ensures
        flags_of(*final(state)) == flags_of(*old(state)),
        frags(*final(state)) == frags(*old(state)) + birth_body(flags_of(*old(state)), *claims),
{
    let ghost f = flags_of(*state);
    let ghost s0 = frags(*state);
    let c = cfg();
    let subj = state.pronoun_subject(&c);
    let intro = concat2(subj, " werd geboren ");
    state.push_text(intro.as_str());
    let birthname = get_first_claim_string(claims, "P513");
    match &birthname {
        Some(name) => {
            let t = concat3("<i>", name.as_str(), "</i> ");
            state.push_text(t.as_str());
        },
        None => {},
    }
    let date = first_claim_date_of(claims, "P569");
    push_date(state, LongLang::Nl, &date, false);
    let birthplace = get_first_claim_item(claims, "P19");
    push_opt_item(state, &birthplace, "in ", " ");
    push_parents(state, claims, "als kind van ", "en ");
    state.push_text(". ");
    state.push_newline();
    assert(frags(*state) =~= s0 + birth_body(f, *claims));
}

/// Append the birth.
pub fn add_birth_text(state: &mut LongDescState, claims: &Json)
    ensures
        flags_of(*final(state)) == flags_of(*old(state)),
        frags(*final(state)) == frags(*old(state)) + birth_text(flags_of(*old(state)), *claims),
{
    let ghost s0 = frags(*state);
    let has_date = has_claims(claims, "P569");
    let birthplace = get_first_claim_item(claims, "P19");
    let birthname = get_first_claim_string(claims, "P513");
    if !has_date && birthplace.is_none() && birthname.is_none() {
        assert(frags(*state) =~= s0 + Seq::<FragView>::empty());
        return;
    }
    add_birth_body(state, claims);
}

/// Append the work.
#[verifier::rlimit(80)]
pub fn add_work_text(state: &mut LongDescState, claims: &Json)
    ensures
        flags_of(*final(state)) == flags_of(*old(state)),
        frags(*final(state)) == frags(*old(state)) + work_text(flags_of(*old(state)), *claims),
{
    let ghost f = flags_of(*state);
    let ghost s0 = frags(*state);
    let c = cfg();
    let subj = state.pronoun_subject(&c);
    let poss = state.pronoun_possessive(&c);
    let verb = if state.is_dead {
        "was "
    } else {
        "is/was "
    };
    let alma = dated_items_with(claims, "P69", None);
    let t = concat2(subj, " studeerde op de ");
    push_dated_sentence(state, LongLang::Nl, t.as_str(), &alma, None, None);
    let fields = get_work_fields(claims);
    let mut t = concat2(poss, " werkveld ");
    t.append(if state.is_dead {
        "omvatte"
    } else {
        "omvat"
    });
    t.append(" ");
    push_sentence(state, LongLang::Nl, t.as_str(), &fields, ". ");
    let positions = dated_items_with(claims, "P39", Some("P642"));
    let t = concat3(subj, " ", verb);
    push_dated_sentence(state, LongLang::Nl, t.as_str(), &positions, None, None);
    let members = dated_items_with(claims, "P463", None);
    let mut t = concat3(subj, " ", verb);
    t.append("een lid van ");
    push_dated_sentence(state, LongLang::Nl, t.as_str(), &members, None, None);
    let employers = dated_items_with(claims, "P108", Some("P794"));
    let t = concat2(subj, " werkte voor ");
    push_dated_sentence(state, LongLang::Nl, t.as_str(), &employers, Some(("P794", "als ")), Some("voor "));
    let works = get_claim_item_ids(claims, "P800");
    let mut t = concat2(poss, " bekende werk ");
    t.append(if state.is_dead {
        "omvatte"
    } else {
        "omvat"
    });
    t.append(" ");
    push_sentence(state, LongLang::Nl, t.as_str(), &works, ". ");
    state.push_newline();
    assert(frags(*state) =~= s0 + work_text(f, *claims));
}

/// Append the family.
pub fn add_family_text(state: &mut LongDescState, claims: &Json)
    ensures
        flags_of(*final(state)) == flags_of(*old(state)),
        frags(*final(state)) == frags(*old(state)) + family_text(flags_of(*old(state)), *claims),
{
    let ghost f = flags_of(*state);
    let ghost s0 = frags(*state);
    let c = cfg();
    let spouses = dated_items_with(claims, "P26", None);
    let subj = state.pronoun_subject(&c);
    let t = concat2(subj, " trouwde ");
    push_spouse_sentence(state, LongLang::Nl, t.as_str(), &spouses, "(getrouwd tot ", false);
    let children = get_claim_item_ids(claims, "P40");
    let poss = state.pronoun_possessive(&c);
    let t = concat2(poss, " kinderen zijn ");
    push_sentence(state, LongLang::Nl, t.as_str(), &children, ". ");
    state.push_newline();
    assert(frags(*state) =~= s0 + family_text(f, *claims));
}

/// Append the death sentence.
fn add_death_body(state: &mut LongDescState, claims: &Json)
    ensures
        flags_of(*final(state)) == flags_of(*old(state)),
        frags(*final(state)) == frags(*old(state)) + death_body(flags_of(*old(state)), *claims),
{
    let ghost f = flags_of(*state);
    let ghost s0 = frags(*state);
    let c = cfg();
    let subj = state.pronoun_subject(&c);
    let t = concat2(subj, " stierf ");
    state.push_text(t.as_str());
    if has_claims(claims, "P509") {
        let causes = get_claim_item_ids(claims, "P509");
        push_simple_list(state, LongLang::Nl, &causes, "ten gevolge van ", " ");
    }
    let ghost s1 = frags(*state);
    if has_claims(claims, "P157") {
        let killers = get_claim_item_ids(claims, "P157");
        push_simple_list(state, LongLang::Nl, &killers, "door ", " ");
    }
    let date = first_claim_date_of(claims, "P570");
    push_date(state, LongLang::Nl, &date, false);
    let deathplace = get_first_claim_item(claims, "P20");
    push_opt_item(state, &deathplace, "in ", " ");
    state.push_text(". ");
    assert(frags(*state) =~= s0 + death_body(f, *claims));
}

/// Append the death and burial.
pub fn add_death_text(state: &mut LongDescState, claims: &Json)
    ensures
        flags_of(*final(state)) == flags_of(*old(state)),
        frags(*final(state)) == frags(*old(state)) + death_text(flags_of(*old(state)), *claims),
{
    let ghost f = flags_of(*state);
    let ghost s0 = frags(*state);
    let c = cfg();
    let known = has_claims(claims, "P570") || get_first_claim_item(claims, "P20").is_some() || has_claims(
        claims,
        "P509",
    ) || has_claims(claims, "P157");
    if known {
        add_death_body(state, claims);
    }
    let ghost s1 = frags(*state);
    assert(s1 == s0 + (if known {
        death_body(f, *claims)
    } else {
        Seq::<FragView>::empty()
    }));
    let burial = get_first_claim_item(claims, "P119");
    let subj = state.pronoun_subject(&c);
    let before = concat2(subj, " werd begraven in ");
    push_opt_item(state, &burial, before.as_str(), ". ");
    assert(frags(*state) =~= s0 + death_text(f, *claims));
}

/// Append the whole Dutch description.
pub fn generate(state: &mut LongDescState, q: &str, claims: &Json, sd: &ShortDescription, wd: &WikiData)
    ensures
        flags_of(*final(state)) == flags_of(*old(state)),
        frags(*final(state)) == frags(*old(state)) + description(flags_of(*old(state)), q@, *claims, *sd, wd@),
{
    let ghost f = flags_of(*state);
    let ghost s0 = frags(*state);
    add_first_sentence(state, q, claims, sd, wd);
    add_birth_text(state, claims);
    add_work_text(state, claims);
    add_family_text(state, claims);
    add_death_text(state, claims);
    proof {
        crate::long_desc::lemma_appended_in_turn(
            s0,
            first_sentence(f, q@, *claims, *sd, wd@),
            birth_text(f, *claims),
            work_text(f, *claims),
            family_text(f, *claims),
            death_text(f, *claims),
            frags(*state),
        );
    }
}

} // verus!
