//! Long prose descriptions of persons in German, English, French and
//! Dutch: the text is built as a list of fragments, literal texts and item
//! references, which are then resolved to labels or links.

use vstd::prelude::*;
use crate::desc_options::DescOptions;
use crate::json::{Json, jarr, jarr_or_empty, jget, jstr, ju64, member, opt_array, opt_get, opt_str, opt_u64};
use crate::short_desc::claims::q_id;
use crate::short_desc::labeler::{format_item_link, link_text};
use crate::str_map::{StrMap, find};
use crate::text::{is_white_space, lemma_str_le_total, lemma_str_le_transitive, owned, push_char, replace_pair, str_eq, str_le, trim, views};
use crate::wikidata::WikiData;
use crate::wikidata_item::{WikiDataItem, id_of, item_ids, label_of, no_duplicates, push_unique, target_item_id, target_string};
use crate::long_desc::render::LongLang;
use crate::short_desc::ShortDescription;
use crate::short_desc::claims::{has_link, is_person_spec};

pub mod lang_de;
pub mod render;
pub mod lang_en;
pub mod lang_fr;
pub mod lang_nl;

verus! {

/// A fragment of a long description: a literal text, or an item that is
/// resolved to its label or a link, between two texts.
#[derive(Debug)]
pub enum Fragment {
    Text(String),
    Item { q: String, before: String, after: String },
}

/// What a fragment holds.
pub enum FragView {
    Text(Seq<char>),
    Item(Seq<char>, Seq<char>, Seq<char>),
}

/// The contents of a fragment.
pub open spec fn frag_view(f: Fragment) -> FragView {
    match f {
        Fragment::Text(s) => FragView::Text(s@),
        Fragment::Item { q, before, after } => FragView::Item(q@, before@, after@),
    }
}

/// The contents of a list of fragments.
pub open spec fn frag_views(fs: Seq<Fragment>) -> Seq<FragView> {
    fs.map_values(|f: Fragment| frag_view(f))
}

/// A text fragment.
pub open spec fn tx(s: Seq<char>) -> FragView {
    FragView::Text(s)
}

/// An item fragment.
pub open spec fn it(q: Seq<char>, before: Seq<char>, after: Seq<char>) -> FragView {
    FragView::Item(q, before, after)
}

/// A date of a Wikidata time value: the time string and its precision.
#[derive(Debug)]
pub struct WdDate {
    pub time: String,
    pub precision: u64,
}

/// An item with optional start and end dates and qualifier items.
#[derive(Debug)]
pub struct DatedItem {
    pub q: String,
    pub date_from: Option<WdDate>,
    pub date_to: Option<WdDate>,
    pub qualifier_items: StrMap<Vec<String>>,
}

/// What a date holds.
pub open spec fn date_view(d: Option<WdDate>) -> Option<(Seq<char>, u64)> {
    match d {
        Some(x) => Some((x.time@, x.precision)),
        None => None,
    }
}

/// What a dated item holds.
pub struct DatedView {
    pub q: Seq<char>,
    pub from: Option<(Seq<char>, u64)>,
    pub to: Option<(Seq<char>, u64)>,
    pub quals: Seq<(Seq<char>, Seq<Seq<char>>)>,
}

/// The contents of a dated item.
pub open spec fn dated_view(d: DatedItem) -> DatedView {
    DatedView {
        q: d.q@,
        from: date_view(d.date_from),
        to: date_view(d.date_to),
        quals: d.qualifier_items@.map_values(|e: (Seq<char>, Vec<String>)| (e.0, views(e.1@))),
    }
}

/// The contents of a list of dated items.
pub open spec fn dated_views(s: Seq<DatedItem>) -> Seq<DatedView> {
    s.map_values(|d: DatedItem| dated_view(d))
}

/// The first qualifier item of kind `key`.
pub open spec fn first_qual(d: DatedView, key: Seq<char>) -> Option<Seq<char>> {
    match find(d.quals, key) {
        Some(v) => if v.len() > 0 {
            Some(v[0])
        } else {
            None
        },
        None => None,
    }
}

/// The state a long description is built in.
pub struct LongDescState {
    pub lang: String,
    pub is_male: bool,
    pub is_female: bool,
    pub is_dead: bool,
    pub fragments: Vec<Fragment>,
    pub newline: String,
}

/// The parts of a state that stay while fragments are added.
pub struct Flags {
    pub lang: Seq<char>,
    pub is_male: bool,
    pub is_female: bool,
    pub is_dead: bool,
    pub newline: Seq<char>,
}

/// The parts of a state that stay while fragments are added.
pub open spec fn flags_of(s: LongDescState) -> Flags {
    Flags { lang: s.lang@, is_male: s.is_male, is_female: s.is_female, is_dead: s.is_dead, newline: s.newline@ }
}

/// The fragments of a state.
pub open spec fn frags(s: LongDescState) -> Seq<FragView> {
    frag_views(s.fragments@)
}

/// Pronoun and verb forms of a language.
pub struct LangConfig {
    pub pronoun_subject_male: &'static str,
    pub pronoun_possessive_male: &'static str,
    pub pronoun_subject_female: &'static str,
    pub pronoun_possessive_female: &'static str,
    pub pronoun_subject_neutral: &'static str,
    pub pronoun_possessive_neutral: &'static str,
    pub be_present_singular: &'static str,
    pub be_past_singular: &'static str,
    pub be_present_neutral: &'static str,
    pub be_past_neutral: &'static str,
}

/// The subject pronoun of a person.
pub open spec fn subject_of(f: Flags, cfg: LangConfig) -> Seq<char> {
    if f.is_male {
        cfg.pronoun_subject_male@
    } else if f.is_female {
        cfg.pronoun_subject_female@
    } else {
        cfg.pronoun_subject_neutral@
    }
}

/// The possessive pronoun of a person.
pub open spec fn possessive_of(f: Flags, cfg: LangConfig) -> Seq<char> {
    if f.is_male {
        cfg.pronoun_possessive_male@
    } else if f.is_female {
        cfg.pronoun_possessive_female@
    } else {
        cfg.pronoun_possessive_neutral@
    }
}

/// The present tense of "to be" for a person.
pub open spec fn be_present_of(f: Flags, cfg: LangConfig) -> Seq<char> {
    if !f.is_male && !f.is_female {
        cfg.be_present_neutral@
    } else {
        cfg.be_present_singular@
    }
}

/// The past tense of "to be" for a person.
pub open spec fn be_past_of(f: Flags, cfg: LangConfig) -> Seq<char> {
    if !f.is_male && !f.is_female {
        cfg.be_past_neutral@
    } else {
        cfg.be_past_singular@
    }
}

impl LongDescState {
    pub fn pronoun_subject(&self, cfg: &LangConfig) -> (r: &'static str)
        ensures
            r@ == subject_of(flags_of(*self), *cfg),
    {
        if self.is_male {
            cfg.pronoun_subject_male
        } else if self.is_female {
            cfg.pronoun_subject_female
        } else {
            cfg.pronoun_subject_neutral
        }
    }

    pub fn pronoun_possessive(&self, cfg: &LangConfig) -> (r: &'static str)
        ensures
            r@ == possessive_of(flags_of(*self), *cfg),
    {
        if self.is_male {
            cfg.pronoun_possessive_male
        } else if self.is_female {
            cfg.pronoun_possessive_female
        } else {
            cfg.pronoun_possessive_neutral
        }
    }

    pub fn be_present(&self, cfg: &LangConfig) -> (r: &'static str)
        ensures
            r@ == be_present_of(flags_of(*self), *cfg),
    {
        if !self.is_male && !self.is_female {
            cfg.be_present_neutral
        } else {
            cfg.be_present_singular
        }
    }

    pub fn be_past(&self, cfg: &LangConfig) -> (r: &'static str)
        ensures
            r@ == be_past_of(flags_of(*self), *cfg),
    {
        if !self.is_male && !self.is_female {
            cfg.be_past_neutral
        } else {
            cfg.be_past_singular
        }
    }

    /// Append a text fragment.
    pub fn push_text(&mut self, s: &str)
        ensures
            flags_of(*final(self)) == flags_of(*old(self)),
            frags(*final(self)) == frags(*old(self)).push(tx(s@)),
    {
        let ghost before = self.fragments@;
        self.fragments.push(Fragment::Text(owned(s)));
        assert(frag_views(self.fragments@) =~= frag_views(before).push(tx(s@)));
    }

    /// Append an item fragment.
    pub fn push_item(&mut self, q: &str, before: &str, after: &str)
        ensures
            flags_of(*final(self)) == flags_of(*old(self)),
            frags(*final(self)) == frags(*old(self)).push(it(q@, before@, after@)),
    {
        let ghost prev = self.fragments@;
        self.fragments.push(Fragment::Item { q: owned(q), before: owned(before), after: owned(after) });
        assert(frag_views(self.fragments@) =~= frag_views(prev).push(it(q@, before@, after@)));
    }

    /// Append the line break of the output format.
    pub fn push_newline(&mut self)
        ensures
            flags_of(*final(self)) == flags_of(*old(self)),
            frags(*final(self)) == frags(*old(self)).push(tx(old(self).newline@)),
    {
        let ghost before = self.fragments@;
        let nl = self.newline.clone();
        self.fragments.push(Fragment::Text(nl));
        assert(frag_views(self.fragments@) =~= frag_views(before).push(tx(old(self).newline@)));
    }

    /// Drop the fragments after the first `n`.
    pub fn truncate_fragments(&mut self, n: usize)
        requires
            n <= old(self).fragments@.len(),
        ensures
            flags_of(*final(self)) == flags_of(*old(self)),
            frags(*final(self)) == frags(*old(self)).take(n as int),
    {
        let ghost before = self.fragments@;
        self.fragments.truncate(n);
        assert(frag_views(self.fragments@) =~= frag_views(before).take(n as int));
    }
}

/// The languages with long descriptions.
pub open spec fn long_desc_languages() -> Seq<Seq<char>> {
    seq!["de"@, "en"@, "nl"@, "fr"@]
}

/// Whether a long description is available for the given language.
pub fn is_long_desc_available(lang: &str) -> (r: bool)
    ensures
        r == long_desc_languages().contains(lang@),
{
    let r = str_eq(lang, "de") || str_eq(lang, "en") || str_eq(lang, "nl") || str_eq(lang, "fr");
    proof {
        let l = long_desc_languages();
        if r {
            if lang@ == "de"@ {
                assert(l[0] == lang@);
            } else if lang@ == "en"@ {
                assert(l[1] == lang@);
            } else if lang@ == "nl"@ {
                assert(l[2] == lang@);
            } else {
                assert(l[3] == lang@);
            }
        } else {
            assert forall|i: int| 0 <= i < l.len() implies l[i] != lang@ by {}
        }
    }
    r
}

// ─── Claim helpers ───────────────────────────────────────────────────────────

/// The claims of a property, by its id.
pub open spec fn claims_of(claims: Json, prop: Seq<char>) -> Seq<Json> {
    jarr_or_empty(member(claims, prop))
}

/// The claims of a property as an array, when they are one.
fn prop_array<'a>(claims: &'a Json, prop: &str) -> (r: Option<&'a Vec<Json>>)
    ensures
        match r {
            Some(a) => jarr(member(*claims, prop@)) == Some(a@),
            None => jarr(member(*claims, prop@)) is None,
        },
{
    opt_array(claims.get(prop))
}

/// Whether the claims hold any value for a property.
pub fn has_claims(claims: &Json, prop: &str) -> (r: bool)
    ensures
        r == (claims_of(*claims, prop@).len() > 0),
{
    match prop_array(claims, prop) {
        Some(a) => a.len() > 0,
        None => false,
    }
}

/// The items the claims of a property point to, in order.
pub fn get_claim_item_ids(claims: &Json, prop: &str) -> (r: Vec<String>)
    ensures
        views(r@) == item_ids(claims_of(*claims, prop@)),
{
    match prop_array(claims, prop) {
        Some(a) => WikiDataItem::claim_item_ids(a.as_slice()),
        None => {
            let r: Vec<String> = Vec::new();
            assert(views(r@) =~= Seq::<Seq<char>>::empty());
            r
        },
    }
}

/// The item the first claim of a property points to.
pub open spec fn first_item(claims: Json, prop: Seq<char>) -> Option<Seq<char>> {
    let a = claims_of(claims, prop);
    if a.len() > 0 {
        target_item_id(a[0])
    } else {
        None
    }
}

/// The item the first claim of a property points to.
pub fn get_first_claim_item(claims: &Json, prop: &str) -> (r: Option<String>)
    ensures
        match r {
            Some(s) => first_item(*claims, prop@) == Some(s@),
            None => first_item(*claims, prop@) is None,
        },
{
    match prop_array(claims, prop) {
        Some(a) => if a.len() > 0 {
            WikiDataItem::get_claim_target_item_id(&a[0])
        } else {
            None
        },
        None => None,
    }
}

/// The string value of the first claim of a property.
pub open spec fn first_string(claims: Json, prop: Seq<char>) -> Option<Seq<char>> {
    let a = claims_of(claims, prop);
    if a.len() > 0 {
        target_string(a[0])
    } else {
        None
    }
}

/// The string value of the first claim of a property (such as the birth
/// name).
pub fn get_first_claim_string(claims: &Json, prop: &str) -> (r: Option<String>)
    ensures
        match r {
            Some(s) => first_string(*claims, prop@) == Some(s@),
            None => first_string(*claims, prop@) is None,
        },
{
    match prop_array(claims, prop) {
        Some(a) => if a.len() > 0 {
            WikiDataItem::get_claim_target_string(&a[0])
        } else {
            None
        },
        None => None,
    }
}

/// The date of a time value: its time string and precision (9 when the
/// precision is no non-negative integer); nothing without a time string or
/// without a precision.
pub open spec fn value_date(v: Option<Json>) -> Option<(Seq<char>, u64)> {
    match jstr(jget(v, "time"@)) {
        Some(t) => match jget(v, "precision"@) {
            Some(p) => Some(
                (
                    t,
                    match ju64(Some(p)) {
                        Some(n) => n,
                        None => 9,
                    },
                ),
            ),
            None => None,
        },
        None => None,
    }
}

/// The date of a time value.
fn date_of_value(v: Option<&Json>) -> (r: Option<WdDate>)
    ensures
        date_view(r) == value_date(crate::json::opt_val(v)),
{
    match opt_str(opt_get(v, "time")) {
        Some(t) => match opt_get(v, "precision") {
            Some(p) => {
                let precision = match p.as_u64() {
                    Some(n) => n,
                    None => 9,
                };
                Some(WdDate { time: owned(t), precision })
            },
            None => None,
        },
        None => None,
    }
}

/// The date of a claim's main value.
pub open spec fn claim_date(claim: Json) -> Option<(Seq<char>, u64)> {
    value_date(jget(crate::wikidata_item::datavalue_of(claim), "value"@))
}

/// The date of a claim's main value.
pub fn extract_claim_date(claim: &Json) -> (r: Option<WdDate>)
    ensures
        date_view(r) == claim_date(*claim),
{
    date_of_value(opt_get(opt_get(claim.get("mainsnak"), "datavalue"), "value"))
}

/// The date of the first claim of a property.
pub open spec fn first_claim_date(claims: Json, prop: Seq<char>) -> Option<(Seq<char>, u64)> {
    let a = claims_of(claims, prop);
    if a.len() > 0 {
        claim_date(a[0])
    } else {
        None
    }
}

/// The date of the first claim of a property.
pub fn first_claim_date_of(claims: &Json, prop: &str) -> (r: Option<WdDate>)
    ensures
        date_view(r) == first_claim_date(*claims, prop@),
{
    match prop_array(claims, prop) {
        Some(a) => if a.len() > 0 {
            extract_claim_date(&a[0])
        } else {
            None
        },
        None => None,
    }
}

/// Whether a property has a first claim at all.
pub open spec fn has_first_claim(claims: Json, prop: Seq<char>) -> bool {
    claims_of(claims, prop).len() > 0
}

/// The date of the first qualifier of kind `prop`.
pub open spec fn qualifier_date(qs: Option<Json>, prop: Seq<char>) -> Option<(Seq<char>, u64)> {
    match jarr(jget(qs, prop)) {
        Some(a) => if a.len() > 0 {
            value_date(jget(jget(Some(a[0]), "datavalue"@), "value"@))
        } else {
            None
        },
        None => None,
    }
}

/// The date of the first qualifier of kind `prop`.
pub fn extract_date_qualifier(qualifiers: &Json, prop: &str) -> (r: Option<WdDate>)
    ensures
        date_view(r) == qualifier_date(Some(*qualifiers), prop@),
{
    match opt_array(qualifiers.get(prop)) {
        Some(a) => if a.len() > 0 {
            date_of_value(opt_get(a[0].get("datavalue"), "value"))
        } else {
            None
        },
        None => None,
    }
}

fn qualifier_date_of(qs: Option<&Json>, prop: &str) -> (r: Option<WdDate>)
    ensures
        date_view(r) == qualifier_date(crate::json::opt_val(qs), prop@),
{
    match qs {
        Some(q) => extract_date_qualifier(q, prop),
        None => None,
    }
}

/// The item a qualifier value names: its `id`, else `Q` and its
/// `numeric-id`.
pub open spec fn qual_ref(v: Json) -> Option<Seq<char>> {
    let dv = jget(jget(Some(v), "datavalue"@), "value"@);
    match jstr(jget(dv, "id"@)) {
        Some(id) => Some(id),
        None => match ju64(jget(dv, "numeric-id"@)) {
            Some(n) => Some(q_id(n as nat)),
            None => None,
        },
    }
}

/// The item a qualifier value names.
fn qualifier_ref(v: &Json) -> (r: Option<String>)
    ensures
        match r {
            Some(s) => qual_ref(*v) == Some(s@),
            None => qual_ref(*v) is None,
        },
{
    let dv = opt_get(v.get("datavalue"), "value");
    match opt_str(opt_get(dv, "id")) {
        Some(id) => Some(owned(id)),
        None => match opt_u64(opt_get(dv, "numeric-id")) {
            Some(n) => Some(crate::short_desc::claims::item_id(n)),
            None => None,
        },
    }
}

/// The items a list of qualifier values names, in order.
pub open spec fn qual_refs(vs: Seq<Json>) -> Seq<Seq<char>>
    decreases vs.len(),
{
    if vs.len() == 0 {
        Seq::empty()
    } else {
        let r = qual_refs(vs.drop_last());
        match qual_ref(vs.last()) {
            Some(x) => r.push(x),
            None => r,
        }
    }
}

/// The items the qualifiers of kind `key` name.
fn qualifier_refs(vs: &Vec<Json>) -> (r: Vec<String>)
    ensures
        views(r@) == qual_refs(vs@),
{
    let mut r: Vec<String> = Vec::new();
    let mut i: usize = 0;
    assert(vs@.take(0) =~= Seq::<Json>::empty());
    assert(views(r@) =~= Seq::<Seq<char>>::empty());
    while i < vs.len()
        invariant
            i <= vs@.len(),
            views(r@) == qual_refs(vs@.take(i as int)),
        decreases vs.len() - i,
    {
        assert(vs@.take(i + 1).drop_last() =~= vs@.take(i as int));
        assert(vs@.take(i + 1).last() == vs@[i as int]);
        match qualifier_ref(&vs[i]) {
            Some(x) => {
                let ghost prev = r@;
                r.push(x);
                assert(views(r@) =~= views(prev).push(r@.last()@));
            },
            None => {},
        }
        i = i + 1;
    }
    assert(vs@.take(vs@.len() as int) =~= vs@);
    r
}

/// The qualifier items of the kinds `keys` that name any item.
pub open spec fn qual_lists(qs: Option<Json>, keys: Seq<Seq<char>>) -> Seq<(Seq<char>, Seq<Seq<char>>)>
    decreases keys.len(),
{
    if keys.len() == 0 {
        Seq::empty()
    } else {
        let r = qual_lists(qs, keys.drop_last());
        let refs = qual_refs(jarr_or_empty(jget(qs, keys.last())));
        if refs.len() > 0 {
            r.push((keys.last(), refs))
        } else {
            r
        }
    }
}

/// What a claim makes as a dated item: its item, its start date (point in
/// time, else start time), its end date (point in time, else end time) and
/// its qualifier items.
pub open spec fn dated_of(claim: Json, keys: Seq<Seq<char>>) -> Option<DatedView> {
    match target_item_id(claim) {
        None => None,
        Some(q) => {
            let qs = jget(Some(claim), "qualifiers"@);
            Some(
                DatedView {
                    q,
                    from: match qualifier_date(qs, "P581"@) {
                        Some(d) => Some(d),
                        None => qualifier_date(qs, "P580"@),
                    },
                    to: match qualifier_date(qs, "P581"@) {
                        Some(d) => Some(d),
                        None => qualifier_date(qs, "P582"@),
                    },
                    quals: qual_lists(qs, keys),
                },
            )
        },
    }
}

/// The dated items of a list of claims, in claim order.
pub open spec fn dated_list(claims: Seq<Json>, keys: Seq<Seq<char>>) -> Seq<DatedView>
    decreases claims.len(),
{
    if claims.len() == 0 {
        Seq::empty()
    } else {
        let r = dated_list(claims.drop_last(), keys);
        match dated_of(claims.last(), keys) {
            Some(d) => r.push(d),
            None => r,
        }
    }
}

/// The time a dated item is ordered by: its start, else its end, else
/// `""`.
pub open spec fn sort_key(d: DatedView) -> Seq<char> {
    match d.from {
        Some((t, _)) => t,
        None => match d.to {
            Some((t, _)) => t,
            None => Seq::empty(),
        },
    }
}

/// `x` put into the ordered list `s` after every item whose time is not
/// later.
pub open spec fn insert_sorted(s: Seq<DatedView>, x: DatedView) -> Seq<DatedView>
    decreases s.len(),
{
    if s.len() == 0 || str_le(sort_key(s.last()), sort_key(x)) {
        s.push(x)
    } else {
        insert_sorted(s.drop_last(), x).push(s.last())
    }
}

/// The dated items ordered by time, keeping the claim order among equal
/// times (a stable sort).
pub open spec fn sorted_by_time(s: Seq<DatedView>) -> Seq<DatedView>
    decreases s.len(),
{
    if s.len() == 0 {
        s
    } else {
        insert_sorted(sorted_by_time(s.drop_last()), s.last())
    }
}

/// Each item's time comes before or equals the time of every later item.
pub open spec fn time_ordered(s: Seq<DatedView>) -> bool {
    forall|i: int, j: int|
        0 <= i < j < s.len() ==> str_le(#[trigger] sort_key(s[i]), #[trigger] sort_key(s[j]))
}

proof fn lemma_insert_bounded(s: Seq<DatedView>, x: DatedView, b: Seq<char>)
    requires
        forall|i: int| 0 <= i < s.len() ==> str_le(#[trigger] sort_key(s[i]), b),
        str_le(sort_key(x), b),
    ensures
        forall|i: int|
            0 <= i < insert_sorted(s, x).len() ==> str_le(
                #[trigger] sort_key(insert_sorted(s, x)[i]),
                b,
            ),
    decreases s.len(),
{
    if !(s.len() == 0 || str_le(sort_key(s.last()), sort_key(x))) {
        lemma_insert_bounded(s.drop_last(), x, b);
        let r = insert_sorted(s.drop_last(), x);
        assert forall|i: int| 0 <= i < r.push(s.last()).len() implies str_le(
            #[trigger] sort_key(r.push(s.last())[i]),
            b,
        ) by {
            if i < r.len() {
                assert(r.push(s.last())[i] == r[i]);
            }
        }
    }
}

proof fn lemma_insert_sorted(s: Seq<DatedView>, x: DatedView)
    requires
        time_ordered(s),
    ensures
        time_ordered(insert_sorted(s, x)),
        insert_sorted(s, x).to_multiset() == s.to_multiset().insert(x),
    decreases s.len(),
{
    broadcast use vstd::seq_lib::group_to_multiset_ensures;

    if s.len() == 0 || str_le(sort_key(s.last()), sort_key(x)) {
        let r = s.push(x);
        assert forall|i: int, j: int| 0 <= i < j < r.len() implies str_le(
            #[trigger] sort_key(r[i]),
            #[trigger] sort_key(r[j]),
        ) by {
            if j == s.len() {
                if i < s.len() - 1 {
                    lemma_str_le_transitive(sort_key(s[i]), sort_key(s.last()), sort_key(x));
                }
            } else {
                assert(r[i] == s[i] && r[j] == s[j]);
            }
        }
    } else {
        let t = s.drop_last();
        assert(time_ordered(t)) by {
            assert forall|i: int, j: int| 0 <= i < j < t.len() implies str_le(
                #[trigger] sort_key(t[i]),
                #[trigger] sort_key(t[j]),
            ) by {
                assert(t[i] == s[i] && t[j] == s[j]);
            }
        }
        lemma_insert_sorted(t, x);
        let m = s.last();
        lemma_str_le_total(sort_key(m), sort_key(x));
        assert forall|i: int| 0 <= i < t.len() implies str_le(#[trigger] sort_key(t[i]), sort_key(m)) by {
            assert(t[i] == s[i]);
            assert(sort_key(s[i]) == sort_key(t[i]));
            assert(str_le(sort_key(s[i]), sort_key(s[s.len() - 1])));
        }
        lemma_insert_bounded(t, x, sort_key(m));
        let r = insert_sorted(t, x);
        let q = r.push(m);
        assert forall|i: int, j: int| 0 <= i < j < q.len() implies str_le(
            #[trigger] sort_key(q[i]),
            #[trigger] sort_key(q[j]),
        ) by {
            assert(q[i] == r[i]);
            if j == r.len() {
                assert(q[j] == m);
            } else {
                assert(q[j] == r[j]);
            }
        }
        assert(s == t.push(m));
    }
}

/// Ordering dated items by time puts their times in order and keeps every
/// item, each as often as it came.
pub proof fn lemma_sorted_by_time(s: Seq<DatedView>)
    ensures
        time_ordered(sorted_by_time(s)),
        sorted_by_time(s).to_multiset() == s.to_multiset(),
    decreases s.len(),
{
    broadcast use vstd::seq_lib::group_to_multiset_ensures;

    if s.len() == 0 {
        assert(s.to_multiset() =~= vstd::multiset::Multiset::empty());
    } else {
        lemma_sorted_by_time(s.drop_last());
        lemma_insert_sorted(sorted_by_time(s.drop_last()), s.last());
        assert(s == s.drop_last().push(s.last()));
    }
}

/// What `get_dated_items` returns.
pub open spec fn dated_items(claims: Json, prop: Seq<char>, keys: Seq<Seq<char>>) -> Seq<DatedView> {
    sorted_by_time(dated_list(claims_of(claims, prop), keys))
}

/// The dated items of a property come ordered by their time, and are those
/// of its claims, none lost and none added.
pub proof fn lemma_dated_items_ordered(claims: Json, prop: Seq<char>, keys: Seq<Seq<char>>)
    ensures
        time_ordered(dated_items(claims, prop, keys)),
        dated_items(claims, prop, keys).to_multiset() == dated_list(claims_of(claims, prop), keys).to_multiset(),
{
    lemma_sorted_by_time(dated_list(claims_of(claims, prop), keys));
}

/// The qualifier items of the kinds `keys`.
fn qualifier_lists(qs: Option<&Json>, keys: &[&str]) -> (r: StrMap<Vec<String>>)
    ensures
        r@.map_values(|e: (Seq<char>, Vec<String>)| (e.0, views(e.1@))) == qual_lists(
            crate::json::opt_val(qs),
            keys@.map_values(|k: &str| k@),
        ),
{
    let ghost ks = keys@.map_values(|k: &str| k@);
    let mut entries: Vec<(String, Vec<String>)> = Vec::new();
    let mut i: usize = 0;
    assert(ks.take(0) =~= Seq::<Seq<char>>::empty());
    assert(entries@.map_values(|e: (String, Vec<String>)| (e.0@, views(e.1@))) =~= qual_lists(
        crate::json::opt_val(qs),
        ks.take(0),
    ));
    while i < keys.len()
        invariant
            ks == keys@.map_values(|k: &str| k@),
            i <= keys@.len(),
            entries@.map_values(|e: (String, Vec<String>)| (e.0@, views(e.1@))) == qual_lists(
                crate::json::opt_val(qs),
                ks.take(i as int),
            ),
        decreases keys.len() - i,
    {
        assert(ks.take(i + 1).drop_last() =~= ks.take(i as int));
        assert(ks.take(i + 1).last() == keys@[i as int]@);
        let key = keys[i];
        let refs = match opt_array(opt_get(qs, key)) {
            Some(a) => qualifier_refs(a),
            None => {
                let e: Vec<String> = Vec::new();
                assert(views(e@) =~= Seq::<Seq<char>>::empty());
                assert(qual_refs(Seq::<Json>::empty()) == Seq::<Seq<char>>::empty());
                e
            },
        };
        if refs.len() > 0 {
            let ghost prev = entries@;
            let ghost rv = views(refs@);
            entries.push((owned(key), refs));
            assert(entries@.map_values(|e: (String, Vec<String>)| (e.0@, views(e.1@))) =~= prev.map_values(
                |e: (String, Vec<String>)| (e.0@, views(e.1@)),
            ).push((key@, rv)));
        }
        i = i + 1;
    }
    assert(ks.take(keys@.len() as int) =~= ks);
    let r = StrMap::from_entries(entries);
    assert(r@.map_values(|e: (Seq<char>, Vec<String>)| (e.0, views(e.1@))) =~= qual_lists(
        crate::json::opt_val(qs),
        ks,
    ));
    r
}

/// The dated item a claim makes.
fn dated_item_of(claim: &Json, keys: &[&str]) -> (r: Option<DatedItem>)
    ensures
        match r {
            Some(d) => dated_of(*claim, keys@.map_values(|k: &str| k@)) == Some(dated_view(d)),
            None => dated_of(*claim, keys@.map_values(|k: &str| k@)) is None,
        },
{
    let q = match WikiDataItem::get_claim_target_item_id(claim) {
        Some(q) => q,
        None => return None,
    };
    let qs = claim.get("qualifiers");
    let date_from = match qualifier_date_of(qs, "P581") {
        Some(d) => Some(d),
        None => qualifier_date_of(qs, "P580"),
    };
    let date_to = match qualifier_date_of(qs, "P581") {
        Some(d) => Some(d),
        None => qualifier_date_of(qs, "P582"),
    };
    let qualifier_items = qualifier_lists(qs, keys);
    let d = DatedItem { q, date_from, date_to, qualifier_items };
    assert(dated_view(d).quals =~= qual_lists(crate::json::opt_val(qs), keys@.map_values(|k: &str| k@)));
    Some(d)
}

/// The time a dated item is ordered by.
fn time_key(d: &DatedItem) -> (r: &str)
    ensures
        r@ == sort_key(dated_view(*d)),
{
    proof {
        reveal_strlit("");
    }
    match &d.date_from {
        Some(x) => x.time.as_str(),
        None => match &d.date_to {
            Some(x) => x.time.as_str(),
            None => "",
        },
    }
}

/// Insert `x` into the ordered list `v` after every item whose time is not
/// later.
fn insert_by_time(v: &mut Vec<DatedItem>, x: DatedItem)
    ensures
        dated_views(final(v)@) == insert_sorted(dated_views(old(v)@), dated_view(x)),
{
    let ghost xv = dated_view(x);
    let ghost s0 = dated_views(v@);
    let mut pos: usize = v.len();
    assert(s0.take(s0.len() as int) =~= s0);
    assert(s0.skip(s0.len() as int) =~= Seq::<DatedView>::empty());
    assert(insert_sorted(s0, xv) + Seq::<DatedView>::empty() =~= insert_sorted(s0, xv));
    while pos > 0 && !crate::text::str_less_eq(time_key(&v[pos - 1]), time_key(&x))
        invariant
            pos <= v@.len(),
            v@.len() == s0.len(),
            dated_views(v@) == s0,
            xv == dated_view(x),
            forall|j: int| pos <= j < s0.len() ==> !str_le(sort_key(s0[j]), sort_key(xv)),
            insert_sorted(s0, xv) == insert_sorted(s0.take(pos as int), xv) + s0.skip(pos as int),
        decreases pos,
    {
        let ghost t = s0.take(pos as int);
        assert(t.last() == s0[pos - 1]);
        assert(t.drop_last() =~= s0.take(pos - 1));
        assert(insert_sorted(t, xv) == insert_sorted(s0.take(pos - 1), xv).push(s0[pos - 1]));
        assert(s0.skip(pos - 1) =~= seq![s0[pos - 1]] + s0.skip(pos as int));
        assert(insert_sorted(s0.take(pos - 1), xv).push(s0[pos - 1]) + s0.skip(pos as int) =~= insert_sorted(
            s0.take(pos - 1),
            xv,
        ) + s0.skip(pos - 1));
        pos = pos - 1;
    }
    proof {
        let t = s0.take(pos as int);
        assert(insert_sorted(t, xv) == t.push(xv));
    }
    v.insert(pos, x);
    assert(dated_views(v@) =~= s0.take(pos as int).push(xv) + s0.skip(pos as int));
}

/// The items of the claims of a property with their dates and the
/// qualifier items of the kinds `qualifier_keys`, ordered by time.
pub fn get_dated_items(claims: &Json, prop: &str, qualifier_keys: &[&str]) -> (r: Vec<DatedItem>)
    ensures
        dated_views(r@) == dated_items(*claims, prop@, qualifier_keys@.map_values(|k: &str| k@)),
{
    let ghost ks = qualifier_keys@.map_values(|k: &str| k@);
    let mut result: Vec<DatedItem> = Vec::new();
    let arr = match prop_array(claims, prop) {
        Some(a) => a,
        None => {
            assert(dated_views(result@) =~= Seq::<DatedView>::empty());
            return result;
        },
    };
    let ghost cs = arr@;
    let mut i: usize = 0;
    assert(cs.take(0) =~= Seq::<Json>::empty());
    assert(dated_views(result@) =~= Seq::<DatedView>::empty());
    while i < arr.len()
        invariant
            cs == arr@,
            ks == qualifier_keys@.map_values(|k: &str| k@),
            i <= cs.len(),
            dated_views(result@) == sorted_by_time(dated_list(cs.take(i as int), ks)),
        decreases arr.len() - i,
    {
        let ghost t = cs.take(i + 1);
        assert(t.drop_last() =~= cs.take(i as int));
        assert(t.last() == cs[i as int]);
        let ghost prev_list = dated_list(cs.take(i as int), ks);
        match dated_item_of(&arr[i], qualifier_keys) {
            Some(d) => {
                let ghost dv = dated_view(d);
                assert(dated_list(t, ks) == prev_list.push(dv));
                assert(prev_list.push(dv).drop_last() =~= prev_list);
                assert(sorted_by_time(prev_list.push(dv)) == insert_sorted(sorted_by_time(prev_list), dv));
                insert_by_time(&mut result, d);
            },
            None => {
                assert(dated_list(t, ks) == prev_list);
            },
        }
        i = i + 1;
    }
    assert(cs.take(cs.len() as int) =~= cs);
    result
}

// ─── Resolving and cleaning ──────────────────────────────────────────────────

/// The label an item fragment shows: its label in `lang` unless that is
/// only its id, then its label in the main languages; its id when it is not
/// loaded.
pub open spec fn resolved_label(loaded: Seq<(Seq<char>, WikiDataItem)>, q: Seq<char>, lang: Seq<char>) -> Seq<char> {
    match find(loaded, q) {
        Some(item) => {
            let l = label_of(item.raw, Some(lang));
            if l == id_of(item.raw) {
                label_of(item.raw, None)
            } else {
                l
            }
        },
        None => q,
    }
}

/// The entity data of a loaded item.
pub open spec fn loaded_raw(loaded: Seq<(Seq<char>, WikiDataItem)>, q: Seq<char>) -> Option<Json> {
    match find(loaded, q) {
        Some(item) => Some(item.raw),
        None => None,
    }
}

/// The text of a fragment: a text as it is, an item as its label or link
/// between its texts.
pub open spec fn frag_text(
    fv: FragView,
    loaded: Seq<(Seq<char>, WikiDataItem)>,
    lang: Seq<char>,
    opt: DescOptions,
) -> Seq<char> {
    match fv {
        FragView::Text(s) => s,
        FragView::Item(q, before, after) => before + link_text(
            q,
            resolved_label(loaded, q, lang),
            loaded_raw(loaded, q),
            opt.lang@,
            opt.links@,
            opt.linktarget@,
            false,
        ) + after,
    }
}

/// The text of a list of fragments.
pub open spec fn resolved(
    fs: Seq<FragView>,
    loaded: Seq<(Seq<char>, WikiDataItem)>,
    lang: Seq<char>,
    opt: DescOptions,
) -> Seq<char>
    decreases fs.len(),
{
    if fs.len() == 0 {
        Seq::empty()
    } else {
        resolved(fs.drop_last(), loaded, lang, opt) + frag_text(fs.last(), loaded, lang, opt)
    }
}

/// Format a Q-id as a link according to the link mode.
pub fn format_link(q: &str, label: &str, opt: &DescOptions, wd: &WikiData) -> (r: String)
    ensures
        r@ == link_text(q@, label@, loaded_raw(wd@, q@), opt.lang@, opt.links@, opt.linktarget@, false),
{
    match wd.get_entity(q) {
        Some(item) => format_item_link(q, label, Some(&item.raw), opt, false),
        None => format_item_link(q, label, None, opt, false),
    }
}

/// The label an item fragment shows.
fn resolve_label(wd: &WikiData, q: &str, lang: &str) -> (r: String)
    ensures
        r@ == resolved_label(wd@, q@, lang@),
{
    match wd.get_entity(q) {
        Some(item) => {
            let label = item.get_label(Some(lang));
            let id = item.get_id();
            if str_eq(label.as_str(), id.as_str()) {
                item.get_label(None)
            } else {
                label
            }
        },
        None => owned(q),
    }
}

/// Resolve all fragments into the output text.
pub fn resolve_fragments(state: &LongDescState, opt: &DescOptions, wd: &WikiData) -> (r: String)
    ensures
        r@ == resolved(frags(*state), wd@, state.lang@, *opt),
{
    let ghost fs = frags(*state);
    let mut output = String::new();
    let mut i: usize = 0;
    assert(fs.take(0) =~= Seq::<FragView>::empty());
    while i < state.fragments.len()
        invariant
            fs == frags(*state),
            i <= fs.len(),
            output@ == resolved(fs.take(i as int), wd@, state.lang@, *opt),
        decreases state.fragments.len() - i,
    {
        assert(fs.take(i + 1).drop_last() =~= fs.take(i as int));
        assert(fs.take(i + 1).last() == frag_view(state.fragments@[i as int]));
        match &state.fragments[i] {
            Fragment::Text(s) => {
                output.append(s.as_str());
            },
            Fragment::Item { q, before, after } => {
                output.append(before.as_str());
                let label = resolve_label(wd, q.as_str(), state.lang.as_str());
                let formatted = format_link(q.as_str(), label.as_str(), opt, wd);
                output.append(formatted.as_str());
                output.append(after.as_str());
            },
        }
        i = i + 1;
    }
    assert(fs.take(fs.len() as int) =~= fs);
    output
}

/// `s` starts with `<br/>`.
pub open spec fn starts_br(s: Seq<char>) -> bool {
    s.len() >= 5 && s[0] == '<' && s[1] == 'b' && s[2] == 'r' && s[3] == '/' && s[4] == '>'
}

pub proof fn lemma_trim_start_len(s: Seq<char>)
    ensures
        trim_start_len(s) <= s.len(),
    decreases s.len(),
{
    if s.len() > 0 && is_white_space(s[0]) {
        lemma_trim_start_len(s.drop_first());
    }
}

/// The length of `s` without its leading white space.
pub open spec fn trim_start_len(s: Seq<char>) -> nat {
    crate::text::trim_start(s).len()
}

/// What follows a run of line breaks, each with the white space after it.
pub open spec fn after_breaks(s: Seq<char>) -> Seq<char>
    decreases s.len(),
{
    if !starts_br(s) {
        s
    } else {
        let t = crate::text::trim_start(s.skip(5));
        if starts_br(t) {
            proof {
                lemma_trim_start_len(s.skip(5));
            }
            after_breaks(t)
        } else {
            t
        }
    }
}

/// `s` with each run of line breaks (and the white space after each) made
/// one `<br/>` and a line feed.
pub open spec fn collapse_breaks(s: Seq<char>) -> Seq<char>
    decreases s.len(),
{
    if s.len() == 0 {
        s
    } else if starts_br(s) {
        proof {
            lemma_trim_start_len(s.skip(5));
            lemma_after_breaks_len(s);
        }
        seq!['<', 'b', 'r', '/', '>', '\n'] + collapse_breaks(after_breaks(s))
    } else {
        seq![s[0]] + collapse_breaks(s.drop_first())
    }
}

pub proof fn lemma_after_breaks_len(s: Seq<char>)
    requires
        starts_br(s),
    ensures
        after_breaks(s).len() < s.len(),
    decreases s.len(),
{
    lemma_trim_start_len(s.skip(5));
    let t = crate::text::trim_start(s.skip(5));
    if starts_br(t) {
        lemma_after_breaks_len(t);
    }
}

/// What `clean_output` returns: spaces collapsed, spaces before full stops
/// and commas dropped, double full stops made one, runs of line breaks made
/// one, and trimmed.
pub open spec fn cleaned_output(s: Seq<char>) -> Seq<char> {
    trim(
        collapse_breaks(
            replace_pair(
                replace_pair(
                    replace_pair(crate::short_desc::word_helpers::collapse_spaces(s), ' ', '.', '.'),
                    ' ',
                    ',',
                    ',',
                ),
                '.',
                '.',
                '.',
            ),
        ),
    )
}

/// Whether `<br/>` starts at `i`.
fn br_at(s: &str, i: usize) -> (r: bool)
    requires
        i <= s@.len(),
    ensures
        r == starts_br(s@.skip(i as int)),
{
    let n = s.unicode_len();
    if n - i < 5 {
        return false;
    }
    let r = s.get_char(i) == '<' && s.get_char(i + 1) == 'b' && s.get_char(i + 2) == 'r' && s.get_char(i + 3) == '/'
        && s.get_char(i + 4) == '>';
    assert(s@.skip(i as int)[0] == s@[i as int]);
    assert(s@.skip(i as int)[1] == s@[i + 1]);
    assert(s@.skip(i as int)[2] == s@[i + 2]);
    assert(s@.skip(i as int)[3] == s@[i + 3]);
    assert(s@.skip(i as int)[4] == s@[i + 4]);
    r
}

/// The place after the white space that starts at `i`.
fn skip_white_space(s: &str, i: usize) -> (r: usize)
    requires
        i <= s@.len(),
    ensures
        i <= r <= s@.len(),
        crate::text::trim_start(s@.skip(i as int)) == s@.skip(r as int),
{
    let n = s.unicode_len();
    let mut j = i;
    while j < n && crate::text::is_whitespace(s.get_char(j))
        invariant
            n == s@.len(),
            i <= j <= n,
            forall|k: int| i <= k < j ==> is_white_space(#[trigger] s@[k]),
        decreases n - j,
    {
        j = j + 1;
    }
    proof {
        let t = s@.skip(i as int);
        assert forall|k: int| 0 <= k < j - i implies is_white_space(#[trigger] t[k]) by {
            assert(t[k] == s@[i + k]);
        }
        if j < n {
            assert(t[j - i] == s@[j as int]);
        }
        crate::text::lemma_trim_start_at(t, j - i);
        assert(t.subrange(j - i, t.len() as int) =~= s@.skip(j as int));
    }
    j
}

/// Collapse each run of line breaks into one `<br/>` and a line feed.
fn collapse_line_breaks(s: &str) -> (r: String)
    ensures
        r@ == collapse_breaks(s@),
{
    let n = s.unicode_len();
    let mut out = String::new();
    let mut i: usize = 0;
    assert(s@.skip(0) =~= s@);
    while i < n
        invariant
            n == s@.len(),
            i <= n,
            out@ + collapse_breaks(s@.skip(i as int)) == collapse_breaks(s@),
        decreases n - i,
    {
        let ghost rest = s@.skip(i as int);
        if br_at(s, i) {
            let mut k = i;
            let mut j = skip_white_space(s, i + 5);
            assert(rest.skip(5) =~= s@.skip(i + 5));
            while br_at(s, j)
                invariant
                    n == s@.len(),
                    i <= k < j <= n,
                    starts_br(s@.skip(k as int)),
                    after_breaks(rest) == after_breaks(s@.skip(k as int)),
                    crate::text::trim_start(s@.skip(k as int).skip(5)) == s@.skip(j as int),
                decreases n - j,
            {
                k = j;
                assert(s@.skip(k as int).skip(5) =~= s@.skip(k + 5));
                j = skip_white_space(s, k + 5);
            }
            assert(after_breaks(s@.skip(k as int)) == s@.skip(j as int));
            push_char(&mut out, '<');
            push_char(&mut out, 'b');
            push_char(&mut out, 'r');
            push_char(&mut out, '/');
            push_char(&mut out, '>');
            push_char(&mut out, '\n');
            i = j;
        } else {
            let c = s.get_char(i);
            assert(rest[0] == c);
            assert(rest.drop_first() =~= s@.skip(i + 1));
            push_char(&mut out, c);
            i = i + 1;
        }
    }
    assert(s@.skip(n as int) =~= Seq::<char>::empty());
    assert(out@ + Seq::<char>::empty() =~= out@);
    out
}

/// Clean up the output text.
pub fn clean_output(s: &str) -> (r: String)
    ensures
        r@ == cleaned_output(s@),
{
    let a = crate::short_desc::word_helpers::collapse_space_runs(s);
    let b = crate::text::replace_pairs(a.as_str(), ' ', '.', '.');
    let c = crate::text::replace_pairs(b.as_str(), ' ', ',', ',');
    let d = crate::text::replace_pairs(c.as_str(), '.', '.', '.');
    let e = collapse_line_breaks(d.as_str());
    owned(crate::text::trim_str(e.as_str()))
}

// ─── The generator ───────────────────────────────────────────────────────────

/// `s` with `x` appended unless it holds it already.
pub open spec fn push_new(s: Seq<Seq<char>>, x: Seq<char>) -> Seq<Seq<char>> {
    if s.contains(x) {
        s
    } else {
        s.push(x)
    }
}

/// `s` with each of `xs` appended that it does not hold yet, in order.
pub open spec fn add_all(s: Seq<Seq<char>>, xs: Seq<Seq<char>>) -> Seq<Seq<char>>
    decreases xs.len(),
{
    if xs.len() == 0 {
        s
    } else {
        push_new(add_all(s, xs.drop_last()), xs.last())
    }
}

/// The properties whose items a long description names.
pub open spec fn load_props() -> Seq<Seq<char>> {
    seq![
        "P27"@, "P106"@, "P793"@, "P19"@, "P22"@, "P25"@, "P69"@, "P136"@, "P101"@, "P39"@, "P463"@, "P108"@, "P26"@,
        "P40"@, "P20"@, "P509"@, "P157"@, "P119"@, "P800"@,
    ]
}

/// The items of the claims of the properties `props`, each once.
pub open spec fn claim_items_all(s: Seq<Seq<char>>, claims: Json, props: Seq<Seq<char>>) -> Seq<Seq<char>>
    decreases props.len(),
{
    if props.len() == 0 {
        s
    } else {
        add_all(claim_items_all(s, claims, props.drop_last()), item_ids(claims_of(claims, props.last())))
    }
}

/// The items the qualifiers of kind `qual` of the claims of `prop` name.
pub open spec fn qualifier_items_of(cs: Seq<Json>, qual: Seq<char>) -> Seq<Seq<char>>
    decreases cs.len(),
{
    if cs.len() == 0 {
        Seq::empty()
    } else {
        qualifier_items_of(cs.drop_last(), qual) + qual_refs(
            jarr_or_empty(jget(jget(Some(cs.last()), "qualifiers"@), qual)),
        )
    }
}

/// The ids a long description needs loaded: the items of its claims, then
/// the "of" items of positions and the "as" items of employments, each
/// once.
pub open spec fn long_items_to_load(claims: Json) -> Seq<Seq<char>> {
    add_all(
        add_all(
            claim_items_all(Seq::empty(), claims, load_props()),
            qualifier_items_of(claims_of(claims, "P39"@), "P642"@),
        ),
        qualifier_items_of(claims_of(claims, "P108"@), "P794"@),
    )
}

/// The flags a long description starts with: gender (male or trans man,
/// female or trans woman), death, and the line break of the link mode.
pub open spec fn initial_flags(claims: Json, opt: DescOptions) -> Flags {
    Flags {
        lang: opt.lang@,
        is_male: has_link(claims, 21, 6581097) || has_link(claims, 21, 2449503),
        is_female: has_link(claims, 21, 6581072) || has_link(claims, 21, 1052281),
        is_dead: claims_of(claims, "P570"@).len() > 0,
        newline: if opt.links@ == "text"@ {
            seq!['\n']
        } else if opt.links@ == "wiki"@ {
            seq!['\n', '\n']
        } else {
            "<br/>"@
        },
    }
}

/// The language of a long description.
pub open spec fn long_lang_of(code: Seq<char>) -> Option<LongLang> {
    if code == "de"@ {
        Some(LongLang::De)
    } else if code == "en"@ {
        Some(LongLang::En)
    } else if code == "nl"@ {
        Some(LongLang::Nl)
    } else if code == "fr"@ {
        Some(LongLang::Fr)
    } else {
        None
    }
}

/// The fragments of a long description in a language.
pub open spec fn sections(
    l: LongLang,
    f: Flags,
    q: Seq<char>,
    claims: Json,
    sd: ShortDescription,
    loaded: Seq<(Seq<char>, WikiDataItem)>,
) -> Seq<FragView> {
    match l {
        LongLang::De => lang_de::description(f, q, claims, sd, loaded),
        LongLang::En => lang_en::description(f, q, claims, sd, loaded),
        LongLang::Fr => lang_fr::description(f, q, claims, sd, loaded),
        LongLang::Nl => lang_nl::description(f, q, claims, sd, loaded),
    }
}

/// What `generate` returns: nothing for a language without long
/// descriptions or an item that is no person; else the cleaned text of the
/// fragments of the language.
pub open spec fn long_description(
    sd: ShortDescription,
    q: Seq<char>,
    claims: Json,
    opt: DescOptions,
    loaded: Seq<(Seq<char>, WikiDataItem)>,
) -> Option<Seq<char>> {
    if !long_desc_languages().contains(opt.lang@) || !is_person_spec(claims) {
        None
    } else {
        match long_lang_of(opt.lang@) {
            Some(l) => {
                let f = initial_flags(claims, opt);
                Some(cleaned_output(resolved(sections(l, f, q, claims, sd, loaded), loaded, f.lang, opt)))
            },
            None => None,
        }
    }
}

/// Long descriptions are written for people only, and exactly in the
/// languages that have them: for every item and every loaded state there is
/// one when the language has long descriptions and the item is a person, and
/// none otherwise.
pub proof fn lemma_long_description_for_people_only(
    sd: ShortDescription,
    q: Seq<char>,
    claims: Json,
    opt: DescOptions,
    loaded: Seq<(Seq<char>, WikiDataItem)>,
)
    ensures
        long_description(sd, q, claims, opt, loaded) is Some <==> (long_desc_languages().contains(
            opt.lang@,
        ) && is_person_spec(claims)),
{
    if long_desc_languages().contains(opt.lang@) {
        let l = opt.lang@;
        let langs = long_desc_languages();
        let i = choose|i: int| 0 <= i < langs.len() && langs[i] == l;
        assert(long_lang_of(l) is Some);
    }
}

/// Add each of `xs` to `items` unless it is there.
fn add_each(items: &mut Vec<String>, xs: &Vec<String>)
    requires
        no_duplicates(views(old(items)@)),
    ensures
        no_duplicates(views(final(items)@)),
        views(final(items)@) == add_all(views(old(items)@), views(xs@)),
{
    let ghost s0 = views(items@);
    let mut i: usize = 0;
    assert(views(xs@).take(0) =~= Seq::<Seq<char>>::empty());
    while i < xs.len()
        invariant
            i <= xs@.len(),
            no_duplicates(views(items@)),
            views(items@) == add_all(s0, views(xs@).take(i as int)),
        decreases xs.len() - i,
    {
        assert(views(xs@).take(i + 1).drop_last() =~= views(xs@).take(i as int));
        assert(views(xs@).take(i + 1).last() == xs@[i as int]@);
        push_unique(items, xs[i].as_str());
        i = i + 1;
    }
    assert(views(xs@).take(xs@.len() as int) =~= views(xs@));
}

/// The items the qualifiers of kind `qual` of the claims of `prop` name.
fn qualifier_items(claims: &Json, prop: &str, qual: &str) -> (r: Vec<String>)
    ensures
        views(r@) == qualifier_items_of(claims_of(*claims, prop@), qual@),
{
    let mut r: Vec<String> = Vec::new();
    let arr = match prop_array(claims, prop) {
        Some(a) => a,
        None => {
            assert(views(r@) =~= Seq::<Seq<char>>::empty());
            return r;
        },
    };
    let ghost cs = arr@;
    let mut i: usize = 0;
    assert(cs.take(0) =~= Seq::<Json>::empty());
    assert(views(r@) =~= Seq::<Seq<char>>::empty());
    while i < arr.len()
        invariant
            cs == arr@,
            i <= cs.len(),
            views(r@) == qualifier_items_of(cs.take(i as int), qual@),
        decreases arr.len() - i,
    {
        assert(cs.take(i + 1).drop_last() =~= cs.take(i as int));
        assert(cs.take(i + 1).last() == cs[i as int]);
        let refs = match opt_array(opt_get(arr[i].get("qualifiers"), qual)) {
            Some(a) => qualifier_refs(a),
            None => {
                let e: Vec<String> = Vec::new();
                assert(views(e@) =~= Seq::<Seq<char>>::empty());
                assert(qual_refs(Seq::<Json>::empty()) == Seq::<Seq<char>>::empty());
                e
            },
        };
        let ghost prev = views(r@);
        let ghost rv = views(refs@);
        let mut refs = refs;
        r.append(&mut refs);
        assert(views(r@) =~= prev + rv);
        i = i + 1;
    }
    assert(cs.take(cs.len() as int) =~= cs);
    r
}

/// Generates long descriptions of persons.
pub struct LongDescGenerator;

impl LongDescGenerator {
    /// The ids a long description needs loaded before it is generated.
    pub fn get_items_to_load(claims: &Json) -> (r: Vec<String>)
        ensures
            views(r@) == long_items_to_load(*claims),
            no_duplicates(views(r@)),
    {
        let mut items: Vec<String> = Vec::new();
        let props: Vec<&str> = vec![
            "P27", "P106", "P793", "P19", "P22", "P25", "P69", "P136", "P101", "P39", "P463", "P108", "P26", "P40",
            "P20", "P509", "P157", "P119", "P800",
        ];
        let ghost pv = props@.map_values(|p: &str| p@);
        assert(pv =~= load_props());
        let mut i: usize = 0;
        assert(views(items@) =~= Seq::<Seq<char>>::empty());
        assert(pv.take(0) =~= Seq::<Seq<char>>::empty());
        while i < props.len()
            invariant
                i <= props@.len(),
                pv == props@.map_values(|p: &str| p@),
                no_duplicates(views(items@)),
                views(items@) == claim_items_all(Seq::empty(), *claims, pv.take(i as int)),
            decreases props.len() - i,
        {
            assert(pv.take(i + 1).drop_last() =~= pv.take(i as int));
            assert(pv.take(i + 1).last() == props@[i as int]@);
            let ids = get_claim_item_ids(claims, props[i]);
            add_each(&mut items, &ids);
            i = i + 1;
        }
        assert(pv.take(props@.len() as int) =~= pv);
        let of_items = qualifier_items(claims, "P39", "P642");
        add_each(&mut items, &of_items);
        let as_items = qualifier_items(claims, "P108", "P794");
        add_each(&mut items, &as_items);
        items
    }

    /// The state a long description starts in.
    pub fn initial_state(claims: &Json, opt: &DescOptions) -> (r: LongDescState)
        ensures
            flags_of(r) == initial_flags(*claims, *opt),
            frags(r) == Seq::<FragView>::empty(),
    {
        let is_male = ShortDescription::has_pq_public(claims, 21, 6581097) || ShortDescription::has_pq_public(
            claims,
            21,
            2449503,
        );
        let is_female = ShortDescription::has_pq_public(claims, 21, 6581072) || ShortDescription::has_pq_public(
            claims,
            21,
            1052281,
        );
        let is_dead = has_claims(claims, "P570");
        let mut newline = String::new();
        if str_eq(opt.links.as_str(), "text") {
            push_char(&mut newline, '\n');
        } else if str_eq(opt.links.as_str(), "wiki") {
            push_char(&mut newline, '\n');
            push_char(&mut newline, '\n');
        } else {
            newline = owned("<br/>");
        }
        assert(newline@ =~= initial_flags(*claims, *opt).newline);
        let r = LongDescState {
            lang: opt.lang.clone(),
            is_male,
            is_female,
            is_dead,
            fragments: Vec::new(),
            newline,
        };
        assert(frags(r) =~= Seq::<FragView>::empty());
        r
    }

    /// Generate a long description of a person from its claims and the
    /// loaded entities (those of `get_items_to_load` are meant to be loaded
    /// first); nothing for a language without long descriptions or an item
    /// that is no person.
    pub fn generate(sd: &ShortDescription, q: &str, claims: &Json, opt: &DescOptions, wd: &WikiData) -> (r: Option<
        String,
    >)
        ensures
            match r {
                Some(t) => long_description(*sd, q@, *claims, *opt, wd@) == Some(t@),
                None => long_description(*sd, q@, *claims, *opt, wd@) is None,
            },
    {
        if !is_long_desc_available(opt.lang.as_str()) {
            return None;
        }
        if !ShortDescription::is_person_public(claims) {
            return None;
        }
        let mut state = Self::initial_state(claims, opt);
        let ghost f = flags_of(state);
        let lang = opt.lang.as_str();
        if str_eq(lang, "de") {
            lang_de::generate(&mut state, q, claims, sd, wd);
        } else if str_eq(lang, "en") {
            lang_en::generate(&mut state, q, claims, sd, wd);
        } else if str_eq(lang, "nl") {
            lang_nl::generate(&mut state, q, claims, sd, wd);
        } else if str_eq(lang, "fr") {
            lang_fr::generate(&mut state, q, claims, sd, wd);
        } else {
            return None;
        }
        let result = resolve_fragments(&state, opt, wd);
        Some(clean_output(result.as_str()))
    }
}


/// Five parts appended in turn give the text with all five appended at once.
pub proof fn lemma_appended_in_turn(
    s0: Seq<FragView>,
    a: Seq<FragView>,
    b: Seq<FragView>,
    c: Seq<FragView>,
    d: Seq<FragView>,
    e: Seq<FragView>,
    s5: Seq<FragView>,
)
    requires
        s5 == s0 + a + b + c + d + e,
    ensures
        s5 == s0 + (a + b + c + d + e),
{
    assert(s5 =~= s0 + (a + b + c + d + e));
}

} // verus!