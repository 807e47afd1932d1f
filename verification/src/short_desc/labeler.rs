//! Labels and links of the items a description names, grouped by the
//! property that names them, and the assembly of description parts.

use vstd::prelude::*;
use crate::desc_options::DescOptions;
use crate::json::{Json, jget, jstr, opt_get, opt_str};
use crate::short_desc::{ShortDescription, replaced_text, stock_text};
use crate::short_desc::word_helpers::{WordHints, listed, wiki_encoded, wiki_urlencode};
use crate::str_map::find;
use crate::text::{owned, str_eq, views};
use crate::wikidata::{WikiData, prop_id, property_id};
use crate::wikidata_item::{WikiDataItem, id_of, label_of, monolingual, claims_for, no_duplicates, push_unique};
use crate::short_desc::claims::pair_views;

verus! {

/// Labels grouped by property number.
pub struct LabelMap {
    entries: Vec<(u64, Vec<String>)>,
}

/// The labels stored for `p` in a list of groups (the first group of `p`).
pub open spec fn labels_in(m: Seq<(u64, Seq<Seq<char>>)>, p: u64) -> Seq<Seq<char>>
    decreases m.len(),
{
    if m.len() == 0 {
        Seq::empty()
    } else if m[0].0 == p {
        m[0].1
    } else {
        labels_in(m.drop_first(), p)
    }
}

impl View for LabelMap {
    type V = Seq<(u64, Seq<Seq<char>>)>;

    closed spec fn view(&self) -> Seq<(u64, Seq<Seq<char>>)> {
        self.entries@.map_values(|e: (u64, Vec<String>)| (e.0, views(e.1@)))
    }
}

proof fn lemma_labels_in_index(m: Seq<(u64, Seq<Seq<char>>)>, p: u64, i: int)
    requires
        0 <= i < m.len(),
        m[i].0 == p,
        forall|j: int| 0 <= j < i ==> m[j].0 != p,
    ensures
        labels_in(m, p) == m[i].1,
    decreases i,
{
    if i > 0 {
        assert(m.drop_first()[i - 1] == m[i]);
        lemma_labels_in_index(m.drop_first(), p, i - 1);
    }
}

proof fn lemma_labels_in_absent(m: Seq<(u64, Seq<Seq<char>>)>, p: u64)
    requires
        forall|j: int| 0 <= j < m.len() ==> m[j].0 != p,
    ensures
        labels_in(m, p) == Seq::<Seq<char>>::empty(),
    decreases m.len(),
{
    if m.len() > 0 {
        lemma_labels_in_absent(m.drop_first(), p);
    }
}

proof fn lemma_labels_in_update(m: Seq<(u64, Seq<Seq<char>>)>, i: int, x: Seq<Seq<char>>, p: u64)
    requires
        0 <= i < m.len(),
        forall|j: int| 0 <= j < i ==> m[j].0 != m[i].0,
    ensures
        labels_in(m.update(i, (m[i].0, x)), p) == if p == m[i].0 {
            x
        } else {
            labels_in(m, p)
        },
    decreases i,
{
    let u = m.update(i, (m[i].0, x));
    if i == 0 {
        assert(u.drop_first() =~= m.drop_first());
        assert(u[0] == (m[0].0, x));
    } else {
        assert(u.drop_first() =~= m.drop_first().update(i - 1, (m[i].0, x)));
        assert(m.drop_first()[i - 1] == m[i]);
        assert(u[0] == m[0]);
        assert forall|j: int| 0 <= j < i - 1 implies (#[trigger] m.drop_first()[j]).0 != m.drop_first()[i - 1].0 by {
            assert(m.drop_first()[j] == m[j + 1]);
        }
        lemma_labels_in_update(m.drop_first(), i - 1, x, p);
    }
}

proof fn lemma_labels_in_push(m: Seq<(u64, Seq<Seq<char>>)>, e: (u64, Seq<Seq<char>>), p: u64)
    requires
        forall|j: int| 0 <= j < m.len() ==> m[j].0 != e.0,
    ensures
        labels_in(m.push(e), p) == if p == e.0 {
            e.1
        } else {
            labels_in(m, p)
        },
    decreases m.len(),
{
    if m.len() > 0 {
        assert(m.push(e).drop_first() =~= m.drop_first().push(e));
        assert(m.push(e)[0] == m[0]);
        assert forall|j: int| 0 <= j < m.drop_first().len() implies m.drop_first()[j].0 != e.0 by {
            assert(m.drop_first()[j] == m[j + 1]);
        }
        lemma_labels_in_push(m.drop_first(), e, p);
    } else {
        assert(m.push(e).drop_first() =~= m);
        assert(m.push(e)[0] == e);
    }
}

impl LabelMap {
    /// The labels stored for `p`, none when there are none.
    pub open spec fn labels(&self, p: u64) -> Seq<Seq<char>> {
        labels_in(self@, p)
    }

    /// No property is stored with an empty group of labels.
    pub open spec fn no_empty_groups(&self) -> bool {
        forall|j: int| 0 <= j < self@.len() ==> #[trigger] self@[j].1.len() > 0
    }

    /// No labels.
    pub fn new() -> (r: LabelMap)
        ensures
            forall|p: u64| #[trigger] r.labels(p) == Seq::<Seq<char>>::empty(),
            r.no_empty_groups(),
    {
        let r = LabelMap { entries: Vec::new() };
        assert(r@ =~= Seq::<(u64, Seq<Seq<char>>)>::empty());
        r
    }

    /// The labels stored for `p`.
    pub fn get(&self, p: u64) -> (r: Option<&Vec<String>>)
        ensures
            match r {
                Some(v) => views(v@) == self.labels(p),
                None => self.labels(p) == Seq::<Seq<char>>::empty(),
            },
            self.no_empty_groups() ==> (r is Some <==> self.labels(p).len() > 0),
    {
        let mut i: usize = 0;
        while i < self.entries.len()
            invariant
                i <= self.entries@.len(),
                self@.len() == self.entries@.len(),
                forall|j: int| 0 <= j < i ==> self@[j].0 != p,
            decreases self.entries.len() - i,
        {
            assert(self@[i as int].0 == self.entries@[i as int].0);
            if self.entries[i].0 == p {
                proof {
                    lemma_labels_in_index(self@, p, i as int);
                }
                assert(self@[i as int].1 == views(self.entries@[i as int].1@));
                assert(self.no_empty_groups() ==> self@[i as int].1.len() > 0);
                return Some(&self.entries[i].1);
            }
            i = i + 1;
        }
        proof {
            lemma_labels_in_absent(self@, p);
        }
        None
    }

    /// The labels stored for `p`, as owned strings.
    pub fn get_owned(&self, p: u64) -> (r: Vec<String>)
        ensures
            views(r@) == self.labels(p),
    {
        match self.get(p) {
            Some(v) => clone_strings(v),
            None => {
                let r: Vec<String> = Vec::new();
                assert(views(r@) =~= Seq::<Seq<char>>::empty());
                r
            },
        }
    }

    /// Append a label for `p`.
    pub fn push(&mut self, p: u64, label: String)
        ensures
            final(self).labels(p) == old(self).labels(p).push(label@),
            forall|k: u64| k != p ==> #[trigger] final(self).labels(k) == old(self).labels(k),
            old(self).no_empty_groups() ==> final(self).no_empty_groups(),
    {
        let ghost old_view = self@;
        let ghost old_entries = self.entries@;
        let ghost lv = label@;
        let mut i: usize = 0;
        while i < self.entries.len()
            invariant
                i <= self.entries@.len(),
                self.entries@ == old_entries,
                self@ == old_view,
                old(self)@ == old_view,
                lv == label@,
                self@.len() == self.entries@.len(),
                forall|j: int| 0 <= j < i ==> self@[j].0 != p,
            decreases self.entries.len() - i,
        {
            assert(self@[i as int].0 == self.entries@[i as int].0);
            if self.entries[i].0 == p {
                proof {
                    lemma_labels_in_index(old_view, p, i as int);
                }
                let (k, mut group) = self.entries.remove(i);
                assert(k == p);
                assert(old_view[i as int] == (old_entries[i as int].0, views(old_entries[i as int].1@)));
                let ghost gv = views(group@);
                assert(gv == old_view[i as int].1);
                group.push(label);
                assert(views(group@) =~= gv.push(lv));
                let ghost new_group = group;
                self.entries.insert(i, (k, group));
                assert(self.entries@ =~= old_entries.update(i as int, (k, new_group)));
                assert(self@ =~= old_view.update(i as int, (p, gv.push(lv))));
                assert(old(self).no_empty_groups() ==> self.no_empty_groups()) by {
                    if old(self).no_empty_groups() {
                        assert forall|j: int| 0 <= j < self@.len() implies #[trigger] self@[j].1.len() > 0 by {
                            if j != i {
                                assert(self@[j] == old_view[j]);
                            }
                        }
                    }
                }
                proof {
                    assert forall|k2: u64| true implies #[trigger] labels_in(self@, k2) == if k2 == p {
                        gv.push(lv)
                    } else {
                        labels_in(old_view, k2)
                    } by {
                        lemma_labels_in_update(old_view, i as int, gv.push(lv), k2);
                    }
                }
                return;
            }
            i = i + 1;
        }
        proof {
            lemma_labels_in_absent(old_view, p);
        }
        let mut group = Vec::new();
        group.push(label);
        assert(views(group@) =~= seq![lv]);
        self.entries.push((p, group));
        assert(self@ =~= old_view.push((p, seq![lv])));
        assert(old(self).no_empty_groups() ==> self.no_empty_groups()) by {
            if old(self).no_empty_groups() {
                assert forall|j: int| 0 <= j < self@.len() implies #[trigger] self@[j].1.len() > 0 by {
                    if j < old_view.len() {
                        assert(self@[j] == old_view[j]);
                    }
                }
            }
        }
        proof {
            assert forall|k2: u64| true implies #[trigger] labels_in(self@, k2) == if k2 == p {
                seq![lv]
            } else {
                labels_in(old_view, k2)
            } by {
                lemma_labels_in_push(old_view, (p, seq![lv]), k2);
            }
            assert(Seq::<Seq<char>>::empty().push(lv) =~= seq![lv]);
        }
    }
}

/// Copies of a list of strings.
pub fn clone_strings(v: &Vec<String>) -> (r: Vec<String>)
    ensures
        views(r@) == views(v@),
{
    let mut r: Vec<String> = Vec::new();
    let mut i: usize = 0;
    while i < v.len()
        invariant
            i <= v@.len(),
            views(r@) == views(v@).take(i as int),
        decreases v.len() - i,
    {
        let ghost prev = r@;
        r.push(v[i].clone());
        assert(views(r@) =~= views(prev).push(v@[i as int]@));
        assert(views(v@).take(i + 1) =~= views(v@).take(i as int).push(views(v@)[i as int]));
        i = i + 1;
    }
    assert(views(v@).take(v@.len() as int) =~= views(v@));
    r
}

/// The ids to load for labelling `items`: for each item, the id of its
/// property (unless it is 0), then its own id, each once, in order.
pub open spec fn label_ids_of(items: Seq<(u64, Seq<char>)>) -> Seq<Seq<char>>
    decreases items.len(),
{
    if items.len() == 0 {
        Seq::empty()
    } else {
        let prev = label_ids_of(items.drop_last());
        let (p, q) = items.last();
        let with_p = if p != 0 && !prev.contains(prop_id(p as nat)) {
            prev.push(prop_id(p as nat))
        } else {
            prev
        };
        if !with_p.contains(q) {
            with_p.push(q)
        } else {
            with_p
        }
    }
}

/// The property number of the last item with id `q`, 0 when there is none.
pub open spec fn prop_for(items: Seq<(u64, Seq<char>)>, q: Seq<char>) -> u64
    decreases items.len(),
{
    if items.len() == 0 {
        0
    } else if items.last().1 == q {
        items.last().0
    } else {
        prop_for(items.drop_last(), q)
    }
}

/// The label shown for an entity: in `lang` if it has one other than its
/// id, else its label in the main languages if that is not its id.
pub open spec fn chosen_label(raw: Json, lang: Seq<char>) -> Option<Seq<char>> {
    let preferred = label_of(raw, Some(lang));
    if preferred != id_of(raw) {
        Some(preferred)
    } else {
        let fallback = label_of(raw, None);
        if fallback == id_of(raw) {
            None
        } else {
            Some(fallback)
        }
    }
}

/// The title of an entity's sitelink to `site`.
pub open spec fn sitelink_title(raw: Option<Json>, site: Seq<char>) -> Option<Seq<char>> {
    jstr(jget(jget(jget(raw, "sitelinks"@), site), "title"@))
}

/// The ` target='…'` attribute of links, empty without a target.
pub open spec fn target_attr(target: Seq<char>) -> Seq<char> {
    if target.len() == 0 {
        Seq::empty()
    } else {
        " target='"@ + target + "'"@
    }
}

/// An item label shown in link mode `links`: a Wikidata, Reasonator or
/// Wikipedia link, a wiki link, or the label; with `any_site`, other modes
/// name a wiki project whose sitelink is used.
pub open spec fn link_text(
    q: Seq<char>,
    label: Seq<char>,
    raw: Option<Json>,
    lang: Seq<char>,
    links: Seq<char>,
    target: Seq<char>,
    any_site: bool,
) -> Seq<char> {
    let lt = target_attr(target);
    let wiki = lang + "wiki"@;
    if links == "wikidata"@ {
        "<a href='https://www.wikidata.org/wiki/"@ + q + "'"@ + lt + ">"@ + label + "</a>"@
    } else if links == "reasonator"@ {
        "<a href='/reasonator/?lang="@ + lang + "&q="@ + q + "'"@ + lt + ">"@ + label + "</a>"@
    } else if links == "wiki"@ {
        match sitelink_title(raw, wiki) {
            Some(t) => if t == label {
                "[["@ + label + "]]"@
            } else {
                "[["@ + t + "|"@ + label + "]]"@
            },
            None => label,
        }
    } else if links == "wikipedia"@ {
        match sitelink_title(raw, wiki) {
            Some(t) => "<a href='https://"@ + lang + ".wikipedia.org/wiki/"@ + wiki_encoded(t) + "'"@ + lt + ">"@ + label
                + "</a>"@,
            None => label,
        }
    } else if links == "text"@ || links.len() == 0 {
        label
    } else if any_site {
        match sitelink_title(raw, lang + links) {
            Some(t) => "<a href='https://"@ + lang + "."@ + links + ".org/wiki/"@ + wiki_encoded(t) + "'"@ + lt + ">"@
                + label + "</a>"@,
            None => label,
        }
    } else {
        label
    }
}

/// The property and labelled link an id contributes, if any.
pub open spec fn label_entry(
    id: Seq<char>,
    items: Seq<(u64, Seq<char>)>,
    loaded: Seq<(Seq<char>, WikiDataItem)>,
    lang: Seq<char>,
    links: Seq<char>,
    target: Seq<char>,
) -> Option<(u64, Seq<char>)> {
    match find(loaded, id) {
        None => None,
        Some(item) => match chosen_label(item.raw, lang) {
            None => None,
            Some(label) => {
                let p = prop_for(items, id);
                if p == 31 && (id == "Q5"@ || id == "Q16521"@) {
                    None
                } else {
                    Some((p, link_text(id, label, Some(item.raw), lang, links, target, true)))
                }
            },
        },
    }
}

/// The labelled links of `ids` for property `p`, in order.
pub open spec fn collected_labels(
    ids: Seq<Seq<char>>,
    items: Seq<(u64, Seq<char>)>,
    loaded: Seq<(Seq<char>, WikiDataItem)>,
    lang: Seq<char>,
    links: Seq<char>,
    target: Seq<char>,
    p: u64,
) -> Seq<Seq<char>>
    decreases ids.len(),
{
    if ids.len() == 0 {
        Seq::empty()
    } else {
        let prev = collected_labels(ids.drop_last(), items, loaded, lang, links, target, p);
        match label_entry(ids.last(), items, loaded, lang, links, target) {
            Some((k, x)) => if k == p {
                prev.push(x)
            } else {
                prev
            },
            None => prev,
        }
    }
}

/// The labels `items` get once the entities of `label_ids` are loaded.
pub open spec fn item_labels(
    items: Seq<(u64, Seq<char>)>,
    loaded: Seq<(Seq<char>, WikiDataItem)>,
    opt: DescOptions,
    p: u64,
) -> Seq<Seq<char>> {
    collected_labels(label_ids_of(items), items, loaded, opt.lang@, opt.links@, opt.linktarget@, p)
}

/// The ids whose labels `collected_labels` gives for property `p`, in the
/// same order.
pub open spec fn collected_ids(
    ids: Seq<Seq<char>>,
    items: Seq<(u64, Seq<char>)>,
    loaded: Seq<(Seq<char>, WikiDataItem)>,
    lang: Seq<char>,
    links: Seq<char>,
    target: Seq<char>,
    p: u64,
) -> Seq<Seq<char>>
    decreases ids.len(),
{
    if ids.len() == 0 {
        Seq::empty()
    } else {
        let prev = collected_ids(ids.drop_last(), items, loaded, lang, links, target, p);
        match label_entry(ids.last(), items, loaded, lang, links, target) {
            Some((k, _)) => if k == p {
                prev.push(ids.last())
            } else {
                prev
            },
            None => prev,
        }
    }
}

/// There is one id for each label of a property.
pub proof fn lemma_collected_ids_len(
    ids: Seq<Seq<char>>,
    items: Seq<(u64, Seq<char>)>,
    loaded: Seq<(Seq<char>, WikiDataItem)>,
    lang: Seq<char>,
    links: Seq<char>,
    target: Seq<char>,
    p: u64,
)
    ensures
        collected_ids(ids, items, loaded, lang, links, target, p).len() == collected_labels(
            ids,
            items,
            loaded,
            lang,
            links,
            target,
            p,
        ).len(),
    decreases ids.len(),
{
    if ids.len() > 0 {
        lemma_collected_ids_len(ids.drop_last(), items, loaded, lang, links, target, p);
    }
}

/// The ids of the labels `items` get for property `p`, once their entities
/// are loaded.
pub open spec fn item_ids_for(
    items: Seq<(u64, Seq<char>)>,
    loaded: Seq<(Seq<char>, WikiDataItem)>,
    opt: DescOptions,
    p: u64,
) -> Seq<Seq<char>> {
    collected_ids(label_ids_of(items), items, loaded, opt.lang@, opt.links@, opt.linktarget@, p)
}

proof fn lemma_label_ids_distinct(items: Seq<(u64, Seq<char>)>)
    ensures
        no_duplicates(label_ids_of(items)),
        forall|j: int| 0 <= j < items.len() ==> label_ids_of(items).contains(#[trigger] items[j].1),
    decreases items.len(),
{
    if items.len() > 0 {
        let its = items.drop_last();
        lemma_label_ids_distinct(its);
        let prev = label_ids_of(its);
        let (p, q) = items.last();
        let with_p = if p != 0 && !prev.contains(prop_id(p as nat)) {
            prev.push(prop_id(p as nat))
        } else {
            prev
        };
        assert(no_duplicates(with_p)) by {
            if p != 0 && !prev.contains(prop_id(p as nat)) {
                assert forall|a: int, b: int| 0 <= a < b < with_p.len() implies with_p[a] != with_p[b] by {
                    if b == prev.len() {
                        assert(with_p[a] == prev[a]);
                    }
                }
            }
        }
        assert forall|t: Seq<char>| prev.contains(t) implies with_p.contains(t) by {
            let k = choose|k: int| 0 <= k < prev.len() && prev[k] == t;
            assert(with_p[k] == t);
        }
        let r = label_ids_of(items);
        assert(no_duplicates(r)) by {
            if !with_p.contains(q) {
                assert forall|a: int, b: int| 0 <= a < b < r.len() implies r[a] != r[b] by {
                    if b == with_p.len() {
                        assert(r[a] == with_p[a]);
                    }
                }
            }
        }
        assert forall|j: int| 0 <= j < items.len() implies r.contains(#[trigger] items[j].1) by {
            if j < its.len() {
                assert(its[j] == items[j]);
                assert(prev.contains(its[j].1));
                assert(with_p.contains(items[j].1));
                if !with_p.contains(q) {
                    let k = choose|k: int| 0 <= k < with_p.len() && with_p[k] == items[j].1;
                    assert(r[k] == items[j].1);
                }
            } else {
                if !with_p.contains(q) {
                    assert(r[with_p.len() as int] == q);
                }
            }
        }
    }
}

proof fn lemma_collected_pairs(
    ids: Seq<Seq<char>>,
    items: Seq<(u64, Seq<char>)>,
    loaded: Seq<(Seq<char>, WikiDataItem)>,
    lang: Seq<char>,
    links: Seq<char>,
    target: Seq<char>,
    p: u64,
)
    requires
        no_duplicates(ids),
    ensures
        collected_ids(ids, items, loaded, lang, links, target, p).len() == collected_labels(
            ids,
            items,
            loaded,
            lang,
            links,
            target,
            p,
        ).len(),
        no_duplicates(collected_ids(ids, items, loaded, lang, links, target, p)),
        forall|k: int|
            0 <= k < collected_ids(ids, items, loaded, lang, links, target, p).len() ==> label_entry(
                #[trigger] collected_ids(ids, items, loaded, lang, links, target, p)[k],
                items,
                loaded,
                lang,
                links,
                target,
            ) == Some((p, collected_labels(ids, items, loaded, lang, links, target, p)[k])),
        forall|k: int|
            0 <= k < collected_ids(ids, items, loaded, lang, links, target, p).len() ==> ids.contains(
                #[trigger] collected_ids(ids, items, loaded, lang, links, target, p)[k],
            ),
        forall|q: Seq<char>|
            ids.contains(q) && (#[trigger] label_entry(q, items, loaded, lang, links, target)) is Some
                && label_entry(q, items, loaded, lang, links, target)->Some_0.0 == p ==> collected_ids(
                ids,
                items,
                loaded,
                lang,
                links,
                target,
                p,
            ).contains(q),
    decreases ids.len(),
{
    lemma_collected_ids_len(ids, items, loaded, lang, links, target, p);
    if ids.len() > 0 {
        let t = ids.drop_last();
        assert(no_duplicates(t)) by {
            assert forall|a: int, b: int| 0 <= a < b < t.len() implies t[a] != t[b] by {
                assert(t[a] == ids[a] && t[b] == ids[b]);
            }
        }
        lemma_collected_pairs(t, items, loaded, lang, links, target, p);
        let pi = collected_ids(t, items, loaded, lang, links, target, p);
        let pl = collected_labels(t, items, loaded, lang, links, target, p);
        let ci = collected_ids(ids, items, loaded, lang, links, target, p);
        let cl = collected_labels(ids, items, loaded, lang, links, target, p);
        let x = ids.last();
        assert(!t.contains(x)) by {
            if t.contains(x) {
                let k = choose|k: int| 0 <= k < t.len() && t[k] == x;
                assert(ids[k] == ids[ids.len() - 1]);
            }
        }
        assert forall|k: int| 0 <= k < pi.len() implies ids.contains(#[trigger] pi[k]) by {
            let m = choose|m: int| 0 <= m < t.len() && t[m] == pi[k];
            assert(ids[m] == pi[k]);
        }
        assert forall|k: int| 0 <= k < ci.len() implies label_entry(
            #[trigger] ci[k],
            items,
            loaded,
            lang,
            links,
            target,
        ) == Some((p, cl[k])) && ids.contains(ci[k]) by {
            if k < pi.len() {
                assert(ci[k] == pi[k]);
                assert(cl[k] == pl[k]);
            } else {
                assert(ci[k] == x);
                assert(ids[ids.len() - 1] == x);
            }
        }
        assert(no_duplicates(ci)) by {
            assert forall|a: int, b: int| 0 <= a < b < ci.len() implies ci[a] != ci[b] by {
                if b >= pi.len() {
                    assert(ci[a] == pi[a]);
                    assert(t.contains(pi[a]));
                }
            }
        }
        assert forall|q: Seq<char>|
            ids.contains(q) && (#[trigger] label_entry(q, items, loaded, lang, links, target)) is Some
                && label_entry(q, items, loaded, lang, links, target)->Some_0.0 == p implies ci.contains(q) by {
            let m = choose|m: int| 0 <= m < ids.len() && ids[m] == q;
            if m < t.len() {
                assert(t[m] == q);
                assert(pi.contains(q));
                let k = choose|k: int| 0 <= k < pi.len() && pi[k] == q;
                assert(ci[k] == q);
            } else {
                assert(q == x);
                assert(ci[ci.len() - 1] == q);
            }
        }
    }
}

/// Each item is labelled once: the ids behind the labels of a property are
/// distinct, each is the id of one of the items, and each label is the
/// entry of its id under that property; and every item that has an entry
/// (it is loaded, has a label, and is no instance-of link to human or
/// taxon) stands among the ids of exactly the property of its entry.
pub proof fn lemma_items_labelled_once(
    items: Seq<(u64, Seq<char>)>,
    loaded: Seq<(Seq<char>, WikiDataItem)>,
    opt: DescOptions,
    p: u64,
)
    ensures
        item_ids_for(items, loaded, opt, p).len() == item_labels(items, loaded, opt, p).len(),
        no_duplicates(item_ids_for(items, loaded, opt, p)),
        forall|k: int|
            0 <= k < item_ids_for(items, loaded, opt, p).len() ==> label_entry(
                #[trigger] item_ids_for(items, loaded, opt, p)[k],
                items,
                loaded,
                opt.lang@,
                opt.links@,
                opt.linktarget@,
            ) == Some((p, item_labels(items, loaded, opt, p)[k])),
        forall|j: int|
            0 <= j < items.len() && (#[trigger] label_entry(
                items[j].1,
                items,
                loaded,
                opt.lang@,
                opt.links@,
                opt.linktarget@,
            )) is Some && label_entry(items[j].1, items, loaded, opt.lang@, opt.links@, opt.linktarget@)->Some_0.0
                == p ==> item_ids_for(items, loaded, opt, p).contains(items[j].1),
{
    lemma_label_ids_distinct(items);
    lemma_collected_pairs(label_ids_of(items), items, loaded, opt.lang@, opt.links@, opt.linktarget@, p);
    assert forall|j: int|
        0 <= j < items.len() && (#[trigger] label_entry(
            items[j].1,
            items,
            loaded,
            opt.lang@,
            opt.links@,
            opt.linktarget@,
        )) is Some && label_entry(items[j].1, items, loaded, opt.lang@, opt.links@, opt.linktarget@)->Some_0.0
            == p implies item_ids_for(items, loaded, opt, p).contains(items[j].1) by {
        assert(label_ids_of(items).contains(items[j].1));
    }
}

/// The entry of a loaded, labelled item in each link style: the label for
/// `text` (or no style), a link to the item on Wikidata for `wikidata`, a
/// wiki link to the item's page in the language's Wikipedia (`[[label]]`
/// when the page has the label as title, the label alone without a page)
/// for `wiki`, and a link to that page for `wikipedia` (the label alone
/// without a page).
pub proof fn lemma_label_entry_forms(
    id: Seq<char>,
    items: Seq<(u64, Seq<char>)>,
    loaded: Seq<(Seq<char>, WikiDataItem)>,
    lang: Seq<char>,
    links: Seq<char>,
    target: Seq<char>,
)
    requires
        find(loaded, id) is Some,
        chosen_label(find(loaded, id)->Some_0.raw, lang) is Some,
        !(prop_for(items, id) == 31 && (id == "Q5"@ || id == "Q16521"@)),
    ensures
        ({
            let raw = find(loaded, id)->Some_0.raw;
            let label = chosen_label(raw, lang)->Some_0;
            let title = sitelink_title(Some(raw), lang + "wiki"@);
            let x = label_entry(id, items, loaded, lang, links, target)->Some_0.1;
            &&& label_entry(id, items, loaded, lang, links, target) is Some
            &&& label_entry(id, items, loaded, lang, links, target)->Some_0.0 == prop_for(items, id)
            &&& (links == "text"@ || links.len() == 0) ==> x == label
            &&& links == "wikidata"@ ==> x == "<a href='https://www.wikidata.org/wiki/"@ + id + "'"@
                + target_attr(target) + ">"@ + label + "</a>"@
            &&& links == "wiki"@ ==> x == match title {
                Some(t) => if t == label {
                    "[["@ + label + "]]"@
                } else {
                    "[["@ + t + "|"@ + label + "]]"@
                },
                None => label,
            }
            &&& links == "wikipedia"@ ==> x == match title {
                Some(t) => "<a href='https://"@ + lang + ".wikipedia.org/wiki/"@ + wiki_encoded(t) + "'"@
                    + target_attr(target) + ">"@ + label + "</a>"@,
                None => label,
            }
        }),
{
    reveal_strlit("text");
    reveal_strlit("wikidata");
    reveal_strlit("wiki");
    reveal_strlit("wikipedia");
    reveal_strlit("reasonator");
    assert("text"@.len() == 4 && "wiki"@.len() == 4 && "wikidata"@.len() == 8 && "wikipedia"@.len() == 9
        && "reasonator"@.len() == 10);
    assert("text"@[0] != "wiki"@[0]);
    assert("wikidata"@[4] != "wikipedia"@[4]);
    let raw = find(loaded, id)->Some_0.raw;
    let label = chosen_label(raw, lang)->Some_0;
    let e = label_entry(id, items, loaded, lang, links, target);
    assert(e == Some((prop_for(items, id), link_text(id, label, Some(raw), lang, links, target, true))));
}

/// In Reasonator link mode a label links to the Reasonator page of the item
/// in the request's language: the query gives `lang=` the language and
/// `q=` the item id, the link target (if any) follows, and the label is the
/// link text.
pub proof fn lemma_reasonator_link(
    q: Seq<char>,
    label: Seq<char>,
    raw: Option<Json>,
    lang: Seq<char>,
    target: Seq<char>,
    any_site: bool,
)
    ensures
        link_text(q, label, raw, lang, "reasonator"@, target, any_site) == "<a href='/reasonator/?lang="@ + lang
            + "&q="@ + q + "'"@ + target_attr(target) + ">"@ + label + "</a>"@,
{
    reveal_strlit("wikidata");
    reveal_strlit("reasonator");
    assert("wikidata"@.len() == 8 && "reasonator"@.len() == 10);
}

/// The labels of a label map, by property.
pub open spec fn label_fn(m: LabelMap) -> spec_fn(u64) -> Seq<Seq<char>> {
    |p: u64| m.labels(p)
}

/// The labels `items` get, by property, once their entities are loaded.
pub open spec fn item_label_fn(
    items: Seq<(u64, Seq<char>)>,
    loaded: Seq<(Seq<char>, WikiDataItem)>,
    opt: DescOptions,
) -> spec_fn(u64) -> Seq<Seq<char>> {
    |p: u64| item_labels(items, loaded, opt, p)
}

/// The labels of the properties `props`, in order.
pub open spec fn gathered(labels: spec_fn(u64) -> Seq<Seq<char>>, props: Seq<u64>) -> Seq<Seq<char>>
    decreases props.len(),
{
    if props.len() == 0 {
        Seq::empty()
    } else {
        gathered(labels, props.drop_last()) + labels(props.last())
    }
}

/// What `add2desc` makes of the parts `h`: nothing changes without labels;
/// else the prefix is appended to the last part, and the listed labels are
/// added, after the stock text of `key` (before it in Telugu).
pub open spec fn with_labels(
    stock: Seq<(Seq<char>, crate::str_map::StrMap<String>)>,
    h: Seq<Seq<char>>,
    labels: spec_fn(u64) -> Seq<Seq<char>>,
    props: Seq<u64>,
    hints: WordHints,
    prefix: Option<Seq<char>>,
    key: Option<Seq<char>>,
    lang: Seq<char>,
) -> Seq<Seq<char>> {
    let h2 = gathered(labels, props);
    if h2.len() == 0 {
        h
    } else {
        let h1 = match prefix {
            Some(pf) => if h.len() > 0 {
                h.update(h.len() - 1, h.last() + pf)
            } else {
                h
            },
            None => h,
        };
        let s = listed(h2, hints, lang);
        match key {
            Some(k) => if lang == "te"@ {
                h1.push(s + " "@ + stock_text(stock, k, lang))
            } else {
                h1.push(stock_text(stock, k, lang) + " "@ + s)
            },
            None => h1.push(s),
        }
    }
}

/// What `get_nationality_from_country` returns: the demonym of the country
/// item when it has one in `lang`, else the nationality replacement of the
/// country label.
pub open spec fn nationality_of(
    sd: ShortDescription,
    country_label: Seq<char>,
    country_q: Option<Seq<char>>,
    lang: Seq<char>,
    loaded: Seq<(Seq<char>, WikiDataItem)>,
) -> Seq<char> {
    let demonym = match country_q {
        Some(q) => match find(loaded, q) {
            Some(item) => monolingual(claims_for(item.raw, "P1549"@), lang),
            None => None,
        },
        None => None,
    };
    match demonym {
        Some(d) => d,
        None => replaced_text(sd.language_specific@, country_label, "nationality"@, lang),
    }
}

/// The ids to load before labelling `items`.
pub fn label_ids(items: &[(u64, String)]) -> (r: Vec<String>)
    ensures
        views(r@) == label_ids_of(pair_views(items@)),
        no_duplicates(views(r@)),
{
    let ghost its = pair_views(items@);
    let mut r: Vec<String> = Vec::new();
    let mut i: usize = 0;
    assert(views(r@) =~= Seq::<Seq<char>>::empty());
    while i < items.len()
        invariant
            its == pair_views(items@),
            i <= items@.len(),
            views(r@) == label_ids_of(its.take(i as int)),
            no_duplicates(views(r@)),
        decreases items.len() - i,
    {
        assert(its.take(i + 1).drop_last() =~= its.take(i as int));
        assert(its.take(i + 1).last() == (items@[i as int].0, items@[i as int].1@));
        let p = items[i].0;
        if p != 0 {
            let pid = property_id(p);
            push_unique(&mut r, pid.as_str());
        }
        push_unique(&mut r, items[i].1.as_str());
        i = i + 1;
    }
    assert(its.take(items@.len() as int) =~= its);
    r
}

/// The property number of the last item with id `q`.
fn prop_of(items: &[(u64, String)], q: &str) -> (r: u64)
    ensures
        r == prop_for(pair_views(items@), q@),
{
    let ghost its = pair_views(items@);
    let mut i: usize = items.len();
    assert(its.take(items@.len() as int) =~= its);
    while i > 0
        invariant
            its == pair_views(items@),
            i <= items@.len(),
            prop_for(its, q@) == prop_for(its.take(i as int), q@),
        decreases i,
    {
        assert(its.take(i as int).drop_last() =~= its.take(i - 1));
        assert(its.take(i as int).last() == (items@[i - 1].0, items@[i - 1].1@));
        if str_eq(items[i - 1].1.as_str(), q) {
            return items[i - 1].0;
        }
        i = i - 1;
    }
    assert(its.take(items@.len() as int) =~= its);
    0
}

/// The label shown for an entity.
fn pick_label(item: &WikiDataItem, lang: &str) -> (r: Option<String>)
    ensures
        match r {
            Some(l) => chosen_label(item.raw, lang@) == Some(l@),
            None => chosen_label(item.raw, lang@) is None,
        },
{
    let preferred = item.get_label(Some(lang));
    let id = item.get_id();
    if !str_eq(preferred.as_str(), id.as_str()) {
        return Some(preferred);
    }
    let fallback = item.get_label(None);
    if str_eq(fallback.as_str(), id.as_str()) {
        None
    } else {
        Some(fallback)
    }
}

/// The title of a sitelink.
fn sitelink<'a>(raw: Option<&'a Json>, site: &str) -> (r: Option<&'a str>)
    ensures
        match r {
            Some(t) => sitelink_title(crate::json::opt_val(raw), site@) == Some(t@),
            None => sitelink_title(crate::json::opt_val(raw), site@) is None,
        },
{
    opt_str(opt_get(opt_get(opt_get(raw, "sitelinks"), site), "title"))
}

/// The ` target='…'` attribute.
fn target_attribute(target: &str) -> (r: String)
    ensures
        r@ == target_attr(target@),
{
    if target.unicode_len() == 0 {
        String::new()
    } else {
        let mut r = owned(" target='");
        r.append(target);
        r.append("'");
        r
    }
}

/// Format an item label as a link in the link mode of `opt`.
pub fn format_item_link(q: &str, label: &str, raw: Option<&Json>, opt: &DescOptions, any_site: bool) -> (r: String)
    ensures
        r@ == link_text(q@, label@, crate::json::opt_val(raw), opt.lang@, opt.links@, opt.linktarget@, any_site),
{
    let lang = opt.lang.as_str();
    let links = opt.links.as_str();
    let lt = target_attribute(opt.linktarget.as_str());
    let wiki = crate::text::concat2(lang, "wiki");
    if str_eq(links, "wikidata") {
        let mut r = owned("<a href='https://www.wikidata.org/wiki/");
        r.append(q);
        r.append("'");
        r.append(lt.as_str());
        r.append(">");
        r.append(label);
        r.append("</a>");
        r
    } else if str_eq(links, "reasonator") {
        let mut r = owned("<a href='/reasonator/?lang=");
        r.append(lang);
        r.append("&q=");
        r.append(q);
        r.append("'");
        r.append(lt.as_str());
        r.append(">");
        r.append(label);
        r.append("</a>");
        r
    } else if str_eq(links, "wiki") {
        match sitelink(raw, wiki.as_str()) {
            Some(t) => {
                if str_eq(t, label) {
                    let mut r = owned("[[");
                    r.append(label);
                    r.append("]]");
                    r
                } else {
                    let mut r = owned("[[");
                    r.append(t);
                    r.append("|");
                    r.append(label);
                    r.append("]]");
                    r
                }
            },
            None => owned(label),
        }
    } else if str_eq(links, "wikipedia") {
        match sitelink(raw, wiki.as_str()) {
            Some(t) => {
                let enc = wiki_urlencode(t);
                let mut r = owned("<a href='https://");
                r.append(lang);
                r.append(".wikipedia.org/wiki/");
                r.append(enc.as_str());
                r.append("'");
                r.append(lt.as_str());
                r.append(">");
                r.append(label);
                r.append("</a>");
                r
            },
            None => owned(label),
        }
    } else if str_eq(links, "text") || links.unicode_len() == 0 {
        owned(label)
    } else if any_site {
        let site = crate::text::concat2(lang, links);
        match sitelink(raw, site.as_str()) {
            Some(t) => {
                let enc = wiki_urlencode(t);
                let mut r = owned("<a href='https://");
                r.append(lang);
                r.append(".");
                r.append(links);
                r.append(".org/wiki/");
                r.append(enc.as_str());
                r.append("'");
                r.append(lt.as_str());
                r.append(">");
                r.append(label);
                r.append("</a>");
                r
            },
            None => owned(label),
        }
    } else {
        owned(label)
    }
}

impl ShortDescription {
    /// Labels and links of `items`, grouped by property number, from the
    /// entities loaded in `wd` (the entities of `label_ids(items)` are meant
    /// to be loaded first). Entities that are not loaded or have no label
    /// are left out, and so are the instance-of values human and taxon.
    pub fn label_items(&self, items: &[(u64, String)], opt: &DescOptions, wd: &WikiData) -> (r: LabelMap)
        ensures
            forall|p: u64| #[trigger] r.labels(p) == item_labels(pair_views(items@), wd@, *opt, p),
            r.no_empty_groups(),
    {
        let ids = label_ids(items);
        let ghost its = pair_views(items@);
        let ghost idv = views(ids@);
        let mut m = LabelMap::new();
        let mut i: usize = 0;
        assert(idv.take(0) =~= Seq::<Seq<char>>::empty());
        while i < ids.len()
            invariant
                its == pair_views(items@),
                idv == views(ids@),
                idv == label_ids_of(its),
                i <= ids@.len(),
                m.no_empty_groups(),
                forall|p: u64|
                    #[trigger] m.labels(p) == collected_labels(
                        idv.take(i as int),
                        its,
                        wd@,
                        opt.lang@,
                        opt.links@,
                        opt.linktarget@,
                        p,
                    ),
            decreases ids.len() - i,
        {
            let ghost t = idv.take(i + 1);
            assert(t.drop_last() =~= idv.take(i as int));
            assert(t.last() == ids@[i as int]@);
            let id = ids[i].as_str();
            match wd.get_entity(id) {
                Some(item) => match pick_label(item, opt.lang.as_str()) {
                    Some(label) => {
                        let p = prop_of(items, id);
                        if p == 31 && (str_eq(id, "Q5") || str_eq(id, "Q16521")) {
                        } else {
                            let formatted = format_item_link(id, label.as_str(), Some(&item.raw), opt, true);
                            m.push(p, formatted);
                        }
                    },
                    None => {},
                },
                None => {},
            }
            i = i + 1;
        }
        assert(idv.take(ids@.len() as int) =~= idv);
        m
    }

    /// The ids whose labels `label_items` gives under property `p`, in the
    /// same order.
    pub fn labelled_ids(&self, items: &[(u64, String)], opt: &DescOptions, wd: &WikiData, p: u64) -> (r: Vec<String>)
        ensures
            views(r@) == item_ids_for(pair_views(items@), wd@, *opt, p),
    {
        let ids = label_ids(items);
        let ghost its = pair_views(items@);
        let ghost idv = views(ids@);
        let mut r: Vec<String> = Vec::new();
        let mut i: usize = 0;
        assert(idv.take(0) =~= Seq::<Seq<char>>::empty());
        assert(views(r@) =~= Seq::<Seq<char>>::empty());
        while i < ids.len()
            invariant
                its == pair_views(items@),
                idv == views(ids@),
                idv == label_ids_of(its),
                i <= ids@.len(),
                views(r@) == collected_ids(idv.take(i as int), its, wd@, opt.lang@, opt.links@, opt.linktarget@, p),
            decreases ids.len() - i,
        {
            let ghost t = idv.take(i + 1);
            assert(t.drop_last() =~= idv.take(i as int));
            assert(t.last() == ids@[i as int]@);
            let id = ids[i].as_str();
            match wd.get_entity(id) {
                Some(item) => match pick_label(item, opt.lang.as_str()) {
                    Some(_label) => {
                        let k = prop_of(items, id);
                        if k == 31 && (str_eq(id, "Q5") || str_eq(id, "Q16521")) {
                        } else if k == p {
                            let ghost r0 = views(r@);
                            r.push(owned(id));
                            assert(views(r@) =~= r0.push(id@));
                        }
                    },
                    None => {},
                },
                None => {},
            }
            i = i + 1;
        }
        assert(idv.take(ids@.len() as int) =~= idv);
        r
    }

    /// Append to the description parts `h` the labels of the properties
    /// `props`, listed, after the stock text of `txt_key`; the prefix is
    /// appended to the last part first. Nothing changes without labels.
    pub fn add2desc(
        &self,
        h: &mut Vec<String>,
        item_labels: &LabelMap,
        props: &[u64],
        hints: &WordHints,
        prefix: Option<&str>,
        txt_key: Option<&str>,
        lang: &str,
    )
        ensures
            views(final(h)@) == with_labels(
                self.stock@,
                views(old(h)@),
                label_fn(*item_labels),
                props@,
                *hints,
                match prefix {
                    Some(x) => Some(x@),
                    None => None,
                },
                match txt_key {
                    Some(x) => Some(x@),
                    None => None,
                },
                lang@,
            ),
    {
        let mut h2: Vec<String> = Vec::new();
        let mut i: usize = 0;
        assert(views(h2@) =~= gathered(label_fn(*item_labels), props@.take(0)));
        while i < props.len()
            invariant
                i <= props@.len(),
                views(h2@) == gathered(label_fn(*item_labels), props@.take(i as int)),
            decreases props.len() - i,
        {
            assert(props@.take(i + 1).drop_last() =~= props@.take(i as int));
            match item_labels.get(props[i]) {
                Some(labels) => {
                    let mut j: usize = 0;
                    let ghost start = views(h2@);
                    while j < labels.len()
                        invariant
                            j <= labels@.len(),
                            views(h2@) == start + views(labels@).take(j as int),
                        decreases labels.len() - j,
                    {
                        let ghost prev = h2@;
                        h2.push(labels[j].clone());
                        assert(views(h2@) =~= views(prev).push(labels@[j as int]@));
                        assert(views(labels@).take(j + 1) =~= views(labels@).take(j as int).push(
                            views(labels@)[j as int],
                        ));
                        j = j + 1;
                    }
                    assert(views(labels@).take(labels@.len() as int) =~= views(labels@));
                },
                None => {
                    assert(views(h2@) =~= views(h2@) + Seq::<Seq<char>>::empty());
                },
            }
            i = i + 1;
        }
        assert(props@.take(props@.len() as int) =~= props@);
        if h2.len() == 0 {
            return;
        }
        match prefix {
            Some(pfx) => {
                if h.len() > 0 {
                    let ghost before = views(h@);
                    let mut last = h.pop().unwrap();
                    last.append(pfx);
                    h.push(last);
                    assert(views(h@) =~= before.update(before.len() - 1, before.last() + pfx@));
                }
            },
            None => {},
        }
        let s = self.list_words(h2.as_slice(), hints, lang);
        let ghost h1 = views(h@);
        match txt_key {
            Some(key) => {
                let t = self.txt(key, lang);
                if str_eq(lang, "te") {
                    let mut x = s;
                    x.append(" ");
                    x.append(t.as_str());
                    h.push(x);
                } else {
                    let mut x = t;
                    x.append(" ");
                    x.append(s.as_str());
                    h.push(x);
                }
            },
            None => {
                h.push(s);
            },
        }
        assert(views(h@) =~= h1.push(h@.last()@));
    }

    /// The nationality shown for a country: the demonym of the country item
    /// when it has one in `lang`, else the nationality replacement of the
    /// country label.
    pub fn get_nationality_from_country(
        &self,
        country_label: &str,
        country_q: Option<&str>,
        lang: &str,
        wd: &WikiData,
    ) -> (r: String)
        ensures
            r@ == nationality_of(
                *self,
                country_label@,
                match country_q {
                    Some(q) => Some(q@),
                    None => None,
                },
                lang@,
                wd@,
            ),
    {
        match country_q {
            Some(q) => match wd.get_entity(q) {
                Some(item) => match item.get_demonym(lang) {
                    Some(d) => {
                        return d;
                    },
                    None => {},
                },
                None => {},
            },
            None => {},
        }
        self.txt2(country_label, "nationality", lang)
    }
}

} // verus!
