//! Tests and extractions on the claims of an item.

use vstd::prelude::*;
use crate::json::{Json, jarr_or_empty, jget, jstr, ju64, member, opt_get, opt_str, opt_u64};
use crate::short_desc::ShortDescription;
use crate::text::{decimal, owned, u64_to_decimal};
use crate::wikidata::{prop_id, property_id};
use crate::wikidata_item::datavalue_of;

verus! {

/// The value of a claim's main snak.
pub open spec fn claim_value(claim: Json) -> Option<Json> {
    jget(datavalue_of(claim), "value"@)
}

/// The claims of property `P<p>`.
pub open spec fn prop_claims(claims: Json, p: nat) -> Seq<Json> {
    jarr_or_empty(member(claims, prop_id(p)))
}

/// The id `Q<n>`.
pub open spec fn q_id(n: nat) -> Seq<char> {
    seq!['Q'] + decimal(n)
}

/// A claim points to item `Q<q>`, by its `id` or by its `numeric-id`.
pub open spec fn links_to(claim: Json, q: u64) -> bool {
    ||| jstr(jget(claim_value(claim), "id"@)) == Some(q_id(q as nat))
    ||| ju64(jget(claim_value(claim), "numeric-id"@)) == Some(q)
}

/// Some claim of property `P<p>` points to item `Q<q>`.
pub open spec fn has_link(claims: Json, p: u64, q: u64) -> bool {
    exists|i: int| 0 <= i < prop_claims(claims, p as nat).len() && #[trigger] links_to(prop_claims(claims, p as nat)[i], q)
}

/// The item is a person.
pub open spec fn is_person_spec(claims: Json) -> bool {
    has_link(claims, 107, 215627) || has_link(claims, 31, 5)
}

/// The item is a taxon.
pub open spec fn is_taxon_spec(claims: Json) -> bool {
    has_link(claims, 31, 16521) || has_link(claims, 105, 7432) || has_link(claims, 105, 34740) || has_link(
        claims,
        105,
        35409,
    )
}

/// The item is a disambiguation page.
pub open spec fn is_disambig_spec(claims: Json) -> bool {
    has_link(claims, 107, 11651459)
}

/// The item a claim's value names: its `id` text, else `Q` and its
/// `numeric-id`.
pub open spec fn claim_item_ref(claim: Json) -> Option<Seq<char>> {
    match jstr(jget(claim_value(claim), "id"@)) {
        Some(id) => Some(id),
        None => match ju64(jget(claim_value(claim), "numeric-id"@)) {
            Some(n) => Some(q_id(n as nat)),
            None => None,
        },
    }
}

/// The items named by a list of claims, in order; claims that name none are
/// left out.
pub open spec fn item_refs(claims: Seq<Json>) -> Seq<Seq<char>>
    decreases claims.len(),
{
    if claims.len() == 0 {
        Seq::empty()
    } else {
        item_refs(claims.drop_last()) + match claim_item_ref(claims.last()) {
            Some(x) => seq![x],
            None => Seq::empty(),
        }
    }
}

/// The pairs of a list of property numbers and ids.
pub open spec fn pair_views(s: Seq<(u64, String)>) -> Seq<(u64, Seq<char>)> {
    s.map_values(|e: (u64, String)| (e.0, e.1@))
}

/// Each id of `refs` paired with property number `p`.
pub open spec fn tag_refs(p: u64, refs: Seq<Seq<char>>) -> Seq<(u64, Seq<char>)> {
    refs.map_values(|x: Seq<char>| (p, x))
}

/// `Q<n>`.
pub fn item_id(n: u64) -> (r: String)
    ensures
        r@ == q_id(n as nat),
{
    let d = u64_to_decimal(n);
    proof {
        reveal_strlit("Q");
    }
    crate::text::concat2("Q", d.as_str())
}

impl ShortDescription {
    /// Whether a claim of property `P<p>` points to item `Q<q>`, by its `id`
    /// or by its `numeric-id`.
    pub fn has_pq(claims: &Json, p: u64, q: u64) -> (r: bool)
        ensures
            r == has_link(*claims, p, q),
    {
        let prop = property_id(p);
        let arr = match claims.get(prop.as_str()) {
            Some(v) => match v.as_array() {
                Some(a) => a,
                None => return false,
            },
            None => return false,
        };
        let ghost cs = prop_claims(*claims, p as nat);
        assert(cs == arr@);
        let q_str = item_id(q);
        let mut i: usize = 0;
        while i < arr.len()
            invariant
                cs == arr@,
                cs == prop_claims(*claims, p as nat),
                q_str@ == q_id(q as nat),
                i <= arr@.len(),
                forall|k: int| 0 <= k < i ==> !#[trigger] links_to(cs[k], q),
            decreases arr.len() - i,
        {
            let value = opt_get(opt_get(arr[i].get("mainsnak"), "datavalue"), "value");
            let id_matches = match opt_str(opt_get(value, "id")) {
                Some(id) => crate::text::str_eq(id, q_str.as_str()),
                None => false,
            };
            let nid_matches = match opt_u64(opt_get(value, "numeric-id")) {
                Some(n) => n == q,
                None => false,
            };
            if id_matches || nid_matches {
                assert(links_to(cs[i as int], q));
                return true;
            }
            assert(!links_to(cs[i as int], q));
            i = i + 1;
        }
        false
    }

    /// `has_pq`, for other modules.
    pub fn has_pq_public(claims: &Json, p: u64, q: u64) -> (r: bool)
        ensures
            r == has_link(*claims, p, q),
    {
        Self::has_pq(claims, p, q)
    }

    /// Whether the item is a person: a human, or of the person type.
    pub fn is_person(claims: &Json) -> (r: bool)
        ensures
            r == is_person_spec(*claims),
    {
        Self::has_pq(claims, 107, 215627) || Self::has_pq(claims, 31, 5)
    }

    /// `is_person`, for other modules.
    pub fn is_person_public(claims: &Json) -> (r: bool)
        ensures
            r == is_person_spec(*claims),
    {
        Self::is_person(claims)
    }

    /// Whether the item is a taxon.
    pub fn is_taxon(claims: &Json) -> (r: bool)
        ensures
            r == is_taxon_spec(*claims),
    {
        Self::has_pq(claims, 31, 16521) || Self::has_pq(claims, 105, 7432) || Self::has_pq(claims, 105, 34740)
            || Self::has_pq(claims, 105, 35409)
    }

    /// Whether the item is a disambiguation page.
    pub fn is_disambig(claims: &Json) -> (r: bool)
        ensures
            r == is_disambig_spec(*claims),
    {
        Self::has_pq(claims, 107, 11651459)
    }

    /// Append `(p, id)` for each claim of property `P<p>` that names an
    /// item, in order; claims without a value or without an item are
    /// skipped.
    pub fn add_items_from_claims(claims: &Json, p: u64, items: &mut Vec<(u64, String)>)
        ensures
            pair_views(final(items)@) == pair_views(old(items)@) + tag_refs(p, item_refs(prop_claims(*claims, p as nat))),
    {
        let ghost start = pair_views(items@);
        let prop = property_id(p);
        let arr = match claims.get(prop.as_str()) {
            Some(v) => match v.as_array() {
                Some(a) => a,
                None => {
                    assert(pair_views(items@) =~= start + Seq::<(u64, Seq<char>)>::empty());
                    return;
                },
            },
            None => {
                assert(pair_views(items@) =~= start + Seq::<(u64, Seq<char>)>::empty());
                return;
            },
        };
        let ghost cs = arr@;
        assert(cs == prop_claims(*claims, p as nat));
        let mut i: usize = 0;
        assert(cs.take(0) =~= Seq::<Json>::empty());
        assert(pair_views(items@) =~= start + tag_refs(p, item_refs(cs.take(0))));
        while i < arr.len()
            invariant
                cs == arr@,
                i <= cs.len(),
                pair_views(items@) == start + tag_refs(p, item_refs(cs.take(i as int))),
            decreases arr.len() - i,
        {
            let ghost t = cs.take(i + 1);
            assert(t.drop_last() =~= cs.take(i as int));
            assert(t.last() == cs[i as int]);
            let ghost before = item_refs(cs.take(i as int));
            let value = opt_get(opt_get(arr[i].get("mainsnak"), "datavalue"), "value");
            match opt_str(opt_get(value, "id")) {
                Some(id) => {
                    let ghost prev = items@;
                    items.push((p, owned(id)));
                    assert(pair_views(items@) =~= pair_views(prev).push((p, id@)));
                    assert(item_refs(t) =~= before.push(id@));
                    assert(tag_refs(p, item_refs(t)) =~= tag_refs(p, before).push((p, id@)));
                    assert(pair_views(items@) =~= start + tag_refs(p, item_refs(t)));
                },
                None => match opt_u64(opt_get(value, "numeric-id")) {
                    Some(n) => {
                        let q = item_id(n);
                        let ghost qv = q@;
                        let ghost prev = items@;
                        items.push((p, q));
                        assert(pair_views(items@) =~= pair_views(prev).push((p, qv)));
                        assert(item_refs(t) =~= before.push(qv));
                        assert(tag_refs(p, item_refs(t)) =~= tag_refs(p, before).push((p, qv)));
                        assert(pair_views(items@) =~= start + tag_refs(p, item_refs(t)));
                    },
                    None => {
                        assert(item_refs(t) =~= before);
                    },
                },
            }
            i = i + 1;
        }
        assert(cs.take(cs.len() as int) =~= cs);
    }
}

} // verus!
