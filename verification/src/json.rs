//! A JSON document as the library reads it: the shape of Wikidata entities,
//! claims and API answers.

use vstd::prelude::*;

verus! {

/// A JSON number, kept the way the descriptions read it.
#[derive(Debug, PartialEq)]
pub enum JsonNumber {
    /// A non-negative integer.
    PosInt(u64),
    /// A negative integer.
    NegInt(i64),
    /// Any other number, by its decimal text.
    Decimal(String),
}

/// A JSON value. Objects keep their members in order; a key stands at most
/// once in a well-formed object, and lookups take the first member.
#[derive(Debug, PartialEq)]
pub enum Json {
    Null,
    Bool(bool),
    Number(JsonNumber),
    Str(String),
    Array(Vec<Json>),
    Object(Vec<(String, Json)>),
}

/// The value of the first member named `key`.
pub open spec fn lookup(entries: Seq<(String, Json)>, key: Seq<char>) -> Option<Json>
    decreases entries.len(),
{
    if entries.len() == 0 {
        None
    } else if entries[0].0@ == key {
        Some(entries[0].1)
    } else {
        lookup(entries.drop_first(), key)
    }
}

/// Appending a member changes the lookup only of a key that was absent.
pub proof fn lemma_lookup_push(entries: Seq<(String, Json)>, e: (String, Json), k: Seq<char>)
    ensures
        lookup(entries.push(e), k) == if lookup(entries, k) is Some {
            lookup(entries, k)
        } else if e.0@ == k {
            Some(e.1)
        } else {
            None
        },
    decreases entries.len(),
{
    if entries.len() == 0 {
        assert(entries.push(e).drop_first() =~= entries);
    } else {
        assert(entries.push(e).drop_first() =~= entries.drop_first().push(e));
        lemma_lookup_push(entries.drop_first(), e, k);
    }
}

/// `value.get(key)`: the member `key` of an object, nothing for other values.
pub open spec fn member(v: Json, key: Seq<char>) -> Option<Json> {
    match v {
        Json::Object(entries) => lookup(entries@, key),
        _ => None,
    }
}

/// `get` lifted over an optional value.
pub open spec fn jget(o: Option<Json>, key: Seq<char>) -> Option<Json> {
    match o {
        Some(v) => member(v, key),
        None => None,
    }
}

/// The text of a string value.
pub open spec fn jstr(o: Option<Json>) -> Option<Seq<char>> {
    match o {
        Some(Json::Str(s)) => Some(s@),
        _ => None,
    }
}

/// The value of a number that is a non-negative integer.
pub open spec fn ju64(o: Option<Json>) -> Option<u64> {
    match o {
        Some(Json::Number(JsonNumber::PosInt(n))) => Some(n),
        _ => None,
    }
}

/// The value of an integer number that fits in `i64`.
pub open spec fn ji64(o: Option<Json>) -> Option<i64> {
    match o {
        Some(Json::Number(JsonNumber::PosInt(n))) => if n <= i64::MAX {
            Some(n as i64)
        } else {
            None
        },
        Some(Json::Number(JsonNumber::NegInt(n))) => Some(n),
        _ => None,
    }
}

/// The elements of an array value.
pub open spec fn jarr(o: Option<Json>) -> Option<Seq<Json>> {
    match o {
        Some(Json::Array(v)) => Some(v@),
        _ => None,
    }
}

/// The members of an object value.
pub open spec fn jobj(o: Option<Json>) -> Option<Seq<(String, Json)>> {
    match o {
        Some(Json::Object(e)) => Some(e@),
        _ => None,
    }
}

/// The elements of an array value, none for anything else.
pub open spec fn jarr_or_empty(o: Option<Json>) -> Seq<Json> {
    match jarr(o) {
        Some(s) => s,
        None => Seq::empty(),
    }
}

impl Json {
    /// `value.get(key)`.
    pub fn get(&self, key: &str) -> (r: Option<&Json>)
        ensures
            match r {
                Some(v) => member(*self, key@) == Some(*v),
                None => member(*self, key@) is None,
            },
    {
        match self {
            Json::Object(entries) => {
                let mut i: usize = 0;
                assert(entries@.skip(0) =~= entries@);
                while i < entries.len()
                    invariant
                        i <= entries@.len(),
                        member(*self, key@) == lookup(entries@, key@),
                        lookup(entries@, key@) == lookup(entries@.skip(i as int), key@),
                    decreases entries.len() - i,
                {
                    assert(entries@.skip(i as int)[0] == entries@[i as int]);
                    if crate::text::str_eq(entries[i].0.as_str(), key) {
                        let ghost sk = entries@.skip(i as int);
                        assert(sk.len() > 0 && sk[0].0@ == key@);
                        assert(lookup(sk, key@) == Some(sk[0].1));
                        return Some(&entries[i].1);
                    }
                    assert(entries@.skip(i as int).drop_first() =~= entries@.skip(i + 1));
                    i = i + 1;
                }
                None
            },
            _ => None,
        }
    }

    /// `value.as_str()`.
    pub fn as_str(&self) -> (r: Option<&str>)
        ensures
            match r {
                Some(s) => jstr(Some(*self)) == Some(s@),
                None => jstr(Some(*self)) is None,
            },
    {
        match self {
            Json::Str(s) => Some(s.as_str()),
            _ => None,
        }
    }

    /// `value.as_u64()`.
    pub fn as_u64(&self) -> (r: Option<u64>)
        ensures
            r == ju64(Some(*self)),
    {
        match self {
            Json::Number(JsonNumber::PosInt(n)) => Some(*n),
            _ => None,
        }
    }

    /// `value.as_i64()`.
    pub fn as_i64(&self) -> (r: Option<i64>)
        ensures
            r == ji64(Some(*self)),
    {
        match self {
            Json::Number(JsonNumber::PosInt(n)) => {
                if *n <= 0x7fff_ffff_ffff_ffffu64 {
                    Some(*n as i64)
                } else {
                    None
                }
            },
            Json::Number(JsonNumber::NegInt(n)) => Some(*n),
            _ => None,
        }
    }

    /// `value.as_array()`.
    pub fn as_array(&self) -> (r: Option<&Vec<Json>>)
        ensures
            match r {
                Some(v) => jarr(Some(*self)) == Some(v@),
                None => jarr(Some(*self)) is None,
            },
    {
        match self {
            Json::Array(v) => Some(v),
            _ => None,
        }
    }

    /// `value.as_object()`: the members in order.
    pub fn as_object(&self) -> (r: Option<&Vec<(String, Json)>>)
        ensures
            match r {
                Some(v) => jobj(Some(*self)) == Some(v@),
                None => jobj(Some(*self)) is None,
            },
    {
        match self {
            Json::Object(v) => Some(v),
            _ => None,
        }
    }

    /// `value.is_null()`.
    pub fn is_null(&self) -> (r: bool)
        ensures
            r == (*self is Null),
    {
        match self {
            Json::Null => true,
            _ => false,
        }
    }
}

/// `get` on an optional value.
pub fn opt_get<'a>(o: Option<&'a Json>, key: &str) -> (r: Option<&'a Json>)
    ensures
        match r {
            Some(v) => jget(opt_val(o), key@) == Some(*v),
            None => jget(opt_val(o), key@) is None,
        },
{
    match o {
        Some(v) => v.get(key),
        None => None,
    }
}

/// An optional reference, as an optional value.
pub open spec fn opt_val(o: Option<&Json>) -> Option<Json> {
    match o {
        Some(v) => Some(*v),
        None => None,
    }
}

/// `as_str` on an optional value.
pub fn opt_str<'a>(o: Option<&'a Json>) -> (r: Option<&'a str>)
    ensures
        match r {
            Some(s) => jstr(opt_val(o)) == Some(s@),
            None => jstr(opt_val(o)) is None,
        },
{
    match o {
        Some(v) => v.as_str(),
        None => None,
    }
}

/// `as_u64` on an optional value.
pub fn opt_u64(o: Option<&Json>) -> (r: Option<u64>)
    ensures
        r == ju64(opt_val(o)),
{
    match o {
        Some(v) => v.as_u64(),
        None => None,
    }
}

/// `as_array` on an optional value.
pub fn opt_array<'a>(o: Option<&'a Json>) -> (r: Option<&'a Vec<Json>>)
    ensures
        match r {
            Some(v) => jarr(opt_val(o)) == Some(v@),
            None => jarr(opt_val(o)) is None,
        },
{
    match o {
        Some(v) => v.as_array(),
        None => None,
    }
}

/// `as_object` on an optional value.
pub fn opt_object<'a>(o: Option<&'a Json>) -> (r: Option<&'a Vec<(String, Json)>>)
    ensures
        match r {
            Some(v) => jobj(opt_val(o)) == Some(v@),
            None => jobj(opt_val(o)) is None,
        },
{
    match o {
        Some(v) => v.as_object(),
        None => None,
    }
}

/// The member `key` of an object, taken out of it by value.
pub fn take_member(v: Json, key: &str) -> (r: Option<Json>)
    ensures
        r == member(v, key@),
{
    match v {
        Json::Object(mut entries) => {
            let ghost orig = entries@;
            assert(member(v, key@) == lookup(orig, key@));
            let mut i: usize = 0;
            assert(orig.skip(0) =~= orig);
            while i < entries.len()
                invariant
                    entries@ == orig,
                    member(v, key@) == lookup(orig, key@),
                    i <= orig.len(),
                    lookup(orig, key@) == lookup(orig.skip(i as int), key@),
                decreases orig.len() - i,
            {
                assert(orig.skip(i as int)[0] == orig[i as int]);
                if crate::text::str_eq(entries[i].0.as_str(), key) {
                    let ghost sk = orig.skip(i as int);
                    assert(sk.len() > 0 && sk[0].0@ == key@);
                    assert(lookup(sk, key@) == Some(sk[0].1));
                    let e = entries.remove(i);
                    assert(e == orig[i as int]);
                    return Some(e.1);
                }
                assert(orig.skip(i as int).drop_first() =~= orig.skip(i + 1));
                i = i + 1;
            }
            None
        },
        _ => None,
    }
}

} // verus!
