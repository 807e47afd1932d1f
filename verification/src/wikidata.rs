//! The store of loaded Wikidata entities: which entities a batch request
//! asks for, how an API answer fills the store, and the year of a time claim.

use vstd::prelude::*;
use crate::json::{Json, jarr_or_empty, jget, jobj, jstr, member, opt_get, opt_str, take_member};
use crate::qid::{QId, parse_qid};
use crate::str_map::{StrMap, find};
use crate::validation::{is_decimal_digit, is_decimal_digit_char};
use crate::text::{decimal, owned, seq_join, u64_to_decimal, views};
use crate::wikidata_item::{WikiDataItem, datavalue_of, lemma_contains_push};

verus! {

/// The Wikidata API endpoint used by default.
pub const DEFAULT_API_URL: &'static str = "https://www.wikidata.org/w/api.php";

/// At most this many entities are asked for in one API request.
pub const MAX_GET_ENTITIES: usize = 50;

/// How many times a Wikidata API call is tried before giving up.
pub const MAX_RETRIES: u32 = 3;

/// The wait before the first retry, in milliseconds; it doubles after each
/// further failure.
pub const BASE_RETRY_DELAY_MS: u64 = 250;

/// Why loading entities failed.
#[derive(Debug, Clone, PartialEq, Eq)]
pub enum ApiError {
    /// No request slot became free in time.
    SemaphoreTimeout,
    /// The API call itself failed, with the reason.
    Api(String),
}

impl ApiError {
    /// The message shown for the error.
    pub fn message(&self) -> (r: String)
        ensures
            r@ == match self {
                ApiError::SemaphoreTimeout => "Too many concurrent Wikidata API requests; try again later"@,
                ApiError::Api(e) => "Wikidata API error: "@ + e@,
            },
    {
        match self {
            ApiError::SemaphoreTimeout => owned("Too many concurrent Wikidata API requests; try again later"),
            ApiError::Api(e) => crate::text::concat2("Wikidata API error: ", e.as_str()),
        }
    }
}

/// The ids of a list of Q-ids.
pub open spec fn qid_views(s: Seq<QId>) -> Seq<Seq<char>> {
    s.map_values(|q: QId| q@)
}

/// The item an entity document makes.
pub open spec fn item_of(raw: Json) -> WikiDataItem {
    WikiDataItem { raw: raw, placeholder: raw is Null }
}

/// The value of the last member named `key`.
pub open spec fn lookup_last(entries: Seq<(String, Json)>, key: Seq<char>) -> Option<Json>
    decreases entries.len(),
{
    if entries.len() == 0 {
        None
    } else if entries.last().0@ == key {
        Some(entries.last().1)
    } else {
        lookup_last(entries.drop_last(), key)
    }
}

/// The ids a batch request loads for `list`: each entry that parses as a
/// Q-id, in normalized form, unless it is loaded already or came before.
pub open spec fn batch_plan(loaded: Seq<(Seq<char>, WikiDataItem)>, list: Seq<Seq<char>>) -> Seq<Seq<char>>
    decreases list.len(),
{
    if list.len() == 0 {
        Seq::empty()
    } else {
        let prev = batch_plan(loaded, list.drop_last());
        match parse_qid(list.last()) {
            Ok(q) => if find(loaded, q) is None && !prev.contains(q) {
                prev.push(q)
            } else {
                prev
            },
            Err(_) => prev,
        }
    }
}

/// The `ids` parameters of the requests for `ids`: groups of at most `size`
/// ids, in order, each joined by `|`.
pub open spec fn request_chunks(ids: Seq<Seq<char>>, size: nat) -> Seq<Seq<char>>
    decreases ids.len(),
{
    if ids.len() == 0 || size == 0 {
        Seq::empty()
    } else if ids.len() <= size {
        seq![seq_join(ids, "|"@)]
    } else {
        seq![seq_join(ids.take(size as int), "|"@)] + request_chunks(ids.skip(size as int), size)
    }
}

/// The number of characters of the class `\d` in `s` from `start` on, up
/// to the first other character.
pub open spec fn digit_run(s: Seq<char>, start: int) -> nat
    decreases s.len() - start,
{
    if start < 0 || start >= s.len() || !is_decimal_digit(s[start]) {
        0
    } else {
        1 + digit_run(s, start + 1)
    }
}

/// The number of `0` characters in `s` from `start` on, up to the first
/// other character.
pub open spec fn zero_run(s: Seq<char>, start: int) -> nat
    decreases s.len() - start,
{
    if start < 0 || start >= s.len() || s[start] != '0' {
        0
    } else {
        1 + zero_run(s, start + 1)
    }
}

/// The year of a Wikidata time string (`+1952-03-11T00:00:00Z`): a sign,
/// then the run of `\d` characters, its leading ASCII zeros dropped (one
/// kept when all are zeros). The flag tells a negative year.
pub open spec fn time_year(t: Seq<char>) -> Option<(bool, Seq<char>)> {
    if t.len() >= 1 && (t[0] == '+' || t[0] == '-') && digit_run(t, 1) > 0 {
        let d = digit_run(t, 1);
        let z = zero_run(t, 1);
        Some(
            (
                t[0] == '-',
                if z >= d {
                    seq!['0']
                } else {
                    t.subrange((1 + z) as int, (1 + d) as int)
                },
            ),
        )
    } else {
        None
    }
}

/// The time string of a claim.
pub open spec fn claim_time(claim: Json) -> Option<Seq<char>> {
    jstr(jget(jget(datavalue_of(claim), "value"@), "time"@))
}

/// The year of the first claim whose time string has one.
pub open spec fn first_year(claims: Seq<Json>) -> Option<(bool, Seq<char>)>
    decreases claims.len(),
{
    if claims.len() == 0 {
        None
    } else {
        match claim_time(claims[0]) {
            Some(t) => match time_year(t) {
                Some(y) => Some(y),
                None => first_year(claims.drop_first()),
            },
            None => first_year(claims.drop_first()),
        }
    }
}

/// The suffix of a year before the common era: the `BC` entry of the stock
/// texts in `lang`, else in English, else `BC`.
pub open spec fn bc_suffix(stock: Seq<(Seq<char>, StrMap<String>)>, lang: Seq<char>) -> Seq<char> {
    match find(stock, "BC"@) {
        Some(m) => match find(m@, lang) {
            Some(s) => s@,
            None => match find(m@, "en"@) {
                Some(s) => s@,
                None => "BC"@,
            },
        },
        None => "BC"@,
    }
}

/// The property id `P<n>`.
pub open spec fn prop_id(p: nat) -> Seq<char> {
    seq!['P'] + decimal(p)
}

/// What `get_year` returns: the year of the first usable claim of property
/// `p`, with the BC suffix for negative years; `""` when there is none.
pub open spec fn year_text(
    claims: Json,
    p: nat,
    lang: Seq<char>,
    stock: Seq<(Seq<char>, StrMap<String>)>,
) -> Seq<char> {
    match first_year(jarr_or_empty(member(claims, prop_id(p)))) {
        Some((neg, y)) => if neg {
            y + bc_suffix(stock, lang)
        } else {
            y
        },
        None => Seq::empty(),
    }
}

pub proof fn lemma_zero_run_le_digit_run(s: Seq<char>, start: int)
    ensures
        zero_run(s, start) <= digit_run(s, start),
        zero_run(s, start) < digit_run(s, start) ==> s[start + zero_run(s, start)] != '0',
        zero_run(s, start) == digit_run(s, start) && digit_run(s, start) > 0 ==> s[start
            + digit_run(s, start) - 1] == '0',
    decreases s.len() - start,
{
    if start >= 0 && start < s.len() && is_decimal_digit(s[start]) {
        lemma_zero_run_le_digit_run(s, start + 1);
    }
}

/// The `P<n>` id of a property number.
pub fn property_id(p: u64) -> (r: String)
    ensures
        r@ == prop_id(p as nat),
{
    let d = u64_to_decimal(p);
    proof {
        reveal_strlit("P");
    }
    crate::text::concat2("P", d.as_str())
}

/// The loaded entities, keyed by id.
pub struct WikiData {
    pub items: StrMap<WikiDataItem>,
    /// The API endpoint the entities are asked from.
    pub api_url: String,
}

impl View for WikiData {
    type V = Seq<(Seq<char>, WikiDataItem)>;

    open spec fn view(&self) -> Seq<(Seq<char>, WikiDataItem)> {
        self.items@
    }
}

impl WikiData {
    /// An empty store for the public Wikidata API.
    pub fn new() -> (r: WikiData)
        ensures
            r@ == Seq::<(Seq<char>, WikiDataItem)>::empty(),
            r.api_url@ == DEFAULT_API_URL@,
    {
        Self::with_api_url(DEFAULT_API_URL)
    }

    /// An empty store for the given API endpoint.
    pub fn with_api_url(api_url: &str) -> (r: WikiData)
        ensures
            r@ == Seq::<(Seq<char>, WikiDataItem)>::empty(),
            r.api_url@ == api_url@,
    {
        WikiData { items: StrMap::new(), api_url: owned(api_url) }
    }

    /// Whether the entity `q` is loaded.
    pub fn has_item(&self, q: &QId) -> (r: bool)
        ensures
            r == find(self@, q@) is Some,
    {
        self.items.contains_key(q.as_str())
    }

    /// The loaded entity `q`.
    pub fn get_item(&self, q: &QId) -> (r: Option<&WikiDataItem>)
        ensures
            match r {
                Some(i) => find(self@, q@) == Some(*i),
                None => find(self@, q@) is None,
            },
    {
        self.items.get(q.as_str())
    }

    /// The loaded entity stored under the id `id` exactly as given.
    pub fn get_entity(&self, id: &str) -> (r: Option<&WikiDataItem>)
        ensures
            match r {
                Some(i) => find(self@, id@) == Some(*i),
                None => find(self@, id@) is None,
            },
    {
        self.items.get(id)
    }

    /// Store an entity under `q`.
    pub fn insert_item(&mut self, q: QId, item: WikiDataItem)
        ensures
            find(final(self)@, q@) == Some(item),
            forall|k: Seq<char>| k != q@ ==> find(final(self)@, k) == find(old(self)@, k),
            final(self).api_url == old(self).api_url,
    {
        let key = q.to_string();
        self.items.insert(key, item);
    }

    /// Forget every loaded entity.
    pub fn clear(&mut self)
        ensures
            final(self)@ == Seq::<(Seq<char>, WikiDataItem)>::empty(),
            final(self).api_url == old(self).api_url,
    {
        self.items.clear();
    }

    /// The Q-ids a batch request for `item_list` has to load: those that
    /// parse, in normalized form, that are not loaded yet, each once.
    pub fn plan_batch(&self, item_list: &[String]) -> (r: Vec<QId>)
        ensures
            qid_views(r@) == batch_plan(self@, views(item_list@)),
    {
        let ghost list = views(item_list@);
        let mut r: Vec<QId> = Vec::new();
        let mut i: usize = 0;
        while i < item_list.len()
            invariant
                list == views(item_list@),
                i <= item_list@.len(),
                qid_views(r@) == batch_plan(self@, list.take(i as int)),
            decreases item_list.len() - i,
        {
            assert(list.take(i + 1).drop_last() =~= list.take(i as int));
            assert(list.take(i + 1).last() == item_list@[i as int]@);
            match QId::parse(item_list[i].as_str()) {
                Ok(q) => {
                    if !self.has_item(&q) && !contains_qid(&r, &q) {
                        r.push(q);
                        assert(qid_views(r@) =~= batch_plan(self@, list.take(i as int)).push(q@));
                    }
                },
                Err(_) => {},
            }
            i = i + 1;
        }
        assert(list.take(item_list@.len() as int) =~= list);
        r
    }

    /// The `ids` parameters of the requests that load `to_load`.
    pub fn batch_requests(to_load: &Vec<QId>) -> (r: Vec<String>)
        ensures
            views(r@) == request_chunks(qid_views(to_load@), MAX_GET_ENTITIES as nat),
    {
        let ghost ids = qid_views(to_load@);
        let size = MAX_GET_ENTITIES;
        let n = to_load.len();
        let mut r: Vec<String> = Vec::new();
        let mut i: usize = 0;
        assert(ids.skip(0) =~= ids);
        assert(views(r@) =~= Seq::<Seq<char>>::empty());
        while i < n
            invariant
                ids == qid_views(to_load@),
                n == ids.len(),
                size == MAX_GET_ENTITIES,
                i <= n,
                request_chunks(ids, size as nat) == views(r@) + request_chunks(ids.skip(i as int), size as nat),
            decreases n - i,
        {
            let end = if n - i <= size {
                n
            } else {
                i + size
            };
            let piece = join_qids(to_load, i, end);
            let ghost rest = ids.skip(i as int);
            proof {
                if n - i <= size {
                    assert(ids.subrange(i as int, end as int) =~= rest);
                    assert(ids.skip(end as int) =~= Seq::<Seq<char>>::empty());
                } else {
                    assert(ids.subrange(i as int, end as int) =~= rest.take(size as int));
                    assert(rest.skip(size as int) =~= ids.skip(end as int));
                }
            }
            r.push(piece);
            assert(views(r@) =~= views(r@.drop_last()).push(r@.last()@));
            i = end;
        }
        assert(ids.skip(n as int) =~= Seq::<Seq<char>>::empty());
        assert(views(r@) + Seq::<Seq<char>>::empty() =~= views(r@));
        r
    }

    /// Store the entities of a `wbgetentities` answer, each under the key
    /// the answer gives it; an answer without entities changes nothing.
    pub fn absorb_entities(&mut self, response: Json)
        ensures
            final(self).api_url == old(self).api_url,
            forall|k: Seq<char>|
                #![trigger find(final(self)@, k)]
                find(final(self)@, k) == match lookup_last(
                    match jobj(member(response, "entities"@)) {
                        Some(e) => e,
                        None => Seq::empty(),
                    },
                    k,
                ) {
                    Some(v) => Some(item_of(v)),
                    None => find(old(self)@, k),
                },
    {
        let ghost old_items = self@;
        let entities = take_member(response, "entities");
        match entities {
            Some(Json::Object(mut entries)) => {
                let ghost orig = entries@;
                assert(orig.take(0) =~= Seq::<(String, Json)>::empty());
                assert(orig.skip(0) =~= orig);
                while entries.len() > 0
                    invariant
                        entries@ == orig.skip(orig.len() - entries@.len()),
                        entries@.len() <= orig.len(),
                        self.api_url == old(self).api_url,
                        forall|k: Seq<char>|
                            #![trigger find(self@, k)]
                            find(self@, k) == match lookup_last(orig.take(orig.len() - entries@.len()), k) {
                                Some(v) => Some(item_of(v)),
                                None => find(old_items, k),
                            },
                    decreases entries.len(),
                {
                    let ghost done = orig.len() - entries@.len();
                    let ghost prev = self@;
                    let e = entries.remove(0);
                    assert(e == orig[done]);
                    assert(orig.take(done + 1).drop_last() =~= orig.take(done));
                    assert(orig.take(done + 1).last() == orig[done]);
                    assert(orig.skip(done + 1) =~= entries@);
                    let (k, v) = e;
                    let ghost kv = k@;
                    let item = WikiDataItem::new(v);
                    assert(item == item_of(orig[done].1));
                    self.items.insert(k, item);
                    assert forall|k2: Seq<char>|
                        #![trigger find(self@, k2)]
                        find(self@, k2) == match lookup_last(orig.take(done + 1), k2) {
                            Some(v2) => Some(item_of(v2)),
                            None => find(old_items, k2),
                        } by {
                        if k2 == kv {
                        } else {
                            assert(find(self@, k2) == find(prev, k2));
                        }
                    }
                }
                assert(orig.take(orig.len() as int) =~= orig);
            },
            _ => {},
        }
    }

    /// The year of the first claim of property `p` (a number, such as 569
    /// for P569) whose time has one, with the stock BC suffix for negative
    /// years; `""` when no claim has one.
    pub fn get_year(claims: &Json, p: u64, lang: &str, stock: &StrMap<StrMap<String>>) -> (r: String)
        ensures
            r@ == year_text(*claims, p as nat, lang@, stock@),
    {
        let prop = property_id(p);
        let arr = match claims.get(prop.as_str()) {
            Some(v) => match v.as_array() {
                Some(a) => a,
                None => return String::new(),
            },
            None => return String::new(),
        };
        let mut i: usize = 0;
        assert(arr@.skip(0) =~= arr@);
        while i < arr.len()
            invariant
                i <= arr@.len(),
                jarr_or_empty(member(*claims, prop_id(p as nat))) == arr@,
                first_year(arr@) == first_year(arr@.skip(i as int)),
            decreases arr.len() - i,
        {
            let ghost sk = arr@.skip(i as int);
            assert(sk[0] == arr@[i as int]);
            assert(sk.drop_first() =~= arr@.skip(i + 1));
            let claim = &arr[i];
            let t = opt_str(opt_get(opt_get(opt_get(claim.get("mainsnak"), "datavalue"), "value"), "time"));
            match t {
                Some(ts) => {
                    match parse_year(ts) {
                        Some((neg, year)) => {
                            if neg {
                                let suffix = bc_text(stock, lang);
                                let mut out = year;
                                out.append(suffix);
                                return out;
                            }
                            return year;
                        },
                        None => {},
                    }
                },
                None => {},
            }
            i = i + 1;
        }
        String::new()
    }
}

/// Whether `q` is among `v`.
fn contains_qid(v: &Vec<QId>, q: &QId) -> (r: bool)
    ensures
        r == qid_views(v@).contains(q@),
{
    let mut i: usize = 0;
    while i < v.len()
        invariant
            i <= v@.len(),
            forall|j: int| 0 <= j < i ==> v@[j]@ != q@,
        decreases v.len() - i,
    {
        if crate::text::str_eq(v[i].as_str(), q.as_str()) {
            assert(qid_views(v@)[i as int] == q@);
            return true;
        }
        i = i + 1;
    }
    assert forall|j: int| 0 <= j < qid_views(v@).len() implies qid_views(v@)[j] != q@ by {
        assert(qid_views(v@)[j] == v@[j]@);
    }
    false
}

/// The ids `to_load[start..end]` joined by `|`.
fn join_qids(to_load: &Vec<QId>, start: usize, end: usize) -> (r: String)
    requires
        start < end <= to_load@.len(),
    ensures
        r@ == seq_join(qid_views(to_load@).subrange(start as int, end as int), "|"@),
{
    let ghost ids = qid_views(to_load@);
    let mut r = to_load[start].to_string();
    assert(ids.subrange(start as int, start + 1) =~= seq![to_load@[start as int]@]);
    let mut j: usize = start + 1;
    while j < end
        invariant
            ids == qid_views(to_load@),
            start < j <= end <= to_load@.len(),
            r@ == seq_join(ids.subrange(start as int, j as int), "|"@),
        decreases end - j,
    {
        r.append("|");
        r.append(to_load[j].as_str());
        assert(ids.subrange(start as int, j + 1).drop_last() =~= ids.subrange(start as int, j as int));
        j = j + 1;
    }
    r
}

/// The BC suffix of the stock texts for `lang`.
fn bc_text<'a>(stock: &'a StrMap<StrMap<String>>, lang: &str) -> (r: &'a str)
    ensures
        r@ == bc_suffix(stock@, lang@),
{
    match stock.get("BC") {
        Some(m) => match m.get(lang) {
            Some(s) => s.as_str(),
            None => match m.get("en") {
                Some(s) => s.as_str(),
                None => "BC",
            },
        },
        None => "BC",
    }
}

/// The year of a time string, and whether it is negative.
pub fn parse_year(t: &str) -> (r: Option<(bool, String)>)
    ensures
        match r {
            Some((neg, y)) => time_year(t@) == Some((neg, y@)),
            None => time_year(t@) is None,
        },
{
    let n = t.unicode_len();
    if n == 0 {
        return None;
    }
    let sign = t.get_char(0);
    if sign != '+' && sign != '-' {
        return None;
    }
    let mut z: usize = 1;
    while z < n && t.get_char(z) == '0'
        invariant
            n == t@.len(),
            1 <= z <= n,
            zero_run(t@, 1) == (z - 1) + zero_run(t@, z as int),
        decreases n - z,
    {
        z = z + 1;
    }
    let mut d: usize = 1;
    while d < n && is_decimal_digit_char(t.get_char(d))
        invariant
            n == t@.len(),
            1 <= d <= n,
            digit_run(t@, 1) == (d - 1) + digit_run(t@, d as int),
        decreases n - d,
    {
        d = d + 1;
    }
    assert(zero_run(t@, z as int) == 0);
    assert(digit_run(t@, d as int) == 0);
    proof {
        lemma_zero_run_le_digit_run(t@, 1);
    }
    if d == 1 {
        return None;
    }
    let neg = sign == '-';
    if z >= d {
        let mut y = String::new();
        crate::text::push_char(&mut y, '0');
        assert(y@ =~= seq!['0']);
        Some((neg, y))
    } else {
        Some((neg, owned(t.substring_char(z, d))))
    }
}

/// The requests for `ids` are `ceil(|ids| / size)` in number, and the `i`-th
/// asks for the ids from `i * size` on, at most `size` of them: together
/// they ask for each id once, in order.
pub proof fn lemma_request_chunks(ids: Seq<Seq<char>>, size: nat)
    requires
        size > 0,
    ensures
        request_chunks(ids, size).len() == (ids.len() + size - 1) / (size as int),
        forall|i: int|
            0 <= i < request_chunks(ids, size).len() ==> #[trigger] request_chunks(ids, size)[i] == seq_join(
                ids.subrange(
                    i * size,
                    if (i + 1) * size <= ids.len() {
                        (i + 1) * size
                    } else {
                        ids.len() as int
                    },
                ),
                "|"@,
            ),
    decreases ids.len(),
{
    let n = ids.len() as int;
    let m = size as int;
    if n == 0 {
        assert((n + m - 1) / m == 0) by (nonlinear_arith)
            requires
                n == 0,
                m > 0,
        ;
    } else if n <= m {
        assert((n + m - 1) / m == 1) by (nonlinear_arith)
            requires
                0 < n <= m,
        ;
        assert(ids.subrange(0, n) =~= ids);
        let c = request_chunks(ids, size);
        assert forall|i: int| 0 <= i < c.len() implies #[trigger] c[i] == seq_join(
            ids.subrange(
                i * size,
                if (i + 1) * size <= ids.len() {
                    (i + 1) * size
                } else {
                    ids.len() as int
                },
            ),
            "|"@,
        ) by {
            assert(i * m == 0 && (i + 1) * m == m) by (nonlinear_arith)
                requires
                    i == 0,
            ;
            if m == n {
                assert(ids.subrange(0, m) =~= ids);
            }
        }
    } else {
        let rest = ids.skip(m);
        lemma_request_chunks(rest, size);
        let r = request_chunks(rest, size);
        assert((n + m - 1) / m == 1 + (n - m + m - 1) / m) by (nonlinear_arith)
            requires
                n > m > 0,
        ;
        let c = request_chunks(ids, size);
        assert forall|i: int| 0 <= i < c.len() implies #[trigger] c[i] == seq_join(
            ids.subrange(
                i * size,
                if (i + 1) * size <= ids.len() {
                    (i + 1) * size
                } else {
                    ids.len() as int
                },
            ),
            "|"@,
        ) by {
            if i == 0 {
                assert(i * m == 0 && (i + 1) * m == m) by (nonlinear_arith)
                    requires
                        i == 0,
                ;
                assert(ids.take(m) =~= ids.subrange(0, m));
            } else {
                let k = i - 1;
                assert(c[i] == r[k]);
                assert(k * m + m == i * m) by (nonlinear_arith)
                    requires
                        k == i - 1,
                ;
                assert((k + 1) * m + m == (i + 1) * m) by (nonlinear_arith)
                    requires
                        k == i - 1,
                ;
                let lo = k * m;
                let hi = if (k + 1) * m <= rest.len() {
                    (k + 1) * m
                } else {
                    rest.len() as int
                };
                let l = rest.len() as int;
                assert(0 <= k * m < l) by (nonlinear_arith)
                    requires
                        0 <= k < (l + m - 1) / m,
                        m > 0,
                        l >= 0,
                ;
                assert(rest.subrange(lo, hi) =~= ids.subrange(lo + m, hi + m));
            }
        }
    }
}

/// Loading a batch never asks for an entity twice, never for one that is
/// loaded already, and asks for every entry that names an unloaded Q-id.
pub proof fn lemma_batch_plan(loaded: Seq<(Seq<char>, WikiDataItem)>, list: Seq<Seq<char>>)
    ensures
        crate::wikidata_item::no_duplicates(batch_plan(loaded, list)),
        forall|j: int|
            0 <= j < batch_plan(loaded, list).len() ==> find(loaded, #[trigger] batch_plan(loaded, list)[j]) is None,
        forall|j: int|
            0 <= j < list.len() && #[trigger] parse_qid(list[j]) is Ok && find(loaded, parse_qid(list[j])->Ok_0) is None
                ==> batch_plan(loaded, list).contains(parse_qid(list[j])->Ok_0),
    decreases list.len(),
{
    if list.len() > 0 {
        let prev = batch_plan(loaded, list.drop_last());
        lemma_batch_plan(loaded, list.drop_last());
        let cur = batch_plan(loaded, list);
        let pushed = cur != prev;
        if pushed {
            let q = parse_qid(list.last())->Ok_0;
            assert(cur == prev.push(q));
            assert(!prev.contains(q));
            lemma_contains_push(prev, q);
            assert forall|i: int, j: int| 0 <= i < j < cur.len() implies cur[i] != cur[j] by {
                if j == cur.len() - 1 {
                    assert(prev[i] == cur[i]);
                    if cur[i] == cur[j] {
                        assert(prev.contains(q));
                    }
                } else {
                    assert(prev[i] == cur[i] && prev[j] == cur[j]);
                }
            }
            assert forall|j: int| 0 <= j < cur.len() implies find(loaded, #[trigger] cur[j]) is None by {
                if j < prev.len() {
                    assert(cur[j] == prev[j]);
                }
            }
        }
        assert forall|j: int|
            0 <= j < list.len() && #[trigger] parse_qid(list[j]) is Ok && find(loaded, parse_qid(list[j])->Ok_0) is None
                implies cur.contains(parse_qid(list[j])->Ok_0) by {
            let x = parse_qid(list[j])->Ok_0;
            if j < list.len() - 1 {
                assert(list.drop_last()[j] == list[j]);
                assert(prev.contains(x));
                if pushed {
                    lemma_contains_push(prev, parse_qid(list.last())->Ok_0);
                }
            } else {
                assert(list[j] == list.last());
                if !pushed {
                    assert(prev.contains(x));
                } else {
                    lemma_contains_push(prev, x);
                }
            }
        }
    }
}

impl Default for WikiData {
    /// The same client as `new`.
    fn default() -> (r: WikiData)
        ensures
            r@ == Seq::<(Seq<char>, WikiDataItem)>::empty(),
            r.api_url@ == DEFAULT_API_URL@,
    {
        WikiData::new()
    }
}

/// After attempt `attempt` (from 0) failed: `Some(ms)` to wait `ms`
/// milliseconds and retry, `None` to give up. The waits grow exponentially:
/// the base delay times two to the power of the attempt.
pub fn retry_after_failure(attempt: u32) -> (r: Option<u64>)
    ensures
        attempt + 1 < MAX_RETRIES ==> r == Some(
            (BASE_RETRY_DELAY_MS * vstd::arithmetic::power2::pow2(attempt as nat)) as u64,
        ),
        attempt + 1 >= MAX_RETRIES ==> r is None,
{
    proof {
        vstd::arithmetic::power2::lemma2_to64();
    }
    if attempt < MAX_RETRIES - 1 {
        let mut delay: u64 = BASE_RETRY_DELAY_MS;
        let mut i: u32 = 0;
        while i < attempt
            invariant
                i <= attempt,
                attempt + 1 < MAX_RETRIES,
                delay == BASE_RETRY_DELAY_MS * vstd::arithmetic::power2::pow2(i as nat),
            decreases attempt - i,
        {
            proof {
                vstd::arithmetic::power2::lemma2_to64();
            }
            delay = delay * 2;
            i = i + 1;
        }
        Some(delay)
    } else {
        None
    }
}

} // verus!
