//! The pieces the long descriptions of all languages share: dates in words,
//! list separators and lists of items.

use vstd::prelude::*;
use crate::long_desc::{
    DatedItem, DatedView, Flags, FragView, LongDescState, WdDate, dated_view, dated_views, first_item, first_qual,
    flags_of, frags, get_first_claim_item, it, tx,
};
use crate::json::Json;
use crate::short_desc::ShortDescription;
use crate::short_desc::labeler::nationality_of;
use crate::str_map::find;
use crate::text::{concat2, str_eq, to_lower};
use crate::wikidata::WikiData;
use crate::wikidata_item::{WikiDataItem, label_of};
use crate::text::{decimal, digits_value, is_ascii_digit, lemma_digits_value_grows, lemma_digits_value_push, owned, u64_to_decimal, views};
use crate::wikidata::{digit_run, time_year};

verus! {

/// The languages of long descriptions.
#[derive(Debug, Clone, Copy, PartialEq, Eq, Structural)]
pub enum LongLang {
    De,
    En,
    Fr,
    Nl,
}

/// The value of two decimal digits.
pub open spec fn two_digits(a: char, b: char) -> nat {
    (((a as u32) - 48) * 10 + ((b as u32) - 48)) as nat
}

/// The parts of a Wikidata time string.
pub struct TimeParts {
    /// The year is before year 0.
    pub negative: bool,
    /// The digits of the year, leading zeros dropped.
    pub year: Seq<char>,
    pub month: nat,
    pub day: nat,
}

/// The parts of a time string `±YYYY-MM-DD…` (leading zeros of the year
/// dropped); nothing when the string has another form, or the year holds a
/// digit beyond ASCII or does not fit in 32 bits.
pub open spec fn time_parts(t: Seq<char>) -> Option<TimeParts> {
    match time_year(t) {
        None => None,
        Some((neg, y)) => {
            let p: int = 1 + digit_run(t, 1) as int;
            if p + 6 <= t.len() && t[p] == '-' && is_ascii_digit(t[p + 1]) && is_ascii_digit(t[p + 2]) && t[p + 3]
                == '-' && is_ascii_digit(t[p + 4]) && is_ascii_digit(t[p + 5]) && crate::text::all_ascii_digits(y)
                && digits_value(y) <= 2147483647 {
                Some(
                    TimeParts {
                        negative: neg && digits_value(y) > 0,
                        year: y,
                        month: two_digits(t[p + 1], t[p + 2]),
                        day: two_digits(t[p + 4], t[p + 5]),
                    },
                )
            } else {
                None
            }
        },
    }
}

/// The value of a string of decimal digits, when it is at most
/// 2147483647.
fn small_value(s: &str) -> (r: Option<u32>)
    requires
        crate::text::all_ascii_digits(s@),
    ensures
        match r {
            Some(v) => digits_value(s@) == v as nat && v <= 2147483647,
            None => digits_value(s@) > 2147483647,
        },
{
    let n = s.unicode_len();
    let mut v: u64 = 0;
    let mut i: usize = 0;
    assert(s@.take(0) =~= Seq::<char>::empty());
    while i < n
        invariant
            n == s@.len(),
            i <= n,
            crate::text::all_ascii_digits(s@),
            v as nat == digits_value(s@.take(i as int)),
            v <= 2147483647,
        decreases n - i,
    {
        let c = s.get_char(i);
        assert(crate::text::is_ascii_digit(s@[i as int]));
        assert(s@.take(i + 1) =~= s@.take(i as int).push(c));
        proof {
            lemma_digits_value_push(s@.take(i as int), c);
        }
        let d = (c as u32 - 48) as u64;
        let nv = v * 10 + d;
        if nv > 2147483647 {
            proof {
                lemma_digits_value_grows(s@, i as int + 1);
            }
            return None;
        }
        v = nv;
        i = i + 1;
    }
    assert(s@.take(n as int) =~= s@);
    Some(v as u32)
}

/// The parts of a time string: whether the year is negative, the year's
/// digits, the month and the day.
pub fn parse_time(time: &str) -> (r: Option<(bool, String, u32, u32)>)
    ensures
        match r {
            Some((neg, y, m, d)) => time_parts(time@) == Some(
                TimeParts { negative: neg, year: y@, month: m as nat, day: d as nat },
            ),
            None => time_parts(time@) is None,
        },
{
    let (neg, year) = match crate::wikidata::parse_year(time) {
        Some(p) => p,
        None => return None,
    };
    let n = time.unicode_len();
    let mut d: usize = 1;
    while d < n && crate::validation::is_decimal_digit_char(time.get_char(d))
        invariant
            n == time@.len(),
            1 <= d <= n,
            digit_run(time@, 1) == (d - 1) + digit_run(time@, d as int),
        decreases n - d,
    {
        d = d + 1;
    }
    assert(digit_run(time@, d as int) == 0);
    let p = d;
    if !(n - p >= 6) {
        return None;
    }
    let c0 = time.get_char(p);
    let c1 = time.get_char(p + 1);
    let c2 = time.get_char(p + 2);
    let c3 = time.get_char(p + 3);
    let c4 = time.get_char(p + 4);
    let c5 = time.get_char(p + 5);
    let digit1 = c1 >= '0' && c1 <= '9';
    let digit2 = c2 >= '0' && c2 <= '9';
    let digit4 = c4 >= '0' && c4 <= '9';
    let digit5 = c5 >= '0' && c5 <= '9';
    if !(c0 == '-' && digit1 && digit2 && c3 == '-' && digit4 && digit5) {
        return None;
    }
    if !crate::text::is_all_ascii_digits(year.as_str()) {
        return None;
    }
    let value = match small_value(year.as_str()) {
        Some(v) => v,
        None => return None,
    };
    let month = (c1 as u32 - 48) * 10 + (c2 as u32 - 48);
    let day = (c4 as u32 - 48) * 10 + (c5 as u32 - 48);
    Some((neg && value > 0, year, month, day))
}

/// The name of month `m` (1 to 12) in a language, `""` for other numbers.
pub open spec fn month_name(l: LongLang, m: nat) -> Seq<char> {
    if m < 1 || m > 12 {
        Seq::empty()
    } else {
        match l {
            LongLang::En => seq![
                "January"@, "February"@, "March"@, "April"@, "May"@, "June"@, "July"@, "August"@, "September"@,
                "October"@, "November"@, "December"@,
            ][m - 1],
            LongLang::De => seq![
                "Januar"@, "Februar"@, "März"@, "April"@, "Mai"@, "Juni"@, "Juli"@, "August"@, "September"@,
                "Oktober"@, "November"@, "Dezember"@,
            ][m - 1],
            LongLang::Fr => seq![
                "janvier"@, "février"@, "mars"@, "avril"@, "mai"@, "juin"@, "juillet"@, "août"@, "septembre"@,
                "octobre"@, "novembre"@, "décembre"@,
            ][m - 1],
            LongLang::Nl => seq![
                "januari"@, "februari"@, "maart"@, "april"@, "mei"@, "juni"@, "juli"@, "augustus"@, "september"@,
                "oktober"@, "november"@, "december"@,
            ][m - 1],
        }
    }
}

/// The name of month `m` in a language.
pub fn month_label(l: LongLang, m: u32) -> (r: &'static str)
    ensures
        r@ == month_name(l, m as nat),
{
    proof {
        reveal_strlit("");
    }
    if m < 1 || m > 12 {
        return "";
    }
    let names: [&'static str; 12] = match l {
        LongLang::En => [
            "January", "February", "March", "April", "May", "June", "July", "August", "September", "October",
            "November", "December",
        ],
        LongLang::De => [
            "Januar", "Februar", "März", "April", "Mai", "Juni", "Juli", "August", "September", "Oktober",
            "November", "Dezember",
        ],
        LongLang::Fr => [
            "janvier", "février", "mars", "avril", "mai", "juin", "juillet", "août", "septembre", "octobre",
            "novembre", "décembre",
        ],
        LongLang::Nl => [
            "januari", "februari", "maart", "april", "mei", "juni", "juli", "augustus", "september", "oktober",
            "november", "december",
        ],
    };
    let i = (m - 1) as usize;
    let r = names[i];
    assert(r@ == month_name(l, m as nat));
    r
}

/// The suffix of a year before the common era.
pub open spec fn era_suffix(l: LongLang) -> Seq<char> {
    match l {
        LongLang::En => " B.C.E."@,
        LongLang::De => " v. Chr."@,
        LongLang::Fr => " av. J.-C."@,
        LongLang::Nl => " v. Chr."@,
    }
}

/// A date in words. For German, English and Dutch `flag` drops the
/// preposition; for French it makes the date an end (`jusqu'en`,
/// `jusqu'au`). `???` for a time string that cannot be read.
pub open spec fn rendered_date(l: LongLang, date: (Seq<char>, u64), flag: bool) -> Seq<char> {
    match time_parts(date.0) {
        None => "???"@,
        Some(tp) => {
            let m = month_name(l, tp.month);
            let y = tp.year;
            let day = decimal(tp.day);
            let p = date.1;
            let body = match l {
                LongLang::En => if p <= 9 {
                    (if flag {
                        Seq::empty()
                    } else {
                        "in "@
                    }) + y
                } else if p == 10 {
                    (if flag {
                        Seq::empty()
                    } else {
                        "in "@
                    }) + m + " "@ + y
                } else {
                    (if flag {
                        Seq::empty()
                    } else {
                        "on "@
                    }) + m + " "@ + day + ", "@ + y
                },
                LongLang::De => if p <= 9 {
                    (if flag {
                        Seq::empty()
                    } else {
                        "im Jahr "@
                    }) + y
                } else if p == 10 {
                    (if flag {
                        Seq::empty()
                    } else {
                        "im "@
                    }) + m + " "@ + y
                } else {
                    (if flag {
                        Seq::empty()
                    } else {
                        "am "@
                    }) + day + ". "@ + m + " "@ + y
                },
                LongLang::Nl => if p <= 9 {
                    (if flag {
                        Seq::empty()
                    } else {
                        "in "@
                    }) + y
                } else if p == 10 {
                    (if flag {
                        Seq::empty()
                    } else {
                        "in "@
                    }) + m + " "@ + y
                } else {
                    (if flag {
                        Seq::empty()
                    } else {
                        "op "@
                    }) + day + " "@ + m + " "@ + y
                },
                LongLang::Fr => if p <= 9 {
                    (if flag {
                        "jusqu'en "@
                    } else {
                        "en "@
                    }) + y
                } else if p == 10 {
                    (if flag {
                        "jusqu'en "@
                    } else {
                        "en "@
                    }) + m + " "@ + y
                } else {
                    (if flag {
                        "jusqu'au "@
                    } else {
                        "le "@
                    }) + day + " "@ + m + " "@ + y
                },
            };
            if tp.negative {
                body + era_suffix(l)
            } else {
                body
            }
        },
    }
}

/// The preposition a date starts with.
fn date_prefix(l: LongLang, precision: u64, flag: bool) -> (r: &'static str)
    ensures
        r@ == match l {
            LongLang::En => if flag {
                Seq::empty()
            } else if precision <= 10 {
                "in "@
            } else {
                "on "@
            },
            LongLang::De => if flag {
                Seq::empty()
            } else if precision <= 9 {
                "im Jahr "@
            } else if precision == 10 {
                "im "@
            } else {
                "am "@
            },
            LongLang::Nl => if flag {
                Seq::empty()
            } else if precision <= 10 {
                "in "@
            } else {
                "op "@
            },
            LongLang::Fr => if precision <= 10 {
                if flag {
                    "jusqu'en "@
                } else {
                    "en "@
                }
            } else if flag {
                "jusqu'au "@
            } else {
                "le "@
            },
        },
{
    proof {
        reveal_strlit("");
    }
    match l {
        LongLang::En => if flag {
            ""
        } else if precision <= 10 {
            "in "
        } else {
            "on "
        },
        LongLang::De => if flag {
            ""
        } else if precision <= 9 {
            "im Jahr "
        } else if precision == 10 {
            "im "
        } else {
            "am "
        },
        LongLang::Nl => if flag {
            ""
        } else if precision <= 10 {
            "in "
        } else {
            "op "
        },
        LongLang::Fr => if precision <= 10 {
            if flag {
                "jusqu'en "
            } else {
                "en "
            }
        } else if flag {
            "jusqu'au "
        } else {
            "le "
        },
    }
}

/// A date in words.
pub fn render_date(l: LongLang, date: &WdDate, flag: bool) -> (r: String)
    ensures
        r@ == rendered_date(l, (date.time@, date.precision), flag),
{
    let (neg, year, month, day) = match parse_time(date.time.as_str()) {
        Some(t) => t,
        None => return owned("???"),
    };
    let p = date.precision;
    let m = month_label(l, month);
    let mut result = owned(date_prefix(l, p, flag));
    proof {
        reveal_strlit("");
    }
    if p <= 9 {
        result.append(year.as_str());
    } else if p == 10 {
        result.append(m);
        result.append(" ");
        result.append(year.as_str());
    } else {
        let d = u64_to_decimal(day as u64);
        match l {
            LongLang::En => {
                result.append(m);
                result.append(" ");
                result.append(d.as_str());
                result.append(", ");
                result.append(year.as_str());
            },
            LongLang::De => {
                result.append(d.as_str());
                result.append(". ");
                result.append(m);
                result.append(" ");
                result.append(year.as_str());
            },
            _ => {
                result.append(d.as_str());
                result.append(" ");
                result.append(m);
                result.append(" ");
                result.append(year.as_str());
            },
        }
    }
    if neg {
        let suffix = match l {
            LongLang::En => " B.C.E.",
            LongLang::De => " v. Chr.",
            LongLang::Fr => " av. J.-C.",
            LongLang::Nl => " v. Chr.",
        };
        result.append(suffix);
    }
    result
}

/// The separator after the item at `pos` of a list of `len` items.
pub open spec fn sep_after(l: LongLang, len: nat, pos: nat) -> Seq<char> {
    if pos + 1 == len {
        " "@
    } else {
        match l {
            LongLang::En => if pos == 0 && len == 2 {
                " and "@
            } else if len == pos + 2 {
                ", and "@
            } else {
                ", "@
            },
            LongLang::De => if (pos == 0 && len == 2) || len == pos + 2 {
                " und "@
            } else {
                ", "@
            },
            LongLang::Fr => if (pos == 0 && len == 2) || len == pos + 2 {
                " et "@
            } else {
                ", "@
            },
            LongLang::Nl => if pos == 0 && len == 2 {
                " en "@
            } else if len == pos + 2 {
                ", en "@
            } else {
                ", "@
            },
        }
    }
}

/// The separator after the item at `pos` of a list of `len` items.
pub fn get_sep_after(l: LongLang, len: usize, pos: usize) -> (r: &'static str)
    ensures
        r@ == sep_after(l, len as nat, pos as nat),
{
    if pos < usize::MAX && pos + 1 == len {
        return " ";
    }
    let last_but_one = pos < usize::MAX - 1 && len == pos + 2;
    match l {
        LongLang::En => if pos == 0 && len == 2 {
            " and "
        } else if last_but_one {
            ", and "
        } else {
            ", "
        },
        LongLang::De => if (pos == 0 && len == 2) || last_but_one {
            " und "
        } else {
            ", "
        },
        LongLang::Fr => if (pos == 0 && len == 2) || last_but_one {
            " et "
        } else {
            ", "
        },
        LongLang::Nl => if pos == 0 && len == 2 {
            " en "
        } else if last_but_one {
            ", en "
        } else {
            ", "
        },
    }
}

/// Items each followed by its list separator.
pub open spec fn item_list_frags(l: LongLang, qs: Seq<Seq<char>>) -> Seq<FragView> {
    Seq::new(qs.len(), |k: int| it(qs[k], Seq::empty(), sep_after(l, qs.len(), k as nat)))
}

/// Append items each followed by its list separator.
pub fn push_item_list(state: &mut LongDescState, l: LongLang, qs: &Vec<String>)
    ensures
        flags_of(*final(state)) == flags_of(*old(state)),
        frags(*final(state)) == frags(*old(state)) + item_list_frags(l, views(qs@)),
{
    let ghost start = frags(*state);
    let ghost all = item_list_frags(l, views(qs@));
    let mut k: usize = 0;
    proof {
        crate::text::lemma_empty_str();
    }
    assert(start + all.take(0) =~= start);
    while k < qs.len()
        invariant
            k <= qs@.len(),
            ""@ == Seq::<char>::empty(),
            all == item_list_frags(l, views(qs@)),
            flags_of(*state) == flags_of(*old(state)),
            frags(*state) == start + all.take(k as int),
        decreases qs.len() - k,
    {
        let sep = get_sep_after(l, qs.len(), k);
        state.push_item(qs[k].as_str(), "", sep);
        assert(all[k as int] == it(qs@[k as int]@, ""@, sep@));
        assert(all.take(k + 1) =~= all.take(k as int).push(all[k as int]));
        k = k + 1;
    }
    assert(all.take(qs@.len() as int) =~= all);
}

/// The fragments of the first `k` items of a simple list.
pub open spec fn simple_list_upto(l: LongLang, qs: Seq<Seq<char>>, k: nat) -> Seq<FragView>
    decreases k,
{
    if k == 0 {
        Seq::empty()
    } else {
        simple_list_upto(l, qs, (k - 1) as nat) + seq![
            it(qs[k - 1], Seq::empty(), " "@),
            tx(sep_after(l, qs.len(), (k - 1) as nat)),
        ]
    }
}

/// A simple list: `start`, each item followed by a space and its
/// separator, then `end`; nothing for no items.
pub open spec fn simple_list_frags(l: LongLang, qs: Seq<Seq<char>>, start: Seq<char>, end: Seq<char>) -> Seq<FragView> {
    if qs.len() == 0 {
        Seq::empty()
    } else {
        seq![tx(start)] + simple_list_upto(l, qs, qs.len()) + seq![tx(end)]
    }
}

/// Append a simple list of items.
pub fn push_simple_list(state: &mut LongDescState, l: LongLang, items: &Vec<String>, start: &str, end: &str)
    ensures
        flags_of(*final(state)) == flags_of(*old(state)),
        frags(*final(state)) == frags(*old(state)) + simple_list_frags(l, views(items@), start@, end@),
{
    let ghost s0 = frags(*state);
    proof {
        crate::text::lemma_empty_str();
    }
    if items.len() == 0 {
        assert(s0 + Seq::<FragView>::empty() =~= s0);
        return;
    }
    state.push_text(start);
    let ghost s1 = frags(*state);
    let mut k: usize = 0;
    assert(s1 + simple_list_upto(l, views(items@), 0) =~= s1);
    while k < items.len()
        invariant
            k <= items@.len(),
            ""@ == Seq::<char>::empty(),
            flags_of(*state) == flags_of(*old(state)),
            frags(*state) == s1 + simple_list_upto(l, views(items@), k as nat),
        decreases items.len() - k,
    {
        state.push_item(items[k].as_str(), "", " ");
        let sep = get_sep_after(l, items.len(), k);
        state.push_text(sep);
        assert(views(items@)[k as int] == items@[k as int]@);
        k = k + 1;
    }
    state.push_text(end);
    assert(frags(*state) =~= s0 + simple_list_frags(l, views(items@), start@, end@));
}

/// The words before a start date and before an end date in a date range.
pub open spec fn range_words(l: LongLang) -> (Seq<char>, Seq<char>) {
    match l {
        LongLang::En => ("from "@, "until "@),
        LongLang::De => ("von "@, "bis "@),
        LongLang::Nl => ("van "@, "tot "@),
        LongLang::Fr => (Seq::empty(), Seq::empty()),
    }
}

/// The fragments of the date range of a dated item.
pub open spec fn date_range_frags(l: LongLang, d: DatedView) -> Seq<FragView> {
    let from = match d.from {
        Some(x) => match l {
            LongLang::Fr => seq![tx(rendered_date(l, x, false)), tx(" "@)],
            _ => seq![tx(range_words(l).0), tx(rendered_date(l, x, true)), tx(" "@)],
        },
        None => Seq::empty(),
    };
    let to = match d.to {
        Some(x) => match l {
            LongLang::Fr => seq![tx(rendered_date(l, x, true)), tx(" "@)],
            _ => seq![tx(range_words(l).1), tx(rendered_date(l, x, true)), tx(" "@)],
        },
        None => Seq::empty(),
    };
    from + to
}

/// Append the date range of a dated item.
pub fn push_date_range(state: &mut LongDescState, l: LongLang, item: &DatedItem)
    ensures
        flags_of(*final(state)) == flags_of(*old(state)),
        frags(*final(state)) == frags(*old(state)) + date_range_frags(l, dated_view(*item)),
{
    let ghost s0 = frags(*state);
    match &item.date_from {
        Some(from) => match l {
            LongLang::Fr => {
                let t = render_date(l, from, false);
                state.push_text(t.as_str());
                state.push_text(" ");
            },
            _ => {
                let w = match l {
                    LongLang::En => "from ",
                    LongLang::De => "von ",
                    _ => "van ",
                };
                state.push_text(w);
                let t = render_date(l, from, true);
                state.push_text(t.as_str());
                state.push_text(" ");
            },
        },
        None => {},
    }
    let ghost s1 = frags(*state);
    match &item.date_to {
        Some(to) => match l {
            LongLang::Fr => {
                let t = render_date(l, to, true);
                state.push_text(t.as_str());
                state.push_text(" ");
            },
            _ => {
                let w = match l {
                    LongLang::En => "until ",
                    LongLang::De => "bis ",
                    _ => "tot ",
                };
                state.push_text(w);
                let t = render_date(l, to, true);
                state.push_text(t.as_str());
                state.push_text(" ");
            },
        },
        None => {},
    }
    assert(frags(*state) =~= s0 + date_range_frags(l, dated_view(*item)));
}

/// The fragments of the item at `k` of a dated list: the item, its date
/// range, its first qualifier item of kind `qual.0` after `qual.1`, and its
/// separator, followed by `tail` unless it is the last.
pub open spec fn dated_entry_frags(
    l: LongLang,
    ds: Seq<DatedView>,
    k: int,
    qual: Option<(Seq<char>, Seq<char>)>,
    tail: Option<Seq<char>>,
) -> Seq<FragView> {
    let d = ds[k];
    let sep = sep_after(l, ds.len(), k as nat);
    seq![it(d.q, Seq::empty(), " "@)] + date_range_frags(l, d) + match qual {
        Some((key, prefix)) => match first_qual(d, key) {
            Some(x) => seq![it(x, prefix, " "@)],
            None => Seq::empty(),
        },
        None => Seq::empty(),
    } + seq![
        tx(
            match tail {
                Some(t) => if k + 1 < ds.len() {
                    sep + t
                } else {
                    sep
                },
                None => sep,
            },
        ),
    ]
}

/// The fragments of the first `k` items of a dated list.
pub open spec fn dated_list_upto(
    l: LongLang,
    ds: Seq<DatedView>,
    qual: Option<(Seq<char>, Seq<char>)>,
    tail: Option<Seq<char>>,
    k: nat,
) -> Seq<FragView>
    decreases k,
{
    if k == 0 {
        Seq::empty()
    } else {
        dated_list_upto(l, ds, qual, tail, (k - 1) as nat) + dated_entry_frags(l, ds, k - 1, qual, tail)
    }
}

/// The fragments of a dated list.
pub open spec fn dated_list_frags(
    l: LongLang,
    ds: Seq<DatedView>,
    qual: Option<(Seq<char>, Seq<char>)>,
    tail: Option<Seq<char>>,
) -> Seq<FragView> {
    dated_list_upto(l, ds, qual, tail, ds.len())
}

/// The first qualifier item of kind `key` of a dated item.
fn first_qualifier<'a>(item: &'a DatedItem, key: &str) -> (r: Option<&'a str>)
    ensures
        match r {
            Some(x) => first_qual(dated_view(*item), key@) == Some(x@),
            None => first_qual(dated_view(*item), key@) is None,
        },
{
    let ghost dv = dated_view(*item);
    assert(dv.quals == item.qualifier_items@.map_values(|e: (Seq<char>, Vec<String>)| (e.0, views(e.1@))));
    proof {
        lemma_find_map_views(item.qualifier_items@, key@);
    }
    match item.qualifier_items.get(key) {
        Some(v) => if v.len() > 0 {
            Some(v[0].as_str())
        } else {
            None
        },
        None => None,
    }
}

proof fn lemma_find_map_views(s: Seq<(Seq<char>, Vec<String>)>, k: Seq<char>)
    ensures
        crate::str_map::find(s.map_values(|e: (Seq<char>, Vec<String>)| (e.0, views(e.1@))), k) == match crate::str_map::find(
            s,
            k,
        ) {
            Some(v) => Some(views(v@)),
            None => None,
        },
    decreases s.len(),
{
    let m = s.map_values(|e: (Seq<char>, Vec<String>)| (e.0, views(e.1@)));
    if s.len() > 0 {
        assert(m.drop_first() =~= s.drop_first().map_values(|e: (Seq<char>, Vec<String>)| (e.0, views(e.1@))));
        lemma_find_map_views(s.drop_first(), k);
    }
}

/// Append a dated list: each item with its date range, its first
/// qualifier item of kind `qual.0` after `qual.1`, and its separator,
/// followed by `tail` unless it is the last.
pub fn push_dated_list(
    state: &mut LongDescState,
    l: LongLang,
    items: &Vec<DatedItem>,
    qual: Option<(&str, &str)>,
    tail: Option<&str>,
)
    ensures
        flags_of(*final(state)) == flags_of(*old(state)),
        frags(*final(state)) == frags(*old(state)) + dated_list_frags(
            l,
            dated_views(items@),
            match qual {
                Some((a, b)) => Some((a@, b@)),
                None => None,
            },
            match tail {
                Some(t) => Some(t@),
                None => None,
            },
        ),
{
    let ghost ds = dated_views(items@);
    let ghost qv = match qual {
        Some((a, b)) => Some((a@, b@)),
        None => None,
    };
    let ghost tv = match tail {
        Some(t) => Some(t@),
        None => None,
    };
    let ghost s0 = frags(*state);
    let mut k: usize = 0;
    proof {
        crate::text::lemma_empty_str();
    }
    assert(s0 + dated_list_upto(l, ds, qv, tv, 0) =~= s0);
    while k < items.len()
        invariant
            k <= items@.len(),
            ""@ == Seq::<char>::empty(),
            ds == dated_views(items@),
            qv == match qual {
                Some((a, b)) => Some((a@, b@)),
                None => None::<(Seq<char>, Seq<char>)>,
            },
            tv == match tail {
                Some(t) => Some(t@),
                None => None::<Seq<char>>,
            },
            flags_of(*state) == flags_of(*old(state)),
            frags(*state) == s0 + dated_list_upto(l, ds, qv, tv, k as nat),
        decreases items.len() - k,
    {
        let ghost before = frags(*state);
        let item = &items[k];
        assert(ds[k as int] == dated_view(*item));
        state.push_item(item.q.as_str(), "", " ");
        push_date_range(state, l, item);
        match qual {
            Some((key, prefix)) => match first_qualifier(item, key) {
                Some(x) => {
                    state.push_item(x, prefix, " ");
                },
                None => {},
            },
            None => {},
        }
        let sep = get_sep_after(l, items.len(), k);
        match tail {
            Some(t) => {
                if k + 1 < items.len() {
                    let s = crate::text::concat2(sep, t);
                    state.push_text(s.as_str());
                } else {
                    state.push_text(sep);
                }
            },
            None => {
                state.push_text(sep);
            },
        }
        assert(frags(*state) =~= before + dated_entry_frags(l, ds, k as int, qv, tv));
        k = k + 1;
    }
}

/// The label of the described item in `lang`, its id when it is not
/// loaded.
pub open spec fn main_title_label(q: Seq<char>, loaded: Seq<(Seq<char>, WikiDataItem)>, lang: Seq<char>) -> Seq<char> {
    match find(loaded, q) {
        Some(item) => label_of(item.raw, Some(lang)),
        None => q,
    }
}

/// The label of the described item in `lang`, its id when it is not
/// loaded.
pub fn get_main_title_label(q: &str, wd: &WikiData, lang: &str) -> (r: String)
    ensures
        r@ == main_title_label(q@, wd@, lang@),
{
    match wd.get_entity(q) {
        Some(item) => item.get_label(Some(lang)),
        None => owned(q),
    }
}

/// The title in bold for the output format, followed by a space.
pub open spec fn bold_text(f: Flags, label: Seq<char>) -> Seq<char> {
    if f.newline == "\n"@ {
        label + " "@
    } else if f.newline == "\n\n"@ {
        "'''"@ + label + "''' "@
    } else {
        "<b>"@ + label + "</b> "@
    }
}

/// Append the title in bold for the output format.
pub fn push_bold_title(state: &mut LongDescState, label: &str)
    ensures
        flags_of(*final(state)) == flags_of(*old(state)),
        frags(*final(state)) == frags(*old(state)).push(tx(bold_text(flags_of(*old(state)), label@))),
{
    let bold = if str_eq(state.newline.as_str(), "\n") {
        concat2(label, " ")
    } else if str_eq(state.newline.as_str(), "\n\n") {
        crate::text::concat3("'''", label, "''' ")
    } else {
        crate::text::concat3("<b>", label, "</b> ")
    };
    state.push_text(bold.as_str());
}

/// The label of a country in `lang`, `""` when it is not loaded.
pub open spec fn country_label(loaded: Seq<(Seq<char>, WikiDataItem)>, q: Seq<char>, lang: Seq<char>) -> Seq<char> {
    match find(loaded, q) {
        Some(item) => label_of(item.raw, Some(lang)),
        None => Seq::empty(),
    }
}

/// The label of a country in `lang`, `""` when it is not loaded.
fn get_country_label(wd: &WikiData, q: &str, lang: &str) -> (r: String)
    ensures
        r@ == country_label(wd@, q@, lang@),
{
    match wd.get_entity(q) {
        Some(item) => item.get_label(Some(lang)),
        None => String::new(),
    }
}

/// The fragments of the nationality at `k` of the countries `qs`.
pub open spec fn nationality_entry(
    sd: ShortDescription,
    qs: Seq<Seq<char>>,
    k: int,
    lang: Seq<char>,
    loaded: Seq<(Seq<char>, WikiDataItem)>,
) -> Seq<FragView> {
    let n = nationality_of(sd, country_label(loaded, qs[k], lang), Some(qs[k]), lang, loaded);
    (if k > 0 {
        seq![tx("-"@)]
    } else {
        Seq::empty()
    }) + seq![
        tx(
            if k > 0 {
                to_lower(n)
            } else {
                n
            },
        ),
    ] + (if k + 1 == qs.len() {
        seq![tx(" "@)]
    } else {
        Seq::empty()
    })
}

/// The fragments of the first `k` nationalities.
pub open spec fn nationalities_upto(
    sd: ShortDescription,
    qs: Seq<Seq<char>>,
    lang: Seq<char>,
    loaded: Seq<(Seq<char>, WikiDataItem)>,
    k: nat,
) -> Seq<FragView>
    decreases k,
{
    if k == 0 {
        Seq::empty()
    } else {
        nationalities_upto(sd, qs, lang, loaded, (k - 1) as nat) + nationality_entry(sd, qs, k - 1, lang, loaded)
    }
}

/// The nationalities of the countries `qs`, joined by `-`, all but the
/// first in lower case, then a space.
pub open spec fn nationality_frags(
    sd: ShortDescription,
    qs: Seq<Seq<char>>,
    lang: Seq<char>,
    loaded: Seq<(Seq<char>, WikiDataItem)>,
) -> Seq<FragView> {
    nationalities_upto(sd, qs, lang, loaded, qs.len())
}

/// Append the nationalities of the countries `qs`.
pub fn push_nationalities(state: &mut LongDescState, sd: &ShortDescription, qs: &Vec<String>, wd: &WikiData)
    ensures
        flags_of(*final(state)) == flags_of(*old(state)),
        frags(*final(state)) == frags(*old(state)) + nationality_frags(*sd, views(qs@), old(state).lang@, wd@),
{
    let ghost s0 = frags(*state);
    let ghost lang = state.lang@;
    let mut k: usize = 0;
    assert(s0 + nationalities_upto(*sd, views(qs@), lang, wd@, 0) =~= s0);
    while k < qs.len()
        invariant
            k <= qs@.len(),
            lang == old(state).lang@,
            flags_of(*state) == flags_of(*old(state)),
            frags(*state) == s0 + nationalities_upto(*sd, views(qs@), lang, wd@, k as nat),
        decreases qs.len() - k,
    {
        let ghost before = frags(*state);
        let q = qs[k].as_str();
        assert(views(qs@)[k as int] == q@);
        let label = get_country_label(wd, q, state.lang.as_str());
        let nationality = sd.get_nationality_from_country(label.as_str(), Some(q), state.lang.as_str(), wd);
        if k > 0 {
            state.push_text("-");
            let low = crate::text::lowercase(nationality.as_str());
            state.push_text(low.as_str());
        } else {
            state.push_text(nationality.as_str());
        }
        if k + 1 == qs.len() {
            state.push_text(" ");
        }
        assert(frags(*state) =~= before + nationality_entry(*sd, views(qs@), k as int, lang, wd@));
        k = k + 1;
    }
}

/// The gendered label of an occupation item in `lang` (female or male
/// form), if it is loaded and has one.
pub open spec fn gendered_label(
    loaded: Seq<(Seq<char>, WikiDataItem)>,
    q: Seq<char>,
    lang: Seq<char>,
    female: bool,
) -> Option<Seq<char>> {
    match find(loaded, q) {
        Some(item) => crate::wikidata_item::monolingual(
            crate::wikidata_item::claims_for(
                item.raw,
                if female {
                    "P2521"@
                } else {
                    "P3321"@
                },
            ),
            lang,
        ),
        None => None,
    }
}

/// The fragments of the occupation at `k`: its gendered label as text for
/// a person of known gender when there is one, else the item.
pub open spec fn occupation_entry(
    l: LongLang,
    f: Flags,
    qs: Seq<Seq<char>>,
    k: int,
    loaded: Seq<(Seq<char>, WikiDataItem)>,
) -> Seq<FragView> {
    let sep = sep_after(l, qs.len(), k as nat);
    let g = if f.is_female || f.is_male {
        gendered_label(loaded, qs[k], f.lang, f.is_female)
    } else {
        None
    };
    match g {
        Some(t) => seq![tx(t), tx(sep)],
        None => seq![it(qs[k], Seq::empty(), sep)],
    }
}

/// The fragments of the first `k` occupations.
pub open spec fn occupations_upto(
    l: LongLang,
    f: Flags,
    qs: Seq<Seq<char>>,
    loaded: Seq<(Seq<char>, WikiDataItem)>,
    k: nat,
) -> Seq<FragView>
    decreases k,
{
    if k == 0 {
        Seq::empty()
    } else {
        occupations_upto(l, f, qs, loaded, (k - 1) as nat) + occupation_entry(l, f, qs, k - 1, loaded)
    }
}

/// The occupations, with gendered labels where known.
pub open spec fn occupation_frags(
    l: LongLang,
    f: Flags,
    qs: Seq<Seq<char>>,
    loaded: Seq<(Seq<char>, WikiDataItem)>,
) -> Seq<FragView> {
    occupations_upto(l, f, qs, loaded, qs.len())
}

/// Append the occupations, with gendered labels where known.
pub fn push_gendered_occupations(state: &mut LongDescState, l: LongLang, qs: &Vec<String>, wd: &WikiData)
    ensures
        flags_of(*final(state)) == flags_of(*old(state)),
        frags(*final(state)) == frags(*old(state)) + occupation_frags(l, flags_of(*old(state)), views(qs@), wd@),
{
    let ghost s0 = frags(*state);
    let ghost f = flags_of(*state);
    let mut k: usize = 0;
    proof {
        crate::text::lemma_empty_str();
    }
    assert(s0 + occupations_upto(l, f, views(qs@), wd@, 0) =~= s0);
    while k < qs.len()
        invariant
            k <= qs@.len(),
            ""@ == Seq::<char>::empty(),
            f == flags_of(*old(state)),
            flags_of(*state) == flags_of(*old(state)),
            frags(*state) == s0 + occupations_upto(l, f, views(qs@), wd@, k as nat),
        decreases qs.len() - k,
    {
        let ghost before = frags(*state);
        let q = qs[k].as_str();
        assert(views(qs@)[k as int] == q@);
        let sep = get_sep_after(l, qs.len(), k);
        let gendered = if state.is_female || state.is_male {
            match wd.get_entity(q) {
                Some(item) => item.get_gendered_label(state.lang.as_str(), state.is_female),
                None => None,
            }
        } else {
            None
        };
        match gendered {
            Some(g) => {
                state.push_text(g.as_str());
                state.push_text(sep);
            },
            None => {
                state.push_item(q, "", sep);
            },
        }
        assert(frags(*state) =~= before + occupation_entry(l, f, views(qs@), k as int, wd@));
        k = k + 1;
    }
}

/// The fragments of the parents: `intro`, the father, `and_word` when
/// there are both, the mother; nothing without parents.
pub open spec fn parents_frags(
    intro: Seq<char>,
    and_word: Seq<char>,
    father: Option<Seq<char>>,
    mother: Option<Seq<char>>,
) -> Seq<FragView> {
    if father is None && mother is None {
        Seq::empty()
    } else {
        seq![tx(intro)] + (match father {
            Some(x) => seq![it(x, Seq::empty(), " "@)],
            None => Seq::empty(),
        }) + (if father is Some && mother is Some {
            seq![tx(and_word)]
        } else {
            Seq::empty()
        }) + (match mother {
            Some(x) => seq![it(x, Seq::empty(), " "@)],
            None => Seq::empty(),
        })
    }
}

/// Append the parents of a person.
pub fn push_parents(state: &mut LongDescState, claims: &Json, intro: &str, and_word: &str)
    ensures
        flags_of(*final(state)) == flags_of(*old(state)),
        frags(*final(state)) == frags(*old(state)) + parents_frags(
            intro@,
            and_word@,
            first_item(*claims, "P22"@),
            first_item(*claims, "P25"@),
        ),
{
    let ghost s0 = frags(*state);
    proof {
        crate::text::lemma_empty_str();
    }
    let father = get_first_claim_item(claims, "P22");
    let mother = get_first_claim_item(claims, "P25");
    if father.is_some() || mother.is_some() {
        state.push_text(intro);
        match &father {
            Some(x) => state.push_item(x.as_str(), "", " "),
            None => {},
        }
        if father.is_some() && mother.is_some() {
            state.push_text(and_word);
        }
        match &mother {
            Some(x) => state.push_item(x.as_str(), "", " "),
            None => {},
        }
    }
    assert(frags(*state) =~= s0 + parents_frags(
        intro@,
        and_word@,
        first_item(*claims, "P22"@),
        first_item(*claims, "P25"@),
    ));
}

/// The fragments of the spouse at `k`: the spouse, the wedding date, the
/// end of the marriage after `until`, and the separator.
pub open spec fn spouse_entry(l: LongLang, ds: Seq<DatedView>, k: int, until: Seq<char>, end_flag: bool) -> Seq<FragView> {
    let d = ds[k];
    seq![it(d.q, Seq::empty(), " "@)] + (match d.from {
        Some(x) => seq![tx(rendered_date(l, x, false)), tx(" "@)],
        None => Seq::empty(),
    }) + (match d.to {
        Some(x) => seq![tx(until), tx(rendered_date(l, x, end_flag)), tx(") "@)],
        None => Seq::empty(),
    }) + seq![tx(sep_after(l, ds.len(), k as nat))]
}

/// The fragments of the first `k` spouses.
pub open spec fn spouses_upto(l: LongLang, ds: Seq<DatedView>, until: Seq<char>, end_flag: bool, k: nat) -> Seq<FragView>
    decreases k,
{
    if k == 0 {
        Seq::empty()
    } else {
        spouses_upto(l, ds, until, end_flag, (k - 1) as nat) + spouse_entry(l, ds, k - 1, until, end_flag)
    }
}

/// Append the spouse at `k`.
fn push_spouse_entry(
    state: &mut LongDescState,
    l: LongLang,
    items: &Vec<DatedItem>,
    k: usize,
    until: &str,
    end_flag: bool,
)
    requires
        k < items@.len(),
    ensures
        flags_of(*final(state)) == flags_of(*old(state)),
        frags(*final(state)) == frags(*old(state)) + spouse_entry(l, dated_views(items@), k as int, until@, end_flag),
{
    let ghost before = frags(*state);
    let ghost ds = dated_views(items@);
    proof {
        crate::text::lemma_empty_str();
    }
    let item = &items[k];
    assert(ds[k as int] == dated_view(*item));
    state.push_item(item.q.as_str(), "", " ");
    match &item.date_from {
        Some(from) => {
            let t = render_date(l, from, false);
            state.push_text(t.as_str());
            state.push_text(" ");
        },
        None => {},
    }
    match &item.date_to {
        Some(to) => {
            state.push_text(until);
            let t = render_date(l, to, end_flag);
            state.push_text(t.as_str());
            state.push_text(") ");
        },
        None => {},
    }
    let sep = get_sep_after(l, items.len(), k);
    state.push_text(sep);
    assert(frags(*state) =~= before + spouse_entry(l, ds, k as int, until@, end_flag));
}

/// Append the spouses with their wedding dates and marriage ends.
pub fn push_spouses(state: &mut LongDescState, l: LongLang, items: &Vec<DatedItem>, until: &str, end_flag: bool)
    ensures
        flags_of(*final(state)) == flags_of(*old(state)),
        frags(*final(state)) == frags(*old(state)) + spouses_upto(
            l,
            dated_views(items@),
            until@,
            end_flag,
            items@.len() as nat,
        ),
{
    let ghost ds = dated_views(items@);
    let ghost s0 = frags(*state);
    let mut k: usize = 0;
    proof {
        crate::text::lemma_empty_str();
    }
    assert(s0 + spouses_upto(l, ds, until@, end_flag, 0) =~= s0);
    while k < items.len()
        invariant
            k <= items@.len(),
            ""@ == Seq::<char>::empty(),
            ds == dated_views(items@),
            flags_of(*state) == flags_of(*old(state)),
            frags(*state) == s0 + spouses_upto(l, ds, until@, end_flag, k as nat),
        decreases items.len() - k,
    {
        push_spouse_entry(state, l, items, k, until, end_flag);
        k = k + 1;
    }
}

/// The fragments of a date with a space after it, when there is one.
pub open spec fn date_frags(l: LongLang, d: Option<(Seq<char>, u64)>, flag: bool) -> Seq<FragView> {
    match d {
        Some(x) => seq![tx(rendered_date(l, x, flag)), tx(" "@)],
        None => Seq::empty(),
    }
}

/// Append a date with a space after it, when there is one.
pub fn push_date(state: &mut LongDescState, l: LongLang, d: &Option<WdDate>, flag: bool)
    ensures
        flags_of(*final(state)) == flags_of(*old(state)),
        frags(*final(state)) == frags(*old(state)) + date_frags(l, crate::long_desc::date_view(*d), flag),
{
    let ghost s0 = frags(*state);
    match d {
        Some(x) => {
            let t = render_date(l, x, flag);
            state.push_text(t.as_str());
            state.push_text(" ");
        },
        None => {},
    }
    assert(frags(*state) =~= s0 + date_frags(l, crate::long_desc::date_view(*d), flag));
}

/// An item fragment when there is an item.
pub open spec fn opt_item_frags(q: Option<Seq<char>>, before: Seq<char>, after: Seq<char>) -> Seq<FragView> {
    match q {
        Some(x) => seq![it(x, before, after)],
        None => Seq::empty(),
    }
}

/// Append an item fragment when there is an item.
pub fn push_opt_item(state: &mut LongDescState, q: &Option<String>, before: &str, after: &str)
    ensures
        flags_of(*final(state)) == flags_of(*old(state)),
        frags(*final(state)) == frags(*old(state)) + opt_item_frags(
            match q {
                Some(x) => Some(x@),
                None => None,
            },
            before@,
            after@,
        ),
{
    let ghost s0 = frags(*state);
    match q {
        Some(x) => state.push_item(x.as_str(), before, after),
        None => {},
    }
    assert(frags(*state) =~= s0 + opt_item_frags(
        match q {
            Some(x) => Some(x@),
            None => None,
        },
        before@,
        after@,
    ));
}

/// A sentence of items: `intro`, the items with their separators, `end`;
/// nothing for no items.
pub open spec fn sentence_frags(l: LongLang, intro: Seq<char>, qs: Seq<Seq<char>>, end: Seq<char>) -> Seq<FragView> {
    if qs.len() > 0 {
        seq![tx(intro)] + item_list_frags(l, qs) + seq![tx(end)]
    } else {
        Seq::empty()
    }
}

/// Append a sentence of items.
pub fn push_sentence(state: &mut LongDescState, l: LongLang, intro: &str, qs: &Vec<String>, end: &str)
    ensures
        flags_of(*final(state)) == flags_of(*old(state)),
        frags(*final(state)) == frags(*old(state)) + sentence_frags(l, intro@, views(qs@), end@),
{
    let ghost s0 = frags(*state);
    if qs.len() > 0 {
        state.push_text(intro);
        push_item_list(state, l, qs);
        state.push_text(end);
    }
    assert(frags(*state) =~= s0 + sentence_frags(l, intro@, views(qs@), end@));
}

/// A sentence of dated items: `intro`, the dated list, `. `; nothing for
/// no items.
pub open spec fn dated_sentence_frags(
    l: LongLang,
    intro: Seq<char>,
    ds: Seq<DatedView>,
    qual: Option<(Seq<char>, Seq<char>)>,
    tail: Option<Seq<char>>,
) -> Seq<FragView> {
    if ds.len() > 0 {
        seq![tx(intro)] + dated_list_frags(l, ds, qual, tail) + seq![tx(". "@)]
    } else {
        Seq::empty()
    }
}

/// Append a sentence of dated items.
pub fn push_dated_sentence(
    state: &mut LongDescState,
    l: LongLang,
    intro: &str,
    items: &Vec<DatedItem>,
    qual: Option<(&str, &str)>,
    tail: Option<&str>,
)
    ensures
        flags_of(*final(state)) == flags_of(*old(state)),
        frags(*final(state)) == frags(*old(state)) + dated_sentence_frags(
            l,
            intro@,
            dated_views(items@),
            match qual {
                Some((a, b)) => Some((a@, b@)),
                None => None,
            },
            match tail {
                Some(t) => Some(t@),
                None => None,
            },
        ),
{
    let ghost s0 = frags(*state);
    if items.len() > 0 {
        state.push_text(intro);
        push_dated_list(state, l, items, qual, tail);
        state.push_text(". ");
    }
    assert(frags(*state) =~= s0 + dated_sentence_frags(
        l,
        intro@,
        dated_views(items@),
        match qual {
            Some((a, b)) => Some((a@, b@)),
            None => None,
        },
        match tail {
            Some(t) => Some(t@),
            None => None,
        },
    ));
}

/// A sentence of spouses: `intro`, the spouses, `. `; nothing for no
/// spouses.
pub open spec fn spouse_sentence_frags(
    l: LongLang,
    intro: Seq<char>,
    ds: Seq<DatedView>,
    until: Seq<char>,
    end_flag: bool,
) -> Seq<FragView> {
    if ds.len() > 0 {
        seq![tx(intro)] + spouses_upto(l, ds, until, end_flag, ds.len()) + seq![tx(". "@)]
    } else {
        Seq::empty()
    }
}

/// Append a sentence of spouses.
pub fn push_spouse_sentence(
    state: &mut LongDescState,
    l: LongLang,
    intro: &str,
    items: &Vec<DatedItem>,
    until: &str,
    end_flag: bool,
)
    ensures
        flags_of(*final(state)) == flags_of(*old(state)),
        frags(*final(state)) == frags(*old(state)) + spouse_sentence_frags(
            l,
            intro@,
            dated_views(items@),
            until@,
            end_flag,
        ),
{
    let ghost s0 = frags(*state);
    if items.len() > 0 {
        state.push_text(intro);
        push_spouses(state, l, items, until, end_flag);
        state.push_text(". ");
    }
    assert(frags(*state) =~= s0 + spouse_sentence_frags(l, intro@, dated_views(items@), until@, end_flag));
}

/// The fields of work: genres, then fields.
pub open spec fn work_fields(claims: Json) -> Seq<Seq<char>> {
    crate::wikidata_item::item_ids(crate::long_desc::claims_of(claims, "P136"@)) + crate::wikidata_item::item_ids(
        crate::long_desc::claims_of(claims, "P101"@),
    )
}

/// The fields of work: genres, then fields.
pub fn get_work_fields(claims: &Json) -> (r: Vec<String>)
    ensures
        views(r@) == work_fields(*claims),
{
    let mut fields = crate::long_desc::get_claim_item_ids(claims, "P136");
    let mut more = crate::long_desc::get_claim_item_ids(claims, "P101");
    let ghost fv = views(fields@);
    let ghost mv = views(more@);
    fields.append(&mut more);
    assert(views(fields@) =~= fv + mv);
    fields
}

/// The dated items of a property, with the qualifier items of kind `key`
/// when one is given.
pub fn dated_items_with(claims: &Json, prop: &str, key: Option<&str>) -> (r: Vec<DatedItem>)
    ensures
        dated_views(r@) == crate::long_desc::dated_items(
            *claims,
            prop@,
            match key {
                Some(k) => seq![k@],
                None => Seq::empty(),
            },
        ),
{
    match key {
        Some(k) => {
            let keys: Vec<&str> = vec![k];
            assert(keys@.map_values(|x: &str| x@) =~= seq![k@]);
            crate::long_desc::get_dated_items(claims, prop, keys.as_slice())
        },
        None => {
            let keys: Vec<&str> = Vec::new();
            assert(keys@.map_values(|x: &str| x@) =~= Seq::<Seq<char>>::empty());
            crate::long_desc::get_dated_items(claims, prop, keys.as_slice())
        },
    }
}

} // verus!