//! Word helpers of the short descriptions: links split into their parts,
//! gendered words, lists joined in each language, spacing and URL titles.

use vstd::prelude::*;
use vstd::utf8::encode_utf8;
use crate::short_desc::ShortDescription;
use crate::text::{
    concat2, is_white_space, lowercase, owned, push_char, replace_char, replace_chars, seq_join, str_eq,
    to_lower, to_upper, trim, trim_end, trim_start, trim_str, uppercase, views,
};

verus! {

/// Gender and context hints used by word modification and list joining.
#[derive(Debug, Clone, Copy)]
pub struct WordHints {
    pub is_female: bool,
    pub is_male: bool,
    pub occupation: bool,
}

impl Default for WordHints {
    fn default() -> (r: WordHints)
        ensures
            !r.is_female && !r.is_male && !r.occupation,
    {
        WordHints { is_female: false, is_male: false, occupation: false }
    }
}

/// No character of `s` is a line feed (what the regex `.` refuses).
pub open spec fn no_newline(s: Seq<char>) -> bool {
    forall|i: int| 0 <= i < s.len() ==> s[i] != '\n'
}

/// `s` is `<a…>text</a>` with its opening tag closed at `j`.
pub open spec fn html_split_at(s: Seq<char>, j: int) -> bool {
    &&& s.len() >= 4
    &&& s[0] == '<' && s[1] == 'a'
    &&& s[s.len() - 4] == '<' && s[s.len() - 3] == '/' && s[s.len() - 2] == 'a' && s[s.len() - 1] == '>'
    &&& 3 <= j && j + 1 < s.len() - 4
    &&& s[j] == '>'
    &&& no_newline(s.subrange(2, j))
    &&& no_newline(s.subrange(j + 1, s.len() - 4))
}

/// The first place from `j` on that closes the opening tag of a link.
pub open spec fn first_html_split(s: Seq<char>, j: int) -> Option<int>
    decreases s.len() - j,
{
    if j < 0 || j >= s.len() {
        None
    } else if html_split_at(s, j) {
        Some(j)
    } else {
        first_html_split(s, j + 1)
    }
}

/// The opening tag, the text and the closing tag of an HTML link
/// (`^(<a.+?>)(.+)(</a>)$`: the opening tag is closed at the first `>` that
/// leaves a text).
pub open spec fn html_link_parts(s: Seq<char>) -> Option<(Seq<char>, Seq<char>, Seq<char>)> {
    match first_html_split(s, 3) {
        Some(j) => Some((s.subrange(0, j + 1), s.subrange(j + 1, s.len() - 4), s.subrange(s.len() - 4, s.len() as int))),
        None => None,
    }
}

/// `s` is `[[page|text]]` with the pipe at `k`.
pub open spec fn wiki_pipe_at(s: Seq<char>, k: int) -> bool {
    &&& s.len() >= 4
    &&& s[0] == '[' && s[1] == '['
    &&& s[s.len() - 2] == ']' && s[s.len() - 1] == ']'
    &&& 3 <= k && k + 1 < s.len() - 2
    &&& s[k] == '|'
    &&& no_newline(s.subrange(2, k))
    &&& no_newline(s.subrange(k + 1, s.len() - 2))
}

/// The last place at or before `k` that splits a piped wiki link.
pub open spec fn last_wiki_pipe(s: Seq<char>, k: int) -> Option<int>
    decreases k,
{
    if k < 3 {
        None
    } else if wiki_pipe_at(s, k) {
        Some(k)
    } else {
        last_wiki_pipe(s, k - 1)
    }
}

/// `s` is a plain wiki link `[[text]]`.
pub open spec fn wiki_plain(s: Seq<char>) -> bool {
    &&& s.len() >= 5
    &&& s[0] == '[' && s[1] == '['
    &&& s[s.len() - 2] == ']' && s[s.len() - 1] == ']'
    &&& no_newline(s.subrange(2, s.len() - 2))
}

/// What `split_link` returns: the whole link, the part before its text, the
/// text and the part after it; for `[[text]]` the part before is
/// `[[text|`. Nothing for a text that is no link.
pub open spec fn link_parts(s: Seq<char>) -> Option<(Seq<char>, Seq<char>, Seq<char>, Seq<char>)> {
    match last_wiki_pipe(s, s.len() - 4) {
        Some(k) => Some((s, s.subrange(0, k + 1), s.subrange(k + 1, s.len() - 2), s.subrange(s.len() - 2, s.len() as int))),
        None => if wiki_plain(s) {
            let inner = s.subrange(2, s.len() - 2);
            Some((s, seq!['[', '['] + inner + seq!['|'], inner, s.subrange(s.len() - 2, s.len() as int)))
        } else {
            match html_link_parts(s) {
                Some((a, b, c)) => Some((s, a, b, c)),
                None => None,
            }
        },
    }
}

/// `s` with each run of spaces made one space.
pub open spec fn collapse_spaces(s: Seq<char>) -> Seq<char>
    decreases s.len(),
{
    if s.len() == 0 {
        s
    } else if s.last() == ' ' && s.len() >= 2 && s[s.len() - 2] == ' ' {
        collapse_spaces(s.drop_last())
    } else {
        collapse_spaces(s.drop_last()).push(s.last())
    }
}

/// `s` with every ` ,` made `,`.
pub open spec fn drop_space_before_comma(s: Seq<char>) -> Seq<char>
    decreases s.len(),
{
    if s.len() == 0 {
        s
    } else if s.len() >= 2 && s[0] == ' ' && s[1] == ',' {
        seq![','] + drop_space_before_comma(s.skip(2))
    } else {
        seq![s[0]] + drop_space_before_comma(s.drop_first())
    }
}

/// What `clean_spaces` returns.
pub open spec fn cleaned(s: Seq<char>) -> Seq<char> {
    trim(drop_space_before_comma(collapse_spaces(s)))
}

proof fn lemma_collapse_concat(s: Seq<char>, t: Seq<char>)
    requires
        s.len() == 0 || t.len() == 0 || s.last() != ' ' || t[0] != ' ',
    ensures
        collapse_spaces(s + t) == collapse_spaces(s) + collapse_spaces(t),
    decreases t.len(),
{
    if t.len() == 0 {
        assert(s + t =~= s);
        assert(collapse_spaces(s) + collapse_spaces(t) =~= collapse_spaces(s));
    } else {
        let t0 = t.drop_last();
        let c = t.last();
        assert((s + t).drop_last() =~= s + t0);
        assert((s + t).last() == c);
        if t0.len() > 0 {
            assert(t0[0] == t[0]);
            lemma_collapse_concat(s, t0);
            assert((s + t)[(s + t).len() - 2] == t[t.len() - 2]);
        } else {
            assert(s + t0 =~= s);
            assert(collapse_spaces(t0) =~= Seq::<char>::empty());
            if s.len() > 0 {
                assert((s + t)[(s + t).len() - 2] == s.last());
            }
        }
        assert(collapse_spaces(t).len() >= 0);
        if !(c == ' ' && (s + t).len() >= 2 && (s + t)[(s + t).len() - 2] == ' ') {
            assert((collapse_spaces(s) + collapse_spaces(t0)).push(c) =~= collapse_spaces(s) + collapse_spaces(
                t0,
            ).push(c));
        }
    }
}

proof fn lemma_comma_concat(s: Seq<char>, t: Seq<char>)
    requires
        s.len() == 0 || t.len() == 0 || s.last() != ' ' || t[0] != ',',
    ensures
        drop_space_before_comma(s + t) == drop_space_before_comma(s) + drop_space_before_comma(t),
    decreases s.len(),
{
    if s.len() == 0 {
        assert(s + t =~= t);
        assert(drop_space_before_comma(s) + drop_space_before_comma(t) =~= drop_space_before_comma(t));
    } else if s.len() >= 2 && s[0] == ' ' && s[1] == ',' {
        let s2 = s.skip(2);
        assert((s + t).skip(2) =~= s2 + t);
        if s2.len() > 0 {
            assert(s2.last() == s.last());
        }
        lemma_comma_concat(s2, t);
        assert((s + t)[0] == ' ' && (s + t)[1] == ',');
        assert(seq![','] + (drop_space_before_comma(s2) + drop_space_before_comma(t)) =~= (seq![',']
            + drop_space_before_comma(s2)) + drop_space_before_comma(t));
    } else {
        let s1 = s.drop_first();
        assert((s + t).drop_first() =~= s1 + t);
        if s1.len() > 0 {
            assert(s1.last() == s.last());
            assert((s + t)[1] == s[1]);
        } else if t.len() > 0 {
            assert((s + t)[1] == t[0]);
        }
        assert((s + t)[0] == s[0]);
        lemma_comma_concat(s1, t);
        assert(seq![s[0]] + (drop_space_before_comma(s1) + drop_space_before_comma(t)) =~= (seq![s[0]]
            + drop_space_before_comma(s1)) + drop_space_before_comma(t));
    }
}

proof fn lemma_trim_start_before(u: Seq<char>, w: Seq<char>) -> (k: int)
    requires
        w.len() > 0,
        !is_white_space(w[0]),
    ensures
        0 <= k <= u.len(),
        trim_start(u + w) == u.skip(k) + w,
    decreases u.len(),
{
    if u.len() == 0 {
        assert(u + w =~= w);
        assert(u.skip(0) + w =~= w);
        0
    } else if is_white_space(u[0]) {
        assert((u + w).drop_first() =~= u.drop_first() + w);
        let k1 = lemma_trim_start_before(u.drop_first(), w);
        assert(u.drop_first().skip(k1) =~= u.skip(k1 + 1));
        k1 + 1
    } else {
        assert(u.skip(0) =~= u);
        0
    }
}

proof fn lemma_trim_end_after(w: Seq<char>, v: Seq<char>) -> (k: int)
    requires
        w.len() > 0,
        !is_white_space(w.last()),
    ensures
        0 <= k <= v.len(),
        trim_end(w + v) == w + v.take(k),
    decreases v.len(),
{
    if v.len() == 0 {
        assert(w + v =~= w);
        assert(w + v.take(0) =~= w);
        0
    } else if is_white_space(v.last()) {
        assert((w + v).drop_last() =~= w + v.drop_last());
        let k1 = lemma_trim_end_after(w, v.drop_last());
        assert(v.drop_last().take(k1) =~= v.take(k1));
        k1
    } else {
        assert(v.take(v.len() as int) =~= v);
        v.len() as int
    }
}

/// A piece of text that neither begins nor ends with white space, holds no
/// two spaces in a row and no space before a comma, and does not begin with
/// a comma, comes through the cleaning of spaces whole.
pub proof fn lemma_cleaned_keeps(x: Seq<char>, d: Seq<char>, y: Seq<char>) -> (pq: (Seq<char>, Seq<char>))
    requires
        d.len() > 0,
        !is_white_space(d[0]),
        !is_white_space(d.last()),
        d[0] != ',',
        no_double_space(d),
        no_space_before_comma(d),
    ensures
        cleaned(x + d + y) == pq.0 + d + pq.1,
{
    assert(d[0] != ' ' && d.last() != ' ');
    lemma_collapse_concat(x, d);
    lemma_collapse_concat(x + d, y);
    lemma_collapse_keeps(d);
    let cx = collapse_spaces(x);
    let cy = collapse_spaces(y);
    assert(collapse_spaces(x + d + y) == cx + d + cy);
    assert((cx + d).last() == d.last());
    lemma_comma_concat(cx + d, cy);
    lemma_comma_concat(cx, d);
    lemma_drop_keeps(d);
    let dx = drop_space_before_comma(cx);
    let dy = drop_space_before_comma(cy);
    assert(drop_space_before_comma(cx + d + cy) == dx + d + dy);
    assert(dx + d + dy =~= dx + (d + dy));
    assert((d + dy)[0] == d[0]);
    let k = lemma_trim_start_before(dx, d + dy);
    let p = dx.skip(k);
    assert(p + (d + dy) =~= (p + d) + dy);
    assert((p + d).last() == d.last());
    let k2 = lemma_trim_end_after(p + d, dy);
    (p, dy.take(k2))
}

/// The first character made upper case leaves the rest of the text as it
/// is.
pub proof fn lemma_uc_first_keeps_rest(x: Seq<char>, d: Seq<char>, y: Seq<char>)
    requires
        x.len() > 0,
    ensures
        uc_first_text(x + d + y) == to_upper(seq![x[0]]) + x.drop_first() + d + y,
{
    assert((x + d + y)[0] == x[0]);
    assert((x + d + y).drop_first() =~= x.drop_first() + d + y);
    assert(to_upper(seq![x[0]]) + (x.drop_first() + d + y) =~= to_upper(seq![x[0]]) + x.drop_first() + d + y);
}

/// No two spaces stand next to each other.
pub open spec fn no_double_space(s: Seq<char>) -> bool {
    forall|i: int| 0 <= i < s.len() - 1 ==> !(#[trigger] s[i] == ' ' && s[i + 1] == ' ')
}

/// No space stands right before a comma.
pub open spec fn no_space_before_comma(s: Seq<char>) -> bool {
    forall|i: int| 0 <= i < s.len() - 1 ==> !(#[trigger] s[i] == ' ' && s[i + 1] == ',')
}

/// `s` neither starts nor ends with white space.
pub open spec fn is_trimmed(s: Seq<char>) -> bool {
    s.len() > 0 ==> !is_white_space(s[0]) && !is_white_space(s.last())
}

proof fn lemma_collapse_last(s: Seq<char>)
    requires
        s.len() > 0,
    ensures
        collapse_spaces(s).len() > 0,
        collapse_spaces(s).last() == s.last(),
    decreases s.len(),
{
    if s.last() == ' ' && s.len() >= 2 && s[s.len() - 2] == ' ' {
        lemma_collapse_last(s.drop_last());
    }
}

proof fn lemma_collapse_no_double(s: Seq<char>)
    ensures
        no_double_space(collapse_spaces(s)),
    decreases s.len(),
{
    if s.len() > 0 {
        let t = s.drop_last();
        lemma_collapse_no_double(t);
        if !(s.last() == ' ' && s.len() >= 2 && s[s.len() - 2] == ' ') {
            let c = collapse_spaces(t);
            let r = c.push(s.last());
            if t.len() > 0 {
                lemma_collapse_last(t);
                assert(t.last() == s[s.len() - 2]);
            }
            assert forall|i: int| 0 <= i < r.len() - 1 implies !(#[trigger] r[i] == ' ' && r[i + 1] == ' ') by {
                if i < c.len() - 1 {
                    assert(r[i] == c[i] && r[i + 1] == c[i + 1]);
                }
            }
        }
    }
}

proof fn lemma_collapse_keeps(s: Seq<char>)
    requires
        no_double_space(s),
    ensures
        collapse_spaces(s) == s,
    decreases s.len(),
{
    if s.len() > 0 {
        let t = s.drop_last();
        assert forall|i: int| 0 <= i < t.len() - 1 implies !(#[trigger] t[i] == ' ' && t[i + 1] == ' ') by {
            assert(t[i] == s[i] && t[i + 1] == s[i + 1]);
        }
        lemma_collapse_keeps(t);
        if s.len() >= 2 {
            assert(!(s[s.len() - 2] == ' ' && s[s.len() - 1] == ' '));
        }
        assert(t.push(s.last()) =~= s);
    }
}

proof fn lemma_drop_first_char(s: Seq<char>)
    requires
        s.len() > 0,
    ensures
        drop_space_before_comma(s).len() > 0,
        drop_space_before_comma(s)[0] == if s.len() >= 2 && s[0] == ' ' && s[1] == ',' {
            ','
        } else {
            s[0]
        },
{
}

proof fn lemma_drop_tidy(s: Seq<char>)
    requires
        no_double_space(s),
    ensures
        no_double_space(drop_space_before_comma(s)),
        no_space_before_comma(drop_space_before_comma(s)),
    decreases s.len(),
{
    if s.len() > 0 {
        let pair = s.len() >= 2 && s[0] == ' ' && s[1] == ',';
        let rest = if pair {
            s.skip(2)
        } else {
            s.drop_first()
        };
        assert forall|i: int| 0 <= i < rest.len() - 1 implies !(#[trigger] rest[i] == ' ' && rest[i + 1] == ' ') by {
            if pair {
                assert(rest[i] == s[i + 2] && rest[i + 1] == s[i + 3]);
            } else {
                assert(rest[i] == s[i + 1] && rest[i + 1] == s[i + 2]);
            }
        }
        lemma_drop_tidy(rest);
        let d = drop_space_before_comma(rest);
        let head = if pair {
            ','
        } else {
            s[0]
        };
        let r = seq![head] + d;
        assert(drop_space_before_comma(s) == r);
        if d.len() > 0 && head == ' ' {
            lemma_drop_first_char(rest);
            assert(rest[0] == s[1]);
            assert(!(s[0] == ' ' && s[1] == ' '));
        }
        assert forall|i: int| 0 <= i < r.len() - 1 implies !(#[trigger] r[i] == ' ' && r[i + 1] == ' ') && !(r[i]
            == ' ' && r[i + 1] == ',') by {
            if i > 0 {
                assert(r[i] == d[i - 1] && r[i + 1] == d[i]);
            } else {
                assert(r[1] == d[0]);
            }
        }
    }
}

proof fn lemma_drop_keeps(s: Seq<char>)
    requires
        no_space_before_comma(s),
    ensures
        drop_space_before_comma(s) == s,
    decreases s.len(),
{
    if s.len() > 0 {
        let t = s.drop_first();
        assert forall|i: int| 0 <= i < t.len() - 1 implies !(#[trigger] t[i] == ' ' && t[i + 1] == ',') by {
            assert(t[i] == s[i + 1] && t[i + 1] == s[i + 2]);
        }
        lemma_drop_keeps(t);
        if s.len() >= 2 {
            assert(!(s[0] == ' ' && s[1] == ','));
        }
        assert(seq![s[0]] + t =~= s);
    }
}

proof fn lemma_tidy_drop_first(s: Seq<char>)
    requires
        s.len() > 0,
        no_double_space(s),
        no_space_before_comma(s),
    ensures
        no_double_space(s.drop_first()),
        no_space_before_comma(s.drop_first()),
{
    let t = s.drop_first();
    assert forall|i: int| 0 <= i < t.len() - 1 implies !(#[trigger] t[i] == ' ' && t[i + 1] == ' ') && !(t[i]
        == ' ' && t[i + 1] == ',') by {
        assert(t[i] == s[i + 1] && t[i + 1] == s[i + 2]);
    }
}

proof fn lemma_tidy_drop_last(s: Seq<char>)
    requires
        s.len() > 0,
        no_double_space(s),
        no_space_before_comma(s),
    ensures
        no_double_space(s.drop_last()),
        no_space_before_comma(s.drop_last()),
{
    let t = s.drop_last();
    assert forall|i: int| 0 <= i < t.len() - 1 implies !(#[trigger] t[i] == ' ' && t[i + 1] == ' ') && !(t[i]
        == ' ' && t[i + 1] == ',') by {
        assert(t[i] == s[i] && t[i + 1] == s[i + 1]);
    }
}

proof fn lemma_trim_start_tidy(s: Seq<char>)
    requires
        no_double_space(s),
        no_space_before_comma(s),
    ensures
        no_double_space(trim_start(s)),
        no_space_before_comma(trim_start(s)),
        trim_start(s).len() > 0 ==> !is_white_space(trim_start(s)[0]),
    decreases s.len(),
{
    if s.len() > 0 && is_white_space(s[0]) {
        lemma_tidy_drop_first(s);
        lemma_trim_start_tidy(s.drop_first());
    }
}

proof fn lemma_trim_end_tidy(s: Seq<char>)
    requires
        no_double_space(s),
        no_space_before_comma(s),
    ensures
        no_double_space(trim_end(s)),
        no_space_before_comma(trim_end(s)),
        trim_end(s).len() > 0 ==> !is_white_space(trim_end(s).last()) && trim_end(s)[0] == s[0],
    decreases s.len(),
{
    if s.len() > 0 && is_white_space(s.last()) {
        lemma_tidy_drop_last(s);
        lemma_trim_end_tidy(s.drop_last());
    }
}

/// A cleaned text has no double space and no space before a comma, starts
/// and ends with no white space, and cleaning it again changes nothing.
pub proof fn lemma_cleaned_is_clean(s: Seq<char>)
    ensures
        no_double_space(cleaned(s)),
        no_space_before_comma(cleaned(s)),
        is_trimmed(cleaned(s)),
        cleaned(cleaned(s)) == cleaned(s),
{
    let c = collapse_spaces(s);
    lemma_collapse_no_double(s);
    lemma_drop_tidy(c);
    let d = drop_space_before_comma(c);
    lemma_trim_start_tidy(d);
    let u = trim_start(d);
    lemma_trim_end_tidy(u);
    let t = trim_end(u);
    assert(t == cleaned(s));
    lemma_collapse_keeps(t);
    lemma_drop_keeps(t);
    if t.len() > 0 {
        assert(trim_start(t) == t);
        assert(trim_end(t) == t);
    }
}

/// `s` with its first character in upper case.
pub open spec fn uc_first_text(s: Seq<char>) -> Seq<char> {
    if s.len() == 0 {
        s
    } else {
        to_upper(seq![s[0]]) + s.drop_first()
    }
}

/// A byte that URL encoding keeps: ASCII letters and digits, `-`, `.`,
/// `_` and `~`.
pub open spec fn is_unreserved(b: u8) -> bool {
    (48 <= b && b <= 57) || (65 <= b && b <= 90) || (97 <= b && b <= 122) || b == 45 || b == 46 || b == 95
        || b == 126
}

/// The upper-case hexadecimal digit of `d < 16`.
pub open spec fn hex_digit(d: nat) -> char {
    if d < 10 {
        ((48 + d) as u32) as char
    } else {
        ((55 + d) as u32) as char
    }
}

/// Percent-encoding of bytes: unreserved bytes stay, each other byte
/// becomes `%` and two upper-case hexadecimal digits.
pub open spec fn percent_encoded(bytes: Seq<u8>) -> Seq<char>
    decreases bytes.len(),
{
    if bytes.len() == 0 {
        Seq::empty()
    } else {
        let b = bytes[0];
        (if is_unreserved(b) {
            seq![(b as u32) as char]
        } else {
            seq!['%', hex_digit((b / 16) as nat), hex_digit((b % 16) as nat)]
        }) + percent_encoded(bytes.drop_first())
    }
}

/// What `wiki_urlencode` returns: the title with `_` for spaces, its UTF-8
/// bytes percent-encoded.
pub open spec fn wiki_encoded(s: Seq<char>) -> Seq<char> {
    percent_encoded(encode_utf8(replace_char(s, ' ', '_')))
}

/// `urlencoding::encode`, which percent-encodes every byte of the UTF-8
/// encoding except ASCII letters, digits, `-`, `.`, `_` and `~`, with
/// upper-case hexadecimal digits.
#[verifier::external_body]
pub(crate) fn url_encode(s: &str) -> (r: String)
    ensures
        r@ == percent_encoded(encode_utf8(s@)),
{
    urlencoding::encode(s).into_owned()
}

/// URL-encode a wiki page title.
pub fn wiki_urlencode(s: &str) -> (r: String)
    ensures
        r@ == wiki_encoded(s@),
{
    let t = replace_chars(s, ' ', '_');
    url_encode(t.as_str())
}

/// Whether `s[from..to]` holds no line feed.
fn no_newline_in(s: &str, from: usize, to: usize) -> (r: bool)
    requires
        from <= to <= s@.len(),
    ensures
        r == no_newline(s@.subrange(from as int, to as int)),
{
    let mut i = from;
    while i < to
        invariant
            from <= i <= to <= s@.len(),
            forall|k: int| from <= k < i ==> s@[k] != '\n',
        decreases to - i,
    {
        if s.get_char(i) == '\n' {
            assert(s@.subrange(from as int, to as int)[i - from] == '\n');
            return false;
        }
        i = i + 1;
    }
    assert forall|k: int| 0 <= k < s@.subrange(from as int, to as int).len() implies s@.subrange(
        from as int,
        to as int,
    )[k] != '\n' by {
        assert(s@.subrange(from as int, to as int)[k] == s@[from + k]);
    }
    true
}

/// Split an HTML link into its opening tag, its text and its closing tag.
pub fn html_link_split(s: &str) -> (r: Option<(String, String, String)>)
    ensures
        match r {
            Some((a, b, c)) => html_link_parts(s@) == Some((a@, b@, c@)),
            None => html_link_parts(s@) is None,
        },
{
    let n = s.unicode_len();
    if n < 4 {
        proof {
            lemma_no_html_split_from(s@, 3);
        }
        return None;
    }
    let shape = s.get_char(0) == '<' && s.get_char(1) == 'a' && s.get_char(n - 4) == '<' && s.get_char(n - 3)
        == '/' && s.get_char(n - 2) == 'a' && s.get_char(n - 1) == '>';
    if !shape {
        proof {
            lemma_no_html_split_from(s@, 3);
        }
        return None;
    }
    let mut j: usize = 3;
    while j < n
        invariant
            n == s@.len(),
            n >= 4,
            s@[0] == '<' && s@[1] == 'a' && s@[n - 4] == '<' && s@[n - 3] == '/' && s@[n - 2] == 'a' && s@[n
                - 1] == '>',
            3 <= j <= n,
            first_html_split(s@, 3) == first_html_split(s@, j as int),
        decreases n - j,
    {
        if s.get_char(j) == '>' && j + 1 < n - 4 && no_newline_in(s, 2, j) && no_newline_in(s, j + 1, n - 4) {
            assert(html_split_at(s@, j as int));
            let a = owned(s.substring_char(0, j + 1));
            let b = owned(s.substring_char(j + 1, n - 4));
            let c = owned(s.substring_char(n - 4, n));
            return Some((a, b, c));
        }
        assert(!html_split_at(s@, j as int));
        j = j + 1;
    }
    None
}

proof fn lemma_no_html_split_from(s: Seq<char>, j: int)
    requires
        s.len() < 4 || !(s[0] == '<' && s[1] == 'a' && s[s.len() - 4] == '<' && s[s.len() - 3] == '/'
            && s[s.len() - 2] == 'a' && s[s.len() - 1] == '>'),
    ensures
        first_html_split(s, j) is None,
    decreases s.len() - j,
{
    if j >= 0 && j < s.len() {
        lemma_no_html_split_from(s, j + 1);
    }
}

proof fn lemma_no_wiki_pipe_down(s: Seq<char>, k: int)
    requires
        s.len() < 4 || !(s[0] == '[' && s[1] == '[' && s[s.len() - 2] == ']' && s[s.len() - 1] == ']'),
    ensures
        last_wiki_pipe(s, k) is None,
    decreases k,
{
    if k >= 3 {
        lemma_no_wiki_pipe_down(s, k - 1);
    }
}

/// The place of the last pipe that splits a piped wiki link.
fn find_wiki_pipe(s: &str) -> (r: Option<usize>)
    ensures
        match r {
            Some(k) => last_wiki_pipe(s@, s@.len() - 4) == Some(k as int),
            None => last_wiki_pipe(s@, s@.len() - 4) is None,
        },
{
    let n = s.unicode_len();
    if n < 7 {
        proof {
            lemma_pipe_none_below(s@, s@.len() - 4);
        }
        return None;
    }
    if !(s.get_char(0) == '[' && s.get_char(1) == '[' && s.get_char(n - 2) == ']' && s.get_char(n - 1) == ']') {
        proof {
            lemma_no_wiki_pipe_down(s@, s@.len() - 4);
        }
        return None;
    }
    let mut k: usize = n - 4;
    while k >= 3
        invariant
            n == s@.len(),
            n >= 7,
            s@[0] == '[' && s@[1] == '[' && s@[n - 2] == ']' && s@[n - 1] == ']',
            2 <= k <= n - 4,
            last_wiki_pipe(s@, s@.len() - 4) == last_wiki_pipe(s@, k as int),
        decreases k,
    {
        if s.get_char(k) == '|' && no_newline_in(s, 2, k) && no_newline_in(s, k + 1, n - 2) {
            assert(wiki_pipe_at(s@, k as int));
            return Some(k);
        }
        assert(!wiki_pipe_at(s@, k as int));
        k = k - 1;
    }
    None
}

proof fn lemma_pipe_none_below(s: Seq<char>, k: int)
    requires
        forall|k2: int| k2 <= k ==> !wiki_pipe_at(s, k2),
    ensures
        last_wiki_pipe(s, k) is None,
    decreases k,
{
    if k >= 3 {
        lemma_pipe_none_below(s, k - 1);
    }
}

proof fn lemma_last_wiki_pipe(s: Seq<char>, k: int)
    ensures
        last_wiki_pipe(s, k) matches Some(j) ==> wiki_pipe_at(s, j),
    decreases k,
{
    if k >= 3 && !wiki_pipe_at(s, k) {
        lemma_last_wiki_pipe(s, k - 1);
    }
}

proof fn lemma_first_html_split(s: Seq<char>, j: int)
    ensures
        first_html_split(s, j) matches Some(k) ==> html_split_at(s, k),
    decreases s.len() - j,
{
    if j >= 0 && j < s.len() && !html_split_at(s, j) {
        lemma_first_html_split(s, j + 1);
    }
}

/// Split a link (`[[page|text]]`, `[[text]]` or `<a …>text</a>`) into the
/// whole link, the part before its text, the text and the part after it.
/// Nothing for a text that is no link.
pub fn split_link(v: &str) -> (r: Option<(String, String, String, String)>)
    ensures
        match r {
            Some((f, a, b, c)) => link_parts(v@) == Some((f@, a@, b@, c@)),
            None => link_parts(v@) is None,
        },
{
    let n = v.unicode_len();
    proof {
        lemma_last_wiki_pipe(v@, v@.len() - 4);
    }
    match find_wiki_pipe(v) {
        Some(k) => {
            return Some(
                (
                    owned(v),
                    owned(v.substring_char(0, k + 1)),
                    owned(v.substring_char(k + 1, n - 2)),
                    owned(v.substring_char(n - 2, n)),
                ),
            );
        },
        None => {},
    }
    if n >= 5 && v.get_char(0) == '[' && v.get_char(1) == '[' && v.get_char(n - 2) == ']' && v.get_char(n - 1)
        == ']' && no_newline_in(v, 2, n - 2) {
        let inner = owned(v.substring_char(2, n - 2));
        let mut before = String::new();
        push_char(&mut before, '[');
        push_char(&mut before, '[');
        before.append(inner.as_str());
        push_char(&mut before, '|');
        assert(before@ =~= seq!['[', '['] + inner@ + seq!['|']);
        return Some((owned(v), before, inner, owned(v.substring_char(n - 2, n))));
    }
    assert(!wiki_plain(v@));
    match html_link_split(v) {
        Some((a, b, c)) => Some((owned(v), a, b, c)),
        None => None,
    }
}

/// `s` with each run of spaces made one space.
pub fn collapse_space_runs(s: &str) -> (r: String)
    ensures
        r@ == collapse_spaces(s@),
{
    let n = s.unicode_len();
    let mut out = String::new();
    let mut i: usize = 0;
    assert(s@.take(0) =~= Seq::<char>::empty());
    while i < n
        invariant
            n == s@.len(),
            i <= n,
            out@ == collapse_spaces(s@.take(i as int)),
        decreases n - i,
    {
        let c = s.get_char(i);
        let ghost t = s@.take(i + 1);
        assert(t.drop_last() =~= s@.take(i as int));
        assert(t.last() == c);
        if i > 0 {
            assert(t[t.len() - 2] == s@[i - 1]);
        }
        if c == ' ' && i > 0 && s.get_char(i - 1) == ' ' {
        } else {
            push_char(&mut out, c);
        }
        i = i + 1;
    }
    assert(s@.take(n as int) =~= s@);
    out
}

/// `s` with every ` ,` made `,`.
fn drop_spaces_before_commas(s: &str) -> (r: String)
    ensures
        r@ == drop_space_before_comma(s@),
{
    let n = s.unicode_len();
    let mut out = String::new();
    let mut i: usize = 0;
    assert(s@.skip(0) =~= s@);
    while i < n
        invariant
            n == s@.len(),
            i <= n,
            out@ + drop_space_before_comma(s@.skip(i as int)) == drop_space_before_comma(s@),
        decreases n - i,
    {
        let ghost rest = s@.skip(i as int);
        assert(rest[0] == s@[i as int]);
        if i + 1 < n && s.get_char(i) == ' ' && s.get_char(i + 1) == ',' {
            assert(rest[1] == s@[i + 1]);
            assert(rest.skip(2) =~= s@.skip(i + 2));
            push_char(&mut out, ',');
            assert(out@ + drop_space_before_comma(s@.skip(i + 2)) =~= out@.drop_last() + (seq![',']
                + drop_space_before_comma(rest.skip(2))));
            i = i + 2;
        } else {
            assert(rest.drop_first() =~= s@.skip(i + 1));
            let c = s.get_char(i);
            push_char(&mut out, c);
            assert(out@ + drop_space_before_comma(s@.skip(i + 1)) =~= out@.drop_last() + (seq![c]
                + drop_space_before_comma(rest.drop_first())));
            i = i + 1;
        }
    }
    assert(s@.skip(n as int) =~= Seq::<char>::empty());
    assert(out@ + Seq::<char>::empty() =~= out@);
    out
}

/// Clean up extra spaces and spaces before commas, and trim.
pub fn clean_spaces(s: &str) -> (r: String)
    ensures
        r@ == cleaned(s@),
{
    let a = collapse_space_runs(s);
    let b = drop_spaces_before_commas(a.as_str());
    owned(trim_str(b.as_str()))
}

/// `s` with its first character in upper case.
pub fn uc_first(s: &str) -> (r: String)
    ensures
        r@ == uc_first_text(s@),
{
    let n = s.unicode_len();
    if n == 0 {
        return String::new();
    }
    let first = s.substring_char(0, 1);
    assert(first@ =~= seq![s@[0]]);
    let mut up = uppercase(first);
    let rest = s.substring_char(1, n);
    assert(rest@ =~= s@.drop_first());
    up.append(rest);
    up
}

/// What `modify_word` returns: the gendered form of a word in English,
/// French and German.
pub open spec fn modified_word(word: Seq<char>, hints: WordHints, lang: Seq<char>) -> Seq<char> {
    let lower = to_lower(word);
    if lang == "en"@ {
        if hints.is_female {
            if lower == "actor"@ || lower == "actor / actress"@ {
                "actress"@
            } else {
                word
            }
        } else if hints.is_male && lower == "actor / actress"@ {
            "actor"@
        } else {
            word
        }
    } else if lang == "fr"@ {
        if hints.is_female && lower == "acteur"@ {
            "actrice"@
        } else if hints.is_female && lower == "être humain"@ {
            "personne"@
        } else {
            word
        }
    } else if lang == "de"@ {
        if hints.is_female && hints.occupation {
            word + "in"@
        } else {
            word
        }
    } else {
        word
    }
}

/// The conjunction that ends a list in `lang`, if the language has one.
pub open spec fn conjunction(lang: Seq<char>) -> Option<Seq<char>> {
    if lang == "en"@ {
        Some("and"@)
    } else if lang == "de"@ {
        Some("und"@)
    } else if lang == "fr"@ || lang == "it"@ {
        Some("et"@)
    } else if lang == "ga"@ {
        Some("agus"@)
    } else if lang == "nl"@ {
        Some("en"@)
    } else if lang == "pl"@ {
        Some("i"@)
    } else if lang == "vi"@ {
        Some("và"@)
    } else if lang == "es"@ || lang == "pt"@ {
        Some("y"@)
    } else {
        None
    }
}

/// Words joined as a list in `lang`: `a`, `a and b`, `a, b and c`, with a
/// comma before the conjunction in English and Vietnamese; joined by commas
/// alone in a language without a conjunction.
pub open spec fn listed_words(words: Seq<Seq<char>>, lang: Seq<char>) -> Seq<char> {
    match conjunction(lang) {
        None => seq_join(words, ", "@),
        Some(c) => if words.len() == 0 {
            Seq::empty()
        } else if words.len() == 1 {
            words[0]
        } else if words.len() == 2 {
            words[0] + " "@ + c + " "@ + words[1]
        } else if lang == "en"@ || lang == "vi"@ {
            seq_join(words.drop_last(), ", "@) + ", "@ + c + " "@ + words.last()
        } else {
            seq_join(words.drop_last(), ", "@) + " "@ + c + " "@ + words.last()
        },
    }
}

/// What `list_words` returns: the gendered words joined as a list.
pub open spec fn listed(list: Seq<Seq<char>>, hints: WordHints, lang: Seq<char>) -> Seq<char> {
    listed_words(list.map_values(|w: Seq<char>| modified_word(w, hints, lang)), lang)
}

/// The conjunction of `lang`.
fn conjunction_of(lang: &str) -> (r: Option<&'static str>)
    ensures
        match r {
            Some(c) => conjunction(lang@) == Some(c@),
            None => conjunction(lang@) is None,
        },
{
    if str_eq(lang, "en") {
        Some("and")
    } else if str_eq(lang, "de") {
        Some("und")
    } else if str_eq(lang, "fr") || str_eq(lang, "it") {
        Some("et")
    } else if str_eq(lang, "ga") {
        Some("agus")
    } else if str_eq(lang, "nl") {
        Some("en")
    } else if str_eq(lang, "pl") {
        Some("i")
    } else if str_eq(lang, "vi") {
        Some("và")
    } else if str_eq(lang, "es") || str_eq(lang, "pt") {
        Some("y")
    } else {
        None
    }
}

impl ShortDescription {
    /// Modify a word based on gender hints and language.
    pub fn modify_word(&self, word: &str, hints: &WordHints, lang: &str) -> (r: String)
        ensures
            r@ == modified_word(word@, *hints, lang@),
    {
        let lower = lowercase(word);
        let l = lower.as_str();
        if str_eq(lang, "en") {
            if hints.is_female {
                if str_eq(l, "actor") || str_eq(l, "actor / actress") {
                    return owned("actress");
                }
            } else if hints.is_male && str_eq(l, "actor / actress") {
                return owned("actor");
            }
        } else if str_eq(lang, "fr") {
            if hints.is_female && str_eq(l, "acteur") {
                return owned("actrice");
            }
            if hints.is_female && str_eq(l, "être humain") {
                return owned("personne");
            }
        } else if str_eq(lang, "de") {
            if hints.is_female && hints.occupation {
                return concat2(word, "in");
            }
        }
        owned(word)
    }

    /// Join a list of words with the conjunction of the language.
    pub fn list_words(&self, original_list: &[String], hints: &WordHints, lang: &str) -> (r: String)
        ensures
            r@ == listed(views(original_list@), *hints, lang@),
    {
        let ghost ws = views(original_list@).map_values(|w: Seq<char>| modified_word(w, *hints, lang@));
        let mut list: Vec<String> = Vec::new();
        let mut i: usize = 0;
        while i < original_list.len()
            invariant
                i <= original_list@.len(),
                ws == views(original_list@).map_values(|w: Seq<char>| modified_word(w, *hints, lang@)),
                views(list@) == ws.take(i as int),
            decreases original_list.len() - i,
        {
            let w = self.modify_word(original_list[i].as_str(), hints, lang);
            assert(views(original_list@)[i as int] == original_list@[i as int]@);
            assert(ws[i as int] == w@);
            let ghost prev = list@;
            list.push(w);
            assert(views(list@) =~= views(prev).push(ws[i as int]));
            assert(ws.take(i + 1) =~= ws.take(i as int).push(ws[i as int]));
            assert(views(list@) =~= ws.take(i + 1));
            i = i + 1;
        }
        assert(ws.take(original_list@.len() as int) =~= ws);
        match conjunction_of(lang) {
            None => crate::text::join(&list, ", "),
            Some(c) => {
                let n = list.len();
                if n == 0 {
                    String::new()
                } else if n == 1 {
                    list[0].clone()
                } else if n == 2 {
                    let mut out = list[0].clone();
                    out.append(" ");
                    out.append(c);
                    out.append(" ");
                    out.append(list[1].as_str());
                    out
                } else {
                    let ghost before = list@;
                    assert(views(before) == ws);
                    let last = list.pop().unwrap();
                    assert(list@ =~= before.drop_last());
                    assert(last == before.last());
                    assert(views(list@) =~= ws.drop_last());
                    let mut out = crate::text::join(&list, ", ");
                    if str_eq(lang, "en") || str_eq(lang, "vi") {
                        out.append(", ");
                    } else {
                        out.append(" ");
                    }
                    out.append(c);
                    out.append(" ");
                    out.append(last.as_str());
                    out
                }
            },
        }
    }
}

} // verus!
