//! A tree of text fragments with light markup, rendered as plain text or HTML.
use vstd::prelude::*;

use crate::text::{lemma_empty_str, seq_join};

verus! {

/// A piece of generated output: plain text, a symbol that attaches to what
/// precedes it, markup around a sub-result, a group of results written one
/// after the other, or a list written with commas and a final separator.
#[derive(Debug)]
pub enum LanguageResult {
    Text(String),
    Symbol(String),
    Link((String, Box<LanguageResult>)),
    Bold(Box<LanguageResult>),
    Italics(Box<LanguageResult>),
    Group(Vec<LanguageResult>),
    List((String, Vec<LanguageResult>)),
    Reference(Box<LanguageResult>),
}

/// The plain text of `r`: markup is dropped, references are left out, the
/// members of a group each follow a space (a symbol follows directly), and
/// the members of a list are joined by ", " with the list's own separator
/// before the last one.
pub open spec fn rendered_text(r: LanguageResult) -> Seq<char>
    decreases r, 0int,
{
    match r {
        LanguageResult::Text(s) => s@,
        LanguageResult::Symbol(s) => s@,
        LanguageResult::Link(pair) => rendered_text(*pair.1),
        LanguageResult::Bold(b) => rendered_text(*b),
        LanguageResult::Italics(b) => rendered_text(*b),
        LanguageResult::Group(v) => group_text(v@, v@.len() as int),
        LanguageResult::List(pair) => list_text(
            item_texts(pair.1@, pair.1@.len() as int),
            pair.0@,
        ),
        LanguageResult::Reference(_) => Seq::empty(),
    }
}

/// The text of the first `n` members of a group.
pub open spec fn group_text(items: Seq<LanguageResult>, n: int) -> Seq<char>
    decreases items, n,
{
    if n <= 0 || n > items.len() {
        Seq::empty()
    } else {
        group_text(items, n - 1) + group_gap(items[n - 1]) + rendered_text(items[n - 1])
    }
}

/// What stands before a member of a group: nothing before a symbol, else a space.
pub open spec fn group_gap(r: LanguageResult) -> Seq<char> {
    if r is Symbol {
        Seq::empty()
    } else {
        seq![' ']
    }
}

/// The texts of the first `n` members of a list.
pub open spec fn item_texts(items: Seq<LanguageResult>, n: int) -> Seq<Seq<char>>
    decreases items, n,
{
    if n <= 0 || n > items.len() {
        Seq::empty()
    } else {
        item_texts(items, n - 1).push(rendered_text(items[n - 1]))
    }
}

/// A list written out: nothing, the single part, or the parts joined by
/// ", " with `sep` between spaces before the last part.
pub open spec fn list_text(parts: Seq<Seq<char>>, sep: Seq<char>) -> Seq<char> {
    if parts.len() == 0 {
        Seq::empty()
    } else if parts.len() == 1 {
        parts[0]
    } else {
        seq_join(parts.drop_last(), seq![',', ' ']) + seq![' '] + sep + seq![' '] + parts.last()
    }
}

/// The HTML of `r`: a link becomes an anchor, bold and italics their tags and a
/// reference a `<reference>` element, each around the plain text of what it
/// holds; every other result is written as its plain text.
pub open spec fn rendered_html(r: LanguageResult) -> Seq<char> {
    match r {
        LanguageResult::Link(pair) => "<a href='"@ + pair.0@ + "'>"@ + rendered_text(*pair.1)
            + "</a>"@,
        LanguageResult::Bold(b) => "<strong>"@ + rendered_text(*b) + "</strong>"@,
        LanguageResult::Italics(b) => "<em>"@ + rendered_text(*b) + "</em>"@,
        LanguageResult::Reference(b) => "<reference>"@ + rendered_text(*b) + "</reference>"@,
        _ => rendered_text(r),
    }
}

/// A result without markup (text, a symbol, a group or a list) has the same
/// HTML as plain text.
pub proof fn lemma_html_of_unmarked(r: LanguageResult)
    requires
        !(r is Link || r is Bold || r is Italics || r is Reference),
    ensures
        rendered_html(r) == rendered_text(r),
{
}

/// Markup adds nothing to the plain text: a link, bold or italics have the
/// plain text of what they hold, and a reference has none.
pub proof fn lemma_text_ignores_markup(inner: LanguageResult, url: String)
    ensures
        rendered_text(LanguageResult::Bold(Box::new(inner))) == rendered_text(inner),
        rendered_text(LanguageResult::Italics(Box::new(inner))) == rendered_text(inner),
        rendered_text(LanguageResult::Link((url, Box::new(inner)))) == rendered_text(inner),
        rendered_text(LanguageResult::Reference(Box::new(inner))) == Seq::<char>::empty(),
{
}

fn append_string(out: &mut String, s: &String)
    ensures
        final(out)@ == old(out)@ + s@,
{
    out.append(s.as_str());
}

fn group_render(v: &Vec<LanguageResult>) -> (s: String)
    ensures
        s@ == group_text(v@, v@.len() as int),
    decreases v, 0int,
{
    let mut s = String::new();
    let mut i: usize = 0;
    proof {
        lemma_empty_str();
    }
    while i < v.len()
        invariant
            i <= v.len(),
            s@ == group_text(v@, i as int),
        decreases v.len() - i,
    {
        let item = &v[i];
        proof {
            reveal_strlit(" ");
        }
        match item {
            LanguageResult::Symbol(_) => {},
            _ => {
                s.append(" ");
            },
        }
        assert(decreases_to!(v => v[i as int]));
        let t = item.render_text();
        append_string(&mut s, &t);
        i = i + 1;
    }
    s
}

fn list_render(sep: &String, v: &Vec<LanguageResult>) -> (s: String)
    ensures
        s@ == list_text(item_texts(v@, v@.len() as int), sep@),
    decreases v, 0int,
{
    let mut parts: Vec<String> = Vec::new();
    let mut i: usize = 0;
    while i < v.len()
        invariant
            i <= v.len(),
            parts@.len() == i,
            crate::text::views(parts@) == item_texts(v@, i as int),
        decreases v.len() - i,
    {
        assert(decreases_to!(v => v[i as int]));
        let t = v[i].render_text();
        let ghost old_parts = parts@;
        parts.push(t);
        proof {
            assert(crate::text::views(parts@) =~= crate::text::views(old_parts).push(t@));
        }
        i = i + 1;
    }
    let ghost texts = item_texts(v@, v@.len() as int);
    if parts.len() == 0 {
        proof {
            lemma_empty_str();
        }
        return String::new();
    }
    if parts.len() == 1 {
        assert(texts[0] == parts@[0]@);
        return crate::text::owned(parts[0].as_str());
    }
    let ghost all = parts@;
    let last = parts.pop().unwrap();
    assert(crate::text::views(parts@) =~= texts.drop_last());
    assert(last@ == texts.last()) by {
        assert(last == all.last());
        assert(crate::text::views(all)[all.len() - 1] == all[all.len() - 1]@);
    }
    proof {
        reveal_strlit(", ");
        reveal_strlit(" ");
        assert(", "@ =~= seq![',', ' ']);
        assert(" "@ =~= seq![' ']);
    }
    let mut out = crate::text::join(&parts, ", ");
    out.append(" ");
    append_string(&mut out, sep);
    out.append(" ");
    append_string(&mut out, &last);
    out
}

impl LanguageResult {
    /// The plain text of this result.
    pub fn render_text(&self) -> (s: String)
        ensures
            s@ == rendered_text(*self),
        decreases self, 1int,
    {
        match self {
            LanguageResult::Text(s) => crate::text::owned(s.as_str()),
            LanguageResult::Symbol(s) => crate::text::owned(s.as_str()),
            LanguageResult::Link(pair) => pair.1.render_text(),
            LanguageResult::Bold(r) => r.render_text(),
            LanguageResult::Italics(r) => r.render_text(),
            LanguageResult::Group(v) => group_render(v),
            LanguageResult::List(pair) => list_render(&pair.0, &pair.1),
            LanguageResult::Reference(_) => {
                proof {
                    lemma_empty_str();
                }
                String::new()
            },
        }
    }

    /// The HTML of this result.
    pub fn render_html(&self) -> (s: String)
        ensures
            s@ == rendered_html(*self),
    {
        match self {
            LanguageResult::Link(pair) => {
                let mut out = crate::text::owned("<a href='");
                append_string(&mut out, &pair.0);
                out.append("'>");
                let t = pair.1.render_text();
                append_string(&mut out, &t);
                out.append("</a>");
                out
            },
            LanguageResult::Bold(r) => {
                let mut out = crate::text::owned("<strong>");
                let t = r.render_text();
                append_string(&mut out, &t);
                out.append("</strong>");
                out
            },
            LanguageResult::Italics(r) => {
                let mut out = crate::text::owned("<em>");
                let t = r.render_text();
                append_string(&mut out, &t);
                out.append("</em>");
                out
            },
            LanguageResult::Reference(r) => {
                let mut out = crate::text::owned("<reference>");
                let t = r.render_text();
                append_string(&mut out, &t);
                out.append("</reference>");
                out
            },
            _ => self.render_text(),
        }
    }
}

} // verus!
