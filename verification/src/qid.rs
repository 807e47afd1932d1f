//! Validated, normalized Wikidata item identifiers.

use vstd::prelude::*;
use crate::text::{all_ascii_digits, lemma_utf8_len_concat, trim, trim_end, trim_start, utf8_len};

verus! {

/// A validated and normalized Wikidata item identifier (e.g. "Q42").
#[derive(Debug, Clone, PartialEq, Eq, Hash)]
pub struct QId(String);

/// Why a Q-id was rejected.
#[derive(Debug, Clone, Copy, PartialEq, Eq)]
pub enum QIdError {
    /// Nothing but white space was given.
    Empty,
    /// More than 20 bytes after trimming.
    TooLong,
    /// Neither a `Q`/`q` followed by digits, nor digits alone.
    InvalidFormat,
}

/// The message of each rejection.
pub open spec fn qid_error_message(e: QIdError) -> Seq<char> {
    match e {
        QIdError::Empty => "Q-id must not be empty"@,
        QIdError::TooLong => "Q-id is too long (max 20 characters)"@,
        QIdError::InvalidFormat => "Invalid Q-id format. Expected Q followed by digits, or just digits."@,
    }
}

impl QIdError {
    /// The message that explains the rejection.
    pub fn message(&self) -> (r: String)
        ensures
            r@ == qid_error_message(*self),
    {
        match self {
            QIdError::Empty => crate::text::owned("Q-id must not be empty"),
            QIdError::TooLong => crate::text::owned("Q-id is too long (max 20 characters)"),
            QIdError::InvalidFormat => crate::text::owned(
                "Invalid Q-id format. Expected Q followed by digits, or just digits.",
            ),
        }
    }
}

impl View for QId {
    type V = Seq<char>;

    closed spec fn view(&self) -> Seq<char> {
        self.0@
    }
}

/// A normalized Q-id: `Q` followed by at least one ASCII digit.
pub open spec fn is_normal_qid(s: Seq<char>) -> bool {
    s.len() >= 2 && s[0] == 'Q' && all_ascii_digits(s.drop_first())
}

/// What `QId::parse` makes of `raw`: the normalized id, or why it is refused.
pub open spec fn parse_qid(raw: Seq<char>) -> Result<Seq<char>, QIdError> {
    let t = trim(raw);
    if t.len() == 0 {
        Err(QIdError::Empty)
    } else if utf8_len(t) > 20 {
        Err(QIdError::TooLong)
    } else if t[0] == 'Q' || t[0] == 'q' {
        let digits = t.drop_first();
        if digits.len() == 0 || !all_ascii_digits(digits) {
            Err(QIdError::InvalidFormat)
        } else {
            Ok(seq!['Q'] + digits)
        }
    } else if all_ascii_digits(t) {
        if utf8_len(t) >= 20 {
            Err(QIdError::TooLong)
        } else {
            Ok(seq!['Q'] + t)
        }
    } else {
        Err(QIdError::InvalidFormat)
    }
}

impl QId {
    /// Parse and normalize a Q-id from user input.
    ///
    /// Accepts formats like `"Q42"`, `"q42"`, `"42"`, `"  Q42  "`. The
    /// normalized id has at most 20 bytes, so it parses again to itself.
    pub fn parse(raw: &str) -> (r: Result<QId, QIdError>)
        ensures
            match r {
                Ok(q) => parse_qid(raw@) == Ok::<Seq<char>, QIdError>(q@) && parse_qid(q@) == Ok::<
                    Seq<char>,
                    QIdError,
                >(q@),
                Err(e) => parse_qid(raw@) == Err::<Seq<char>, QIdError>(e),
            },
    {
        let trimmed = crate::text::trim_str(raw);
        let n = trimmed.unicode_len();
        if n == 0 {
            return Err(QIdError::Empty);
        }
        if !crate::text::utf8_len_at_most(trimmed, 20) {
            return Err(QIdError::TooLong);
        }
        let first = trimmed.get_char(0);
        assert(trimmed@[0] == first);
        if first == 'Q' || first == 'q' {
            let digits = trimmed.substring_char(1, n);
            assert(digits@ =~= trimmed@.drop_first());
            if digits.unicode_len() == 0 || !crate::text::is_all_ascii_digits(digits) {
                assert(parse_qid(raw@) == Err::<Seq<char>, QIdError>(QIdError::InvalidFormat));
                return Err(QIdError::InvalidFormat);
            }
            let mut s = String::new();
            crate::text::push_char(&mut s, 'Q');
            s.append(digits);
            assert(s@ =~= seq!['Q'] + digits@);
            proof {
                lemma_parsed_qid_parses_again(raw@);
            }
            Ok(QId(s))
        } else if crate::text::is_all_ascii_digits(trimmed) {
            if !crate::text::utf8_len_at_most(trimmed, 19) {
                return Err(QIdError::TooLong);
            }
            let mut s = String::new();
            crate::text::push_char(&mut s, 'Q');
            s.append(trimmed);
            assert(s@ =~= seq!['Q'] + trimmed@);
            proof {
                lemma_parsed_qid_parses_again(raw@);
            }
            Ok(QId(s))
        } else {
            Err(QIdError::InvalidFormat)
        }
    }

    /// Create a `QId` from a key returned by the Wikidata API, which is
    /// already normalized; the key is taken as it is.
    pub fn from_api_key(key: &str) -> (r: QId)
        ensures
            r@ == key@,
    {
        QId(String::from_str(key))
    }

    /// The normalized string representation (e.g. `"Q42"`).
    pub fn as_str(&self) -> (r: &str)
        ensures
            r@ == self@,
    {
        self.0.as_str()
    }

    /// The normalized string representation, as an owned string.
    pub fn to_string(&self) -> (r: String)
        ensures
            r@ == self@,
    {
        self.0.clone()
    }
}

/// Every id that parses is in normal form: `Q` followed by ASCII digits.
pub proof fn lemma_parsed_qid_is_normal(raw: Seq<char>)
    ensures
        parse_qid(raw) is Ok ==> is_normal_qid(parse_qid(raw)->Ok_0),
{
    let t = trim(raw);
    if let Ok(q) = parse_qid(raw) {
        if t[0] == 'Q' || t[0] == 'q' {
            assert((seq!['Q'] + t.drop_first()).drop_first() =~= t.drop_first());
        } else {
            assert((seq!['Q'] + t).drop_first() =~= t);
        }
    }
}

/// An id in normal form of at most 20 bytes parses to itself.
pub proof fn lemma_normal_qid_parses_to_itself(q: Seq<char>)
    requires
        is_normal_qid(q),
        utf8_len(q) <= 20,
    ensures
        parse_qid(q) == Ok::<Seq<char>, QIdError>(q),
{
    assert(!crate::text::is_white_space(q[0]));
    assert(trim_start(q) == q);
    assert(crate::text::is_ascii_digit(q.drop_first()[q.len() - 2]));
    assert(q.last() == q.drop_first()[q.len() - 2]);
    assert(trim_end(q) == q);
    assert(seq!['Q'] + q.drop_first() =~= q);
}

/// What a parse gives parses again to itself: a parsed id never needs to be
/// validated or normalized again.
pub proof fn lemma_parsed_qid_parses_again(raw: Seq<char>)
    ensures
        parse_qid(raw) is Ok ==> parse_qid(parse_qid(raw)->Ok_0) == parse_qid(raw),
{
    if let Ok(q) = parse_qid(raw) {
        lemma_parsed_qid_is_normal(raw);
        let t = trim(raw);
        if t[0] == 'Q' || t[0] == 'q' {
            let d = t.drop_first();
            assert(t =~= seq![t[0]] + d);
            lemma_utf8_len_concat(seq![t[0]], d);
            lemma_utf8_len_concat(seq!['Q'], d);
            assert(utf8_len(seq![t[0]]) == 1) by {
                assert(seq![t[0]].drop_last() =~= Seq::<char>::empty());
                assert(utf8_len(Seq::<char>::empty()) == 0);
                assert(seq![t[0]].last() == t[0]);
                assert(('q' as u32) < 0x80 && ('Q' as u32) < 0x80);
            }
            assert(utf8_len(seq!['Q']) == 1) by {
                assert(seq!['Q'].drop_last() =~= Seq::<char>::empty());
                assert(utf8_len(Seq::<char>::empty()) == 0);
                assert(seq!['Q'].last() == 'Q');
                assert(('Q' as u32) < 0x80);
            }
        } else {
            lemma_utf8_len_concat(seq!['Q'], t);
            assert(utf8_len(seq!['Q']) == 1) by {
                assert(seq!['Q'].drop_last() =~= Seq::<char>::empty());
                assert(utf8_len(Seq::<char>::empty()) == 0);
                assert(seq!['Q'].last() == 'Q');
                assert(('Q' as u32) < 0x80);
            }
        }
        lemma_normal_qid_parses_to_itself(q);
    }
}

} // verus!
