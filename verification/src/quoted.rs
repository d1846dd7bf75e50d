//! Quoted strings: text between two `"`, which itself holds no `"`.

use vstd::prelude::*;
use crate::attribute::{
    is_raw_value, lemma_next_separator_is, quote_open, separator_at, Codec,
};
use crate::error::{invalid, Error, Reason};
use crate::text::{chars_to_string, has_char, head, push_chars, str_to_chars, tail};

verus! {

/// The text `v` between quotes.
pub open spec fn quoted_text(v: Seq<char>) -> Seq<char> {
    seq!['"'] + v + seq!['"']
}

/// What stands between the quotes of `s`; `None` where `s` does not begin
/// and end with a `"` of its own, or holds another between them.
pub open spec fn unquoted(s: Seq<char>) -> Option<Seq<char>> {
    if s.len() >= 2 && s[0] == '"' && s.last() == '"' && !s.subrange(1, s.len() - 1).contains(
        '"',
    ) {
        Some(s.subrange(1, s.len() - 1))
    } else {
        None
    }
}

/// A string that can stand between quotes: it holds no `"`.
#[derive(Debug, PartialEq, Eq, Hash)]
pub struct QuotedString {
    text: String,
}

impl View for QuotedString {
    type V = Seq<char>;

    closed spec fn view(&self) -> Seq<char> {
        self.text@
    }
}

impl Clone for QuotedString {
    fn clone(&self) -> (r: QuotedString)
        ensures
            r@ == self@,
    {
        proof {
            use_type_invariant(self);
        }
        QuotedString { text: self.text.clone() }
    }
}

impl QuotedString {
    /// The string holds no `"`. Every value that code holds is well-formed.
    #[verifier::type_invariant]
    pub closed spec fn wf(&self) -> bool {
        !self.text@.contains('"')
    }

    /// Well-formed means: no `"` in the string.
    pub proof fn lemma_wf(&self)
        ensures
            self.wf() <==> !self@.contains('"'),
    {
    }

    /// Makes a quoted string of `s`, which must hold no `"`.
    pub fn new(s: &str) -> (r: Result<QuotedString, Error>)
        ensures
            match r {
                Ok(q) => q@ == s@ && !s@.contains('"'),
                Err(e) => s@.contains('"') && e == invalid(Reason::InvalidValue),
            },
    {
        let v = str_to_chars(s);
        QuotedString::from_chars(v.as_slice())
    }

    /// Makes a quoted string of the characters `s`, which must hold no `"`.
    pub fn from_chars(s: &[char]) -> (r: Result<QuotedString, Error>)
        ensures
            match r {
                Ok(q) => q@ == s@ && !s@.contains('"'),
                Err(e) => s@.contains('"') && e == invalid(Reason::InvalidValue),
            },
    {
        if has_char(s, '"') {
            Err(Error::invalid_input(Reason::InvalidValue))
        } else {
            Ok(QuotedString { text: chars_to_string(s) })
        }
    }

    /// The string, without quotes.
    pub fn as_str(&self) -> (r: &str)
        ensures
            r@ == self@,
    {
        self.text.as_str()
    }

    /// Reads a string between quotes.
    pub fn parse(s: &str) -> (r: Result<QuotedString, Error>)
        ensures
            match r {
                Ok(q) => unquoted(s@) == Some(q@),
                Err(e) => unquoted(s@) is None && e == invalid(Reason::InvalidValue),
            },
    {
        let v = str_to_chars(s);
        QuotedString::parse_chars(v.as_slice())
    }

    /// Appends the string between quotes to `buf`.
    pub fn push_text(&self, buf: &mut Vec<char>)
        ensures
            final(buf)@ == old(buf)@ + quoted_text(self@),
    {
        buf.push('"');
        let v = str_to_chars(self.text.as_str());
        push_chars(buf, v.as_slice());
        buf.push('"');
        assert(final(buf)@ =~= old(buf)@ + quoted_text(self@));
    }

    /// The string between quotes, as characters.
    pub fn to_chars(&self) -> (r: Vec<char>)
        ensures
            r@ == quoted_text(self@),
    {
        let mut buf: Vec<char> = Vec::new();
        self.push_text(&mut buf);
        assert(buf@ =~= quoted_text(self@));
        buf
    }

    /// The string between quotes.
    pub fn render(&self) -> (r: String)
        ensures
            r@ == quoted_text(self@),
    {
        let buf = self.to_chars();
        chars_to_string(buf.as_slice())
    }
}

impl Codec for QuotedString {
    type Value = Seq<char>;

    open spec fn value(&self) -> Seq<char> {
        self@
    }

    open spec fn decode(s: Seq<char>) -> Option<Seq<char>> {
        unquoted(s)
    }

    fn parse_chars(s: &[char]) -> (r: Result<QuotedString, Error>) {
        if s.len() < 2 || s[0] != '"' || s[s.len() - 1] != '"' {
            return Err(Error::invalid_input(Reason::InvalidValue));
        }
        let inner = head(tail(s, 1), s.len() - 2);
        assert(inner@ == s@.subrange(1, s.len() - 1));
        QuotedString::from_chars(inner)
    }
}

/// What is known of every optional quoted string that code holds: it
/// holds no `"`.
pub fn quoted_is_quotable(q: &Option<QuotedString>)
    ensures
        match q {
            Some(text) => !text@.contains('"'),
            None => true,
        },
{
    match q {
        Some(text) => {
            proof {
                use_type_invariant(text);
                text.lemma_wf();
            }
        },
        None => {},
    }
}

/// Reading back a string written between quotes gives the string.
pub proof fn lemma_quoted_round_trip(v: Seq<char>)
    requires
        !v.contains('"'),
    ensures
        unquoted(quoted_text(v)) == Some(v),
{
    let s = quoted_text(v);
    assert(s.subrange(1, s.len() - 1) == v);
}

/// After an opening quote and text without quotes, the quoted string is
/// still open.
proof fn lemma_open_after_quote(v: Seq<char>)
    requires
        !v.contains('"'),
    ensures
        quote_open(seq!['"'] + v),
    decreases v.len(),
{
    let s = seq!['"'] + v;
    if v.len() == 0 {
        assert(s.drop_last().len() == 0);
        assert(!quote_open(s.drop_last()));
        assert(s.last() == '"');
    } else {
        let w = v.drop_last();
        assert forall|j: int| 0 <= j < w.len() implies w[j] != '"' by {
            assert(v.contains(v[j]));
        }
        assert(v.contains(v.last()));
        lemma_open_after_quote(w);
        assert(s.drop_last() == seq!['"'] + w);
        assert(s.last() == v.last());
    }
}

/// A string written between quotes can stand as the raw value of an
/// attribute, whatever commas it holds.
pub proof fn lemma_quoted_is_raw_value(v: Seq<char>)
    requires
        !v.contains('"'),
    ensures
        is_raw_value(quoted_text(v)),
{
    let s = quoted_text(v);
    assert forall|j: int| 0 <= j < s.len() implies !separator_at(s, j) by {
        if 1 <= j <= v.len() {
            let w = v.take(j - 1);
            assert forall|k: int| 0 <= k < w.len() implies w[k] != '"' by {
                assert(v.contains(v[k]));
            }
            lemma_open_after_quote(w);
            assert(s.take(j) == seq!['"'] + w);
        }
    }
    lemma_next_separator_is(s, 0, s.len() as int);
    lemma_open_after_quote(v);
    assert(s.drop_last() == seq!['"'] + v);
}

} // verus!
