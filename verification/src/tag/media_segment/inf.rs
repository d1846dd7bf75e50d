//! `EXTINF`: the duration of a media segment, and its title.

use vstd::prelude::*;
use crate::attribute::Codec;
use crate::duration::{
    lemma_seconds_round_trip, lemma_seconds_text_chars, Duration,
};
use crate::error::{invalid, Error, Reason};
use crate::number::is_digit;
use crate::text::{
    after_prefix, chars_to_string, find_char, first_index, head, lemma_after_prefix,
    lemma_first_index, lemma_first_index_after, str_to_chars, strip_prefix, tail,
};
use crate::types::{is_plain_text, M3u8String, ProtocolVersion};

verus! {

/// An `EXTINF` tag.
#[derive(Debug, Clone, PartialEq, Eq, Hash)]
pub struct ExtInf {
    duration: Duration,
    title: Option<M3u8String>,
}

/// What an `EXTINF` tag holds, as contracts see it.
pub struct ExtInfView {
    pub duration: Duration,
    pub title: Option<Seq<char>>,
}

impl View for ExtInf {
    type V = ExtInfView;

    closed spec fn view(&self) -> ExtInfView {
        ExtInfView {
            duration: self.duration,
            title: match self.title {
                Some(title) => Some(title@),
                None => None,
            },
        }
    }
}

impl ExtInfView {
    /// The text that every `EXTINF` line begins with.
    pub open spec fn prefix() -> Seq<char> {
        "#EXTINF:"@
    }

    /// Whether the tag can be written: its duration is well-formed and
    /// its title holds no control character.
    pub open spec fn wf(self) -> bool {
        &&& self.duration.wf()
        &&& self.title is Some ==> is_plain_text(self.title->0)
    }

    /// The line of the tag: the duration in seconds, then a comma and the
    /// title where there is one.
    pub open spec fn text(self) -> Seq<char> {
        match self.title {
            Some(title) => Self::prefix() + self.duration.text() + seq![','] + title,
            None => Self::prefix() + self.duration.text(),
        }
    }

    /// The tag that a line spells: after the prefix, a decimal number of
    /// seconds up to the first comma, and after that comma the title.
    pub open spec fn from_text(s: Seq<char>) -> Result<ExtInfView, Error> {
        match after_prefix(s, Self::prefix()) {
            None => Err(invalid(Reason::PrefixMismatch)),
            Some(rest) => {
                let comma = first_index(rest, ',');
                let title = if comma < rest.len() {
                    Some(rest.skip(comma + 1))
                } else {
                    None
                };
                match Duration::from_text(rest.take(comma)) {
                    None => Err(invalid(Reason::InvalidValue)),
                    Some(duration) => if title is Some && !is_plain_text(title->0) {
                        Err(invalid(Reason::InvalidValue))
                    } else {
                        Ok(ExtInfView { duration, title })
                    },
                }
            },
        }
    }

    /// The protocol version that the tag asks for: 3 where the duration is
    /// not a whole number of seconds, else 1.
    pub open spec fn version(self) -> ProtocolVersion {
        if self.duration.subsec() == 0 {
            ProtocolVersion::V1
        } else {
            ProtocolVersion::V3
        }
    }
}

impl ExtInf {
    /// Makes a new `ExtInf` tag.
    pub fn new(duration: Duration) -> (r: ExtInf)
        ensures
            r@ == (ExtInfView { duration, title: None }),
    {
        ExtInf { duration, title: None }
    }

    /// Makes a new `ExtInf` tag with the given title.
    pub fn with_title(duration: Duration, title: M3u8String) -> (r: ExtInf)
        ensures
            r@ == (ExtInfView { duration, title: Some(title@) }),
    {
        ExtInf { duration, title: Some(title) }
    }

    /// Returns the duration of the associated media segment.
    pub fn duration(&self) -> (r: Duration)
        ensures
            r == self@.duration,
    {
        self.duration
    }

    /// Returns the title of the associated media segment.
    pub fn title(&self) -> (r: Option<&M3u8String>)
        ensures
            match r {
                Some(title) => self@.title == Some(title@),
                None => self@.title is None,
            },
    {
        self.title.as_ref()
    }

    /// Returns the protocol compatibility version that this tag requires.
    pub fn requires_version(&self) -> (v: ProtocolVersion)
        ensures
            v == self@.version(),
    {
        if self.duration.subsec_nanos() == 0 {
            ProtocolVersion::V1
        } else {
            ProtocolVersion::V3
        }
    }

    /// Reads the line of an `EXTINF` tag.
    pub fn parse(s: &str) -> (r: Result<ExtInf, Error>)
        ensures
            match r {
                Ok(tag) => ExtInfView::from_text(s@) == Ok::<ExtInfView, Error>(tag@),
                Err(e) => ExtInfView::from_text(s@) == Err::<ExtInfView, Error>(e),
            },
    {
        let chars = str_to_chars(s);
        let rest = match strip_prefix(chars.as_slice(), "#EXTINF:") {
            Some(rest) => rest,
            None => {
                return Err(Error::invalid_input(Reason::PrefixMismatch));
            },
        };
        let comma = find_char(rest, ',');
        proof {
            lemma_first_index(rest@, ',');
        }
        let duration = Duration::parse_chars(head(rest, comma))?;
        if comma < rest.len() {
            let title = M3u8String::from_chars(tail(rest, comma + 1))?;
            Ok(ExtInf { duration, title: Some(title) })
        } else {
            Ok(ExtInf { duration, title: None })
        }
    }

    /// Writes the line of the tag. The line parses to the tag again.
    pub fn render(&self) -> (r: String)
        ensures
            r@ == self@.text(),
            self@.wf(),
            ExtInfView::from_text(r@) == Ok::<ExtInfView, Error>(self@),
    {
        proof {
            use_type_invariant(&self.duration);
        }
        match &self.title {
            Some(title) => {
                proof {
                    use_type_invariant(title);
                    title.lemma_wf();
                }
            },
            None => {},
        }
        proof {
            lemma_inf_round_trip(self@);
        }
        let mut buf = str_to_chars("#EXTINF:");
        self.duration.push_text(&mut buf);
        match &self.title {
            Some(title) => {
                buf.push(',');
                title.push_text(&mut buf);
            },
            None => {},
        }
        chars_to_string(buf.as_slice())
    }
}

/// Parsing the line that a tag renders gives the tag back.
pub proof fn lemma_inf_round_trip(tag: ExtInfView)
    requires
        tag.wf(),
    ensures
        ExtInfView::from_text(tag.text()) == Ok::<ExtInfView, Error>(tag),
{
    let d = tag.duration.text();
    tag.duration.lemma_parts();
    lemma_seconds_text_chars(tag.duration.seconds(), tag.duration.subsec());
    lemma_seconds_round_trip(tag.duration);
    assert(!d.contains(',')) by {
        if d.contains(',') {
            let i = choose|i: int| 0 <= i < d.len() && d[i] == ',';
            assert(is_digit(d[i]) || d[i] == '.');
        }
    }
    match tag.title {
        Some(title) => {
            let rest = d + seq![','] + title;
            assert(tag.text() =~= ExtInfView::prefix() + rest);
            lemma_after_prefix(ExtInfView::prefix(), rest);
            lemma_first_index_after(d, ',', title);
            assert(rest.take(d.len() as int) == d);
            assert(rest.skip(d.len() as int + 1) == title);
        },
        None => {
            lemma_after_prefix(ExtInfView::prefix(), d);
            lemma_first_index_after(d, ',', Seq::empty());
            assert(d.take(d.len() as int) == d);
        },
    }
}

/// A line that does not begin with the prefix of the tag is refused.
pub proof fn lemma_inf_prefix_rejection(s: Seq<char>)
    requires
        !ExtInfView::prefix().is_prefix_of(s),
    ensures
        ExtInfView::from_text(s) == Err::<ExtInfView, Error>(invalid(Reason::PrefixMismatch)),
{
}

/// A title changes nothing in the protocol version that a tag asks for.
pub proof fn lemma_inf_version_monotone(fewer: ExtInfView, more: ExtInfView)
    requires
        fewer.duration == more.duration,
        fewer.title is Some ==> more.title is Some,
    ensures
        fewer.version().number() <= more.version().number(),
{
}

/// Rendering depends on nothing but what the tag holds.
pub proof fn lemma_inf_render_deterministic(a: ExtInfView, b: ExtInfView)
    requires
        a == b,
    ensures
        a.text() == b.text(),
{
}

} // verus!
