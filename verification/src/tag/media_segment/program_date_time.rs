//! `EXT-X-PROGRAM-DATE-TIME`: the point in time of the first sample of a
//! media segment.

use vstd::prelude::*;
use crate::date::{lemma_date_time_round_trip, DateTime};
use crate::error::{invalid, Error, Reason};
use crate::text::{
    after_prefix, chars_to_string, lemma_after_prefix, push_str, str_to_chars, strip_prefix,
};
use crate::types::ProtocolVersion;

verus! {

/// An `EXT-X-PROGRAM-DATE-TIME` tag.
#[derive(Debug, Clone, Copy, PartialEq, Eq, Hash, Structural)]
pub struct ExtXProgramDateTime {
    date_time: DateTime,
}

impl View for ExtXProgramDateTime {
    type V = DateTime;

    closed spec fn view(&self) -> DateTime {
        self.date_time
    }
}

/// The text that every `EXT-X-PROGRAM-DATE-TIME` line begins with.
pub open spec fn program_date_time_prefix() -> Seq<char> {
    "#EXT-X-PROGRAM-DATE-TIME:"@
}

/// The line of the tag with the point in time `t`.
pub open spec fn program_date_time_line(t: DateTime) -> Seq<char> {
    program_date_time_prefix() + t.text()
}

/// The point in time of the tag that a line spells.
pub open spec fn program_date_time_from_line(s: Seq<char>) -> Result<DateTime, Error> {
    match after_prefix(s, program_date_time_prefix()) {
        None => Err(invalid(Reason::PrefixMismatch)),
        Some(rest) => match DateTime::from_text(rest) {
            None => Err(invalid(Reason::InvalidValue)),
            Some(t) => Ok(t),
        },
    }
}

impl ExtXProgramDateTime {
    /// Makes a new `ExtXProgramDateTime` tag.
    pub fn new(date_time: DateTime) -> (r: ExtXProgramDateTime)
        ensures
            r@ == date_time,
    {
        ExtXProgramDateTime { date_time }
    }

    /// Returns the `DateTime` of the first sample of the associated media
    /// segment.
    pub fn date_time(&self) -> (r: DateTime)
        ensures
            r == self@,
    {
        self.date_time
    }

    /// Returns the protocol compatibility version that this tag requires.
    pub fn requires_version(&self) -> (v: ProtocolVersion)
        ensures
            v == ProtocolVersion::V1,
    {
        ProtocolVersion::V1
    }

    /// Reads the line of an `EXT-X-PROGRAM-DATE-TIME` tag.
    pub fn parse(s: &str) -> (r: Result<ExtXProgramDateTime, Error>)
        ensures
            match r {
                Ok(tag) => program_date_time_from_line(s@) == Ok::<DateTime, Error>(tag@),
                Err(e) => program_date_time_from_line(s@) == Err::<DateTime, Error>(e),
            },
    {
        let chars = str_to_chars(s);
        let rest = match strip_prefix(chars.as_slice(), "#EXT-X-PROGRAM-DATE-TIME:") {
            Some(rest) => rest,
            None => {
                return Err(Error::invalid_input(Reason::PrefixMismatch));
            },
        };
        let text = chars_to_string(rest);
        let date_time = DateTime::parse(text.as_str())?;
        Ok(ExtXProgramDateTime { date_time })
    }

    /// Writes the line of the tag. The line parses to the tag again.
    pub fn render(&self) -> (r: String)
        ensures
            r@ == program_date_time_line(self@),
            self@.wf(),
            program_date_time_from_line(r@) == Ok::<DateTime, Error>(self@),
    {
        proof {
            use_type_invariant(&self.date_time);
            lemma_program_date_time_round_trip(self@);
        }
        let mut buf = str_to_chars("#EXT-X-PROGRAM-DATE-TIME:");
        let text = self.date_time.render();
        push_str(&mut buf, text.as_str());
        chars_to_string(buf.as_slice())
    }
}

/// Parsing the line that a tag renders gives the tag back.
pub proof fn lemma_program_date_time_round_trip(t: DateTime)
    requires
        t.wf(),
    ensures
        program_date_time_from_line(program_date_time_line(t)) == Ok::<DateTime, Error>(t),
{
    lemma_after_prefix(program_date_time_prefix(), t.text());
    lemma_date_time_round_trip(t);
}

/// A line that does not begin with the prefix of the tag is refused.
pub proof fn lemma_program_date_time_prefix_rejection(s: Seq<char>)
    requires
        !program_date_time_prefix().is_prefix_of(s),
    ensures
        program_date_time_from_line(s) == Err::<DateTime, Error>(invalid(Reason::PrefixMismatch)),
{
}

} // verus!
