//! `EXT-X-DISCONTINUITY`: a break in the coding of the segments.

use vstd::prelude::*;
use crate::error::{invalid, Error, Reason};
use crate::text::{is_word, str_to_chars};
use crate::types::ProtocolVersion;

verus! {

/// An `EXT-X-DISCONTINUITY` tag.
#[derive(Debug, Clone, Copy, PartialEq, Eq, Hash, Structural)]
pub struct ExtXDiscontinuity;

/// The line of the tag, which is all of it.
pub open spec fn discontinuity_line() -> Seq<char> {
    "#EXT-X-DISCONTINUITY"@
}

/// The tag that a line spells: the line must be that of the tag and
/// nothing more.
pub open spec fn discontinuity_from_line(s: Seq<char>) -> Result<ExtXDiscontinuity, Error> {
    if s == discontinuity_line() {
        Ok(ExtXDiscontinuity)
    } else {
        Err(invalid(Reason::PrefixMismatch))
    }
}

impl ExtXDiscontinuity {
    /// Returns the protocol compatibility version that this tag requires.
    pub fn requires_version(&self) -> (v: ProtocolVersion)
        ensures
            v == ProtocolVersion::V1,
    {
        ProtocolVersion::V1
    }

    /// Reads the line of an `EXT-X-DISCONTINUITY` tag.
    pub fn parse(s: &str) -> (r: Result<ExtXDiscontinuity, Error>)
        ensures
            r == discontinuity_from_line(s@),
    {
        let chars = str_to_chars(s);
        if is_word(chars.as_slice(), "#EXT-X-DISCONTINUITY") {
            Ok(ExtXDiscontinuity)
        } else {
            Err(Error::invalid_input(Reason::PrefixMismatch))
        }
    }

    /// Writes the line of the tag. The line parses to the tag again.
    pub fn render(&self) -> (r: String)
        ensures
            r@ == discontinuity_line(),
            discontinuity_from_line(r@) == Ok::<ExtXDiscontinuity, Error>(*self),
    {
        "#EXT-X-DISCONTINUITY".to_owned()
    }
}

/// Parsing the line that the tag renders gives the tag back.
pub proof fn lemma_discontinuity_round_trip()
    ensures
        discontinuity_from_line(discontinuity_line()) == Ok::<ExtXDiscontinuity, Error>(
            ExtXDiscontinuity,
        ),
{
}

/// A line that does not begin with the line of the tag is refused.
pub proof fn lemma_discontinuity_prefix_rejection(s: Seq<char>)
    requires
        !discontinuity_line().is_prefix_of(s),
    ensures
        discontinuity_from_line(s) == Err::<ExtXDiscontinuity, Error>(
            invalid(Reason::PrefixMismatch),
        ),
{
    if s == discontinuity_line() {
        assert(s.subrange(0, s.len() as int) == s);
    }
}

} // verus!
