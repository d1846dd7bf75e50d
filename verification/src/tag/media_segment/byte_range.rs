//! `EXT-X-BYTERANGE`: the part of a resource that a media segment is.

use vstd::prelude::*;
use crate::attribute::Codec;
use crate::error::{invalid, Error, Reason};
use crate::text::{
    after_prefix, chars_to_string, lemma_after_prefix, str_to_chars, strip_prefix,
};
use crate::types::{
    byte_range_from_text, byte_range_text, lemma_byte_range_round_trip, ByteRange,
    ProtocolVersion,
};

verus! {

/// An `EXT-X-BYTERANGE` tag.
#[derive(Debug, Clone, Copy, PartialEq, Eq, Hash, Structural)]
pub struct ExtXByteRange {
    range: ByteRange,
}

impl View for ExtXByteRange {
    type V = ByteRange;

    closed spec fn view(&self) -> ByteRange {
        self.range
    }
}

/// The text that every `EXT-X-BYTERANGE` line begins with.
pub open spec fn byte_range_prefix() -> Seq<char> {
    "#EXT-X-BYTERANGE:"@
}

/// The line of the tag with the range `range`.
pub open spec fn byte_range_line(range: ByteRange) -> Seq<char> {
    byte_range_prefix() + byte_range_text(range)
}

/// The range of the tag that a line spells.
pub open spec fn byte_range_from_line(s: Seq<char>) -> Result<ByteRange, Error> {
    match after_prefix(s, byte_range_prefix()) {
        None => Err(invalid(Reason::PrefixMismatch)),
        Some(rest) => match byte_range_from_text(rest) {
            None => Err(invalid(Reason::InvalidValue)),
            Some(range) => Ok(range),
        },
    }
}

impl ExtXByteRange {
    /// Makes a new `ExtXByteRange` tag.
    pub fn new(range: ByteRange) -> (r: ExtXByteRange)
        ensures
            r@ == range,
    {
        ExtXByteRange { range }
    }

    /// Returns the range of the associated media segment.
    pub fn range(&self) -> (r: ByteRange)
        ensures
            r == self@,
    {
        self.range
    }

    /// Returns the protocol compatibility version that this tag requires.
    pub fn requires_version(&self) -> (v: ProtocolVersion)
        ensures
            v == ProtocolVersion::V4,
    {
        ProtocolVersion::V4
    }

    /// Reads the line of an `EXT-X-BYTERANGE` tag.
    pub fn parse(s: &str) -> (r: Result<ExtXByteRange, Error>)
        ensures
            match r {
                Ok(tag) => byte_range_from_line(s@) == Ok::<ByteRange, Error>(tag@),
                Err(e) => byte_range_from_line(s@) == Err::<ByteRange, Error>(e),
            },
    {
        let chars = str_to_chars(s);
        let rest = match strip_prefix(chars.as_slice(), "#EXT-X-BYTERANGE:") {
            Some(rest) => rest,
            None => {
                return Err(Error::invalid_input(Reason::PrefixMismatch));
            },
        };
        let range = ByteRange::parse_chars(rest)?;
        Ok(ExtXByteRange { range })
    }

    /// Writes the line of the tag. The line parses to the tag again.
    pub fn render(&self) -> (r: String)
        ensures
            r@ == byte_range_line(self@),
            byte_range_from_line(r@) == Ok::<ByteRange, Error>(self@),
    {
        proof {
            lemma_byte_range_line_round_trip(self@);
        }
        let mut buf = str_to_chars("#EXT-X-BYTERANGE:");
        self.range.push_text(&mut buf);
        chars_to_string(buf.as_slice())
    }
}

/// Parsing the line that a tag renders gives the tag back.
pub proof fn lemma_byte_range_line_round_trip(range: ByteRange)
    ensures
        byte_range_from_line(byte_range_line(range)) == Ok::<ByteRange, Error>(range),
{
    lemma_after_prefix(byte_range_prefix(), byte_range_text(range));
    lemma_byte_range_round_trip(range);
}

/// A line that does not begin with the prefix of the tag is refused.
pub proof fn lemma_byte_range_prefix_rejection(s: Seq<char>)
    requires
        !byte_range_prefix().is_prefix_of(s),
    ensures
        byte_range_from_line(s) == Err::<ByteRange, Error>(invalid(Reason::PrefixMismatch)),
{
}

} // verus!
