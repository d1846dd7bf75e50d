//! Any tag of a media segment, for callers that take the lines of a
//! playlist as they come.

use vstd::prelude::*;
use crate::date::DateTime;
use crate::error::{invalid, Error, Reason};
use crate::tag::media_segment::byte_range::{
    byte_range_from_line, byte_range_line, byte_range_prefix, lemma_byte_range_line_round_trip,
    ExtXByteRange,
};
use crate::tag::media_segment::date_range::{
    lemma_date_range_round_trip, ExtXDateRange, ExtXDateRangeView,
};
use crate::tag::media_segment::discontinuity::{discontinuity_line, ExtXDiscontinuity};
use crate::tag::media_segment::inf::{lemma_inf_round_trip, ExtInf, ExtInfView};
use crate::tag::media_segment::key::{lemma_key_tag_round_trip, ExtXKey, ExtXKeyView};
use crate::tag::media_segment::map::{lemma_map_round_trip, ExtXMap, ExtXMapView};
use crate::tag::media_segment::program_date_time::{
    lemma_program_date_time_round_trip, program_date_time_from_line, program_date_time_line,
    program_date_time_prefix, ExtXProgramDateTime,
};
use crate::text::{after_prefix, is_word, lemma_after_prefix, str_to_chars, strip_prefix};
use crate::types::{ByteRange, ProtocolVersion};

verus! {

/// A tag of a media segment.
#[derive(Debug, Clone, PartialEq, Eq, Hash)]
pub enum MediaSegmentTag {
    ExtInf(ExtInf),
    ExtXByteRange(ExtXByteRange),
    ExtXDateRange(ExtXDateRange),
    ExtXDiscontinuity(ExtXDiscontinuity),
    ExtXKey(ExtXKey),
    ExtXMap(ExtXMap),
    ExtXProgramDateTime(ExtXProgramDateTime),
}

/// What a tag of a media segment holds, as contracts see it.
pub enum MediaSegmentTagView {
    ExtInf(ExtInfView),
    ExtXByteRange(ByteRange),
    ExtXDateRange(ExtXDateRangeView),
    ExtXDiscontinuity,
    ExtXKey(ExtXKeyView),
    ExtXMap(ExtXMapView),
    ExtXProgramDateTime(DateTime),
}

impl View for MediaSegmentTag {
    type V = MediaSegmentTagView;

    open spec fn view(&self) -> MediaSegmentTagView {
        match self {
            MediaSegmentTag::ExtInf(t) => MediaSegmentTagView::ExtInf(t@),
            MediaSegmentTag::ExtXByteRange(t) => MediaSegmentTagView::ExtXByteRange(t@),
            MediaSegmentTag::ExtXDateRange(t) => MediaSegmentTagView::ExtXDateRange(t@),
            MediaSegmentTag::ExtXDiscontinuity(_) => MediaSegmentTagView::ExtXDiscontinuity,
            MediaSegmentTag::ExtXKey(t) => MediaSegmentTagView::ExtXKey(t@),
            MediaSegmentTag::ExtXMap(t) => MediaSegmentTagView::ExtXMap(t@),
            MediaSegmentTag::ExtXProgramDateTime(t) => MediaSegmentTagView::ExtXProgramDateTime(
                t@,
            ),
        }
    }
}

/// The tag of a media segment that a parsed tag of one kind is.
pub open spec fn as_segment_tag<T>(
    r: Result<T, Error>,
    wrap: spec_fn(T) -> MediaSegmentTagView,
) -> Result<MediaSegmentTagView, Error> {
    match r {
        Ok(t) => Ok(wrap(t)),
        Err(e) => Err(e),
    }
}

impl MediaSegmentTagView {
    /// Whether the tag can be written.
    pub open spec fn wf(self) -> bool {
        match self {
            MediaSegmentTagView::ExtInf(t) => t.wf(),
            MediaSegmentTagView::ExtXByteRange(_) => true,
            MediaSegmentTagView::ExtXDateRange(t) => t.wf(),
            MediaSegmentTagView::ExtXDiscontinuity => true,
            MediaSegmentTagView::ExtXKey(t) => t.wf(),
            MediaSegmentTagView::ExtXMap(t) => t.wf(),
            MediaSegmentTagView::ExtXProgramDateTime(t) => t.wf(),
        }
    }

    /// The line of the tag.
    pub open spec fn text(self) -> Seq<char> {
        match self {
            MediaSegmentTagView::ExtInf(t) => t.text(),
            MediaSegmentTagView::ExtXByteRange(t) => byte_range_line(t),
            MediaSegmentTagView::ExtXDateRange(t) => t.text(),
            MediaSegmentTagView::ExtXDiscontinuity => discontinuity_line(),
            MediaSegmentTagView::ExtXKey(t) => t.text(),
            MediaSegmentTagView::ExtXMap(t) => t.text(),
            MediaSegmentTagView::ExtXProgramDateTime(t) => program_date_time_line(t),
        }
    }

    /// The protocol version that the tag asks for.
    pub open spec fn version(self) -> ProtocolVersion {
        match self {
            MediaSegmentTagView::ExtInf(t) => t.version(),
            MediaSegmentTagView::ExtXByteRange(_) => ProtocolVersion::V4,
            MediaSegmentTagView::ExtXDateRange(t) => t.version(),
            MediaSegmentTagView::ExtXDiscontinuity => ProtocolVersion::V1,
            MediaSegmentTagView::ExtXKey(t) => t.version(),
            MediaSegmentTagView::ExtXMap(t) => t.version(),
            MediaSegmentTagView::ExtXProgramDateTime(_) => ProtocolVersion::V1,
        }
    }

    /// The tag that a line spells: that of the kind whose prefix the line
    /// begins with.
    pub open spec fn from_text(s: Seq<char>) -> Result<MediaSegmentTagView, Error> {
        if after_prefix(s, ExtInfView::prefix()) is Some {
            as_segment_tag(ExtInfView::from_text(s), |t| MediaSegmentTagView::ExtInf(t))
        } else if after_prefix(s, byte_range_prefix()) is Some {
            as_segment_tag(byte_range_from_line(s), |t| MediaSegmentTagView::ExtXByteRange(t))
        } else if after_prefix(s, ExtXDateRangeView::prefix()) is Some {
            as_segment_tag(
                ExtXDateRangeView::from_text(s),
                |t| MediaSegmentTagView::ExtXDateRange(t),
            )
        } else if s == discontinuity_line() {
            Ok(MediaSegmentTagView::ExtXDiscontinuity)
        } else if after_prefix(s, ExtXKeyView::prefix()) is Some {
            as_segment_tag(ExtXKeyView::from_text(s), |t| MediaSegmentTagView::ExtXKey(t))
        } else if after_prefix(s, ExtXMapView::prefix()) is Some {
            as_segment_tag(ExtXMapView::from_text(s), |t| MediaSegmentTagView::ExtXMap(t))
        } else if after_prefix(s, program_date_time_prefix()) is Some {
            as_segment_tag(
                program_date_time_from_line(s),
                |t| MediaSegmentTagView::ExtXProgramDateTime(t),
            )
        } else {
            Err(invalid(Reason::PrefixMismatch))
        }
    }
}

impl MediaSegmentTag {
    /// Returns the protocol compatibility version that this tag requires.
    pub fn requires_version(&self) -> (v: ProtocolVersion)
        ensures
            v == self@.version(),
    {
        match self {
            MediaSegmentTag::ExtInf(t) => t.requires_version(),
            MediaSegmentTag::ExtXByteRange(t) => t.requires_version(),
            MediaSegmentTag::ExtXDateRange(t) => t.requires_version(),
            MediaSegmentTag::ExtXDiscontinuity(t) => t.requires_version(),
            MediaSegmentTag::ExtXKey(t) => t.requires_version(),
            MediaSegmentTag::ExtXMap(t) => t.requires_version(),
            MediaSegmentTag::ExtXProgramDateTime(t) => t.requires_version(),
        }
    }

    /// Reads the line of a tag of a media segment.
    pub fn parse(s: &str) -> (r: Result<MediaSegmentTag, Error>)
        ensures
            match r {
                Ok(tag) => MediaSegmentTagView::from_text(s@) == Ok::<MediaSegmentTagView, Error>(
                    tag@,
                ),
                Err(e) => MediaSegmentTagView::from_text(s@) == Err::<MediaSegmentTagView, Error>(
                    e,
                ),
            },
    {
        let chars = str_to_chars(s);
        let line = chars.as_slice();
        if strip_prefix(line, "#EXTINF:").is_some() {
            Ok(MediaSegmentTag::ExtInf(ExtInf::parse(s)?))
        } else if strip_prefix(line, "#EXT-X-BYTERANGE:").is_some() {
            Ok(MediaSegmentTag::ExtXByteRange(ExtXByteRange::parse(s)?))
        } else if strip_prefix(line, "#EXT-X-DATERANGE:").is_some() {
            Ok(MediaSegmentTag::ExtXDateRange(ExtXDateRange::parse(s)?))
        } else if is_word(line, "#EXT-X-DISCONTINUITY") {
            Ok(MediaSegmentTag::ExtXDiscontinuity(ExtXDiscontinuity))
        } else if strip_prefix(line, "#EXT-X-KEY:").is_some() {
            Ok(MediaSegmentTag::ExtXKey(ExtXKey::parse(s)?))
        } else if strip_prefix(line, "#EXT-X-MAP:").is_some() {
            Ok(MediaSegmentTag::ExtXMap(ExtXMap::parse(s)?))
        } else if strip_prefix(line, "#EXT-X-PROGRAM-DATE-TIME:").is_some() {
            Ok(MediaSegmentTag::ExtXProgramDateTime(ExtXProgramDateTime::parse(s)?))
        } else {
            Err(Error::invalid_input(Reason::PrefixMismatch))
        }
    }

    /// Writes the line of the tag. The line parses to the tag again.
    pub fn render(&self) -> (r: String)
        ensures
            r@ == self@.text(),
            self@.wf(),
            MediaSegmentTagView::from_text(r@) == Ok::<MediaSegmentTagView, Error>(self@),
    {
        let r = match self {
            MediaSegmentTag::ExtInf(t) => t.render(),
            MediaSegmentTag::ExtXByteRange(t) => t.render(),
            MediaSegmentTag::ExtXDateRange(t) => t.render(),
            MediaSegmentTag::ExtXDiscontinuity(t) => t.render(),
            MediaSegmentTag::ExtXKey(t) => t.render(),
            MediaSegmentTag::ExtXMap(t) => t.render(),
            MediaSegmentTag::ExtXProgramDateTime(t) => t.render(),
        };
        proof {
            lemma_segment_tag_round_trip(self@);
        }
        r
    }
}

/// What a line that begins with one of the prefixes holds at the places
/// where the prefixes differ.
proof fn lemma_prefix_marks(s: Seq<char>)
    ensures
        after_prefix(s, ExtInfView::prefix()) is Some ==> s.len() >= 8 && s[4] == 'I',
        after_prefix(s, byte_range_prefix()) is Some ==> s.len() >= 9 && s[4] == '-' && s[7]
            == 'B',
        after_prefix(s, ExtXDateRangeView::prefix()) is Some ==> s.len() >= 9 && s[4] == '-'
            && s[7] == 'D' && s[8] == 'A',
        s == discontinuity_line() ==> s.len() >= 9 && s[4] == '-' && s[7] == 'D' && s[8] == 'I',
        after_prefix(s, ExtXKeyView::prefix()) is Some ==> s.len() >= 9 && s[4] == '-' && s[7]
            == 'K',
        after_prefix(s, ExtXMapView::prefix()) is Some ==> s.len() >= 9 && s[4] == '-' && s[7]
            == 'M',
        after_prefix(s, program_date_time_prefix()) is Some ==> s.len() >= 9 && s[4] == '-'
            && s[7] == 'P',
{
    reveal_strlit("#EXTINF:");
    reveal_strlit("#EXT-X-BYTERANGE:");
    reveal_strlit("#EXT-X-DATERANGE:");
    reveal_strlit("#EXT-X-DISCONTINUITY");
    reveal_strlit("#EXT-X-KEY:");
    reveal_strlit("#EXT-X-MAP:");
    reveal_strlit("#EXT-X-PROGRAM-DATE-TIME:");
    lemma_prefix_chars(s, ExtInfView::prefix(), 4);
    lemma_prefix_chars(s, byte_range_prefix(), 4);
    lemma_prefix_chars(s, byte_range_prefix(), 7);
    lemma_prefix_chars(s, ExtXDateRangeView::prefix(), 4);
    lemma_prefix_chars(s, ExtXDateRangeView::prefix(), 7);
    lemma_prefix_chars(s, ExtXDateRangeView::prefix(), 8);
    lemma_prefix_chars(s, ExtXKeyView::prefix(), 4);
    lemma_prefix_chars(s, ExtXKeyView::prefix(), 7);
    lemma_prefix_chars(s, ExtXMapView::prefix(), 4);
    lemma_prefix_chars(s, ExtXMapView::prefix(), 7);
    lemma_prefix_chars(s, program_date_time_prefix(), 4);
    lemma_prefix_chars(s, program_date_time_prefix(), 7);
}

/// A line that begins with a prefix holds the characters of the prefix.
proof fn lemma_prefix_chars(s: Seq<char>, prefix: Seq<char>, i: int)
    requires
        0 <= i < prefix.len(),
    ensures
        after_prefix(s, prefix) is Some ==> s.len() >= prefix.len() && s[i] == prefix[i],
{
    if after_prefix(s, prefix) is Some {
        assert(s.subrange(0, prefix.len() as int)[i] == s[i]);
    }
}

/// Parsing the line that a tag renders gives the tag back.
pub proof fn lemma_segment_tag_round_trip(tag: MediaSegmentTagView)
    requires
        tag.wf(),
    ensures
        MediaSegmentTagView::from_text(tag.text()) == Ok::<MediaSegmentTagView, Error>(tag),
{
    let s = tag.text();
    lemma_prefix_marks(s);
    match tag {
        MediaSegmentTagView::ExtInf(t) => {
            lemma_inf_round_trip(t);
        },
        MediaSegmentTagView::ExtXByteRange(t) => {
            lemma_byte_range_line_round_trip(t);
        },
        MediaSegmentTagView::ExtXDateRange(t) => {
            lemma_date_range_round_trip(t);
        },
        MediaSegmentTagView::ExtXDiscontinuity => {},
        MediaSegmentTagView::ExtXKey(t) => {
            lemma_key_tag_round_trip(t);
        },
        MediaSegmentTagView::ExtXMap(t) => {
            lemma_map_round_trip(t);
        },
        MediaSegmentTagView::ExtXProgramDateTime(t) => {
            lemma_program_date_time_round_trip(t);
        },
    }
}

/// A line that begins with the prefix of no tag is refused.
pub proof fn lemma_segment_tag_prefix_rejection(s: Seq<char>)
    requires
        !ExtInfView::prefix().is_prefix_of(s),
        !byte_range_prefix().is_prefix_of(s),
        !ExtXDateRangeView::prefix().is_prefix_of(s),
        !discontinuity_line().is_prefix_of(s),
        !ExtXKeyView::prefix().is_prefix_of(s),
        !ExtXMapView::prefix().is_prefix_of(s),
        !program_date_time_prefix().is_prefix_of(s),
    ensures
        MediaSegmentTagView::from_text(s) == Err::<MediaSegmentTagView, Error>(
            invalid(Reason::PrefixMismatch),
        ),
{
    if s == discontinuity_line() {
        assert(s.subrange(0, s.len() as int) == s);
    }
}

/// Rendering depends on nothing but what the tag holds.
pub proof fn lemma_segment_tag_render_deterministic(a: MediaSegmentTagView, b: MediaSegmentTagView)
    requires
        a == b,
    ensures
        a.text() == b.text(),
{
}

/// A tag of any kind but a key tag or a duration tag asks for the same
/// protocol version whatever it holds; a key tag asks for no earlier
/// version than a key tag without a key, and a duration tag for none
/// before the first.
pub proof fn lemma_segment_tag_version(tag: MediaSegmentTagView)
    ensures
        tag is ExtXByteRange ==> tag.version() == ProtocolVersion::V4,
        tag is ExtXDateRange ==> tag.version() == ProtocolVersion::V1,
        tag is ExtXDiscontinuity ==> tag.version() == ProtocolVersion::V1,
        tag is ExtXMap ==> tag.version() == ProtocolVersion::V6,
        tag is ExtXProgramDateTime ==> tag.version() == ProtocolVersion::V1,
        tag is ExtXKey ==> tag.version().number() >= (ExtXKeyView { key: None }).version().number(),
        tag is ExtInf ==> tag.version().number() >= 1,
{
}

} // verus!
