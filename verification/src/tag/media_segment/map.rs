//! `EXT-X-MAP`: where the media initialization section of the segments
//! that follow is found.

use vstd::prelude::*;
use crate::attribute::{
    all_decodable, all_pairs_valid, is_name, is_name_char, is_raw_value, join_pairs,
    last_decoded, lemma_bare_is_raw_value, lemma_named_empty, lemma_named_push,
    lemma_split_append, lemma_split_join, named, pair_text, read_attribute, split_pairs,
    AttributePairs,
};
use crate::error::{invalid, Error, Reason};
use crate::quoted::{
    lemma_quoted_is_raw_value, lemma_quoted_round_trip, quoted_text, QuotedString,
};
use crate::text::{
    after_prefix, chars_to_string, lemma_after_prefix, lemma_prefix_split, str_to_chars,
    strip_prefix,
};
use crate::types::{
    byte_range_text, lemma_byte_range_round_trip, lemma_byte_range_text_bare, ByteRange,
    ProtocolVersion,
};

verus! {

/// An `EXT-X-MAP` tag.
#[derive(Debug, Clone, PartialEq, Eq, Hash)]
pub struct ExtXMap {
    uri: QuotedString,
    range: Option<ByteRange>,
}

/// What an `EXT-X-MAP` tag holds, as contracts see it.
pub struct ExtXMapView {
    pub uri: Seq<char>,
    pub range: Option<ByteRange>,
}

impl View for ExtXMap {
    type V = ExtXMapView;

    closed spec fn view(&self) -> ExtXMapView {
        ExtXMapView { uri: self.uri@, range: self.range }
    }
}

impl ExtXMapView {
    /// The text that every `EXT-X-MAP` line begins with.
    pub open spec fn prefix() -> Seq<char> {
        "#EXT-X-MAP:"@
    }

    /// Whether the tag can be written: its URI holds no `"`.
    pub open spec fn wf(self) -> bool {
        !self.uri.contains('"')
    }

    /// The attributes of the tag, in the order in which they are written.
    pub open spec fn attributes(self) -> Seq<(Seq<char>, Seq<char>)> {
        let required = Seq::empty().push(("URI"@, quoted_text(self.uri)));
        match self.range {
            Some(range) => required.push(("BYTERANGE"@, byte_range_text(range))),
            None => required,
        }
    }

    /// The line of the tag.
    pub open spec fn text(self) -> Seq<char> {
        Self::prefix() + join_pairs(self.attributes())
    }

    /// The tag that a list of attributes describes. Each `URI` must be a
    /// quoted string and each `BYTERANGE` a byte range; the last of each
    /// counts; a `URI` is required; other attributes are passed over.
    pub open spec fn from_pairs(ps: Seq<(Seq<char>, Seq<char>)>) -> Result<ExtXMapView, Error> {
        let uri = named(ps, "URI"@);
        let range = named(ps, "BYTERANGE"@);
        if !all_decodable::<QuotedString>(uri) || !all_decodable::<ByteRange>(range) {
            Err(invalid(Reason::InvalidValue))
        } else if uri.len() == 0 {
            Err(invalid(Reason::MissingField))
        } else {
            Ok(
                ExtXMapView {
                    uri: last_decoded::<QuotedString>(uri)->0,
                    range: last_decoded::<ByteRange>(range),
                },
            )
        }
    }

    /// The tag that a line spells.
    pub open spec fn from_text(s: Seq<char>) -> Result<ExtXMapView, Error> {
        match after_prefix(s, Self::prefix()) {
            None => Err(invalid(Reason::PrefixMismatch)),
            Some(list) => match split_pairs(list) {
                None => Err(invalid(Reason::MalformedAttribute)),
                Some(ps) => Self::from_pairs(ps),
            },
        }
    }

    /// The protocol version that the tag asks for.
    pub open spec fn version(self) -> ProtocolVersion {
        ProtocolVersion::V6
    }
}

impl ExtXMap {
    /// Makes a new `ExtXMap` tag.
    pub fn new(uri: QuotedString) -> (r: ExtXMap)
        ensures
            r@ == (ExtXMapView { uri: uri@, range: None }),
    {
        ExtXMap { uri, range: None }
    }

    /// Makes a new `ExtXMap` tag with the given range.
    pub fn with_range(uri: QuotedString, range: ByteRange) -> (r: ExtXMap)
        ensures
            r@ == (ExtXMapView { uri: uri@, range: Some(range) }),
    {
        ExtXMap { uri, range: Some(range) }
    }

    /// Returns the URI that identifies a resource that contains the media
    /// initialization section.
    pub fn uri(&self) -> (r: &QuotedString)
        ensures
            r@ == self@.uri,
    {
        &self.uri
    }

    /// Returns the range of the media initialization section.
    pub fn range(&self) -> (r: Option<ByteRange>)
        ensures
            r == self@.range,
    {
        self.range
    }

    /// Returns the protocol compatibility version that this tag requires.
    pub fn requires_version(&self) -> (v: ProtocolVersion)
        ensures
            v == self@.version(),
    {
        ProtocolVersion::V6
    }

    /// Reads the line of an `EXT-X-MAP` tag.
    pub fn parse(s: &str) -> (r: Result<ExtXMap, Error>)
        ensures
            match r {
                Ok(tag) => ExtXMapView::from_text(s@) == Ok::<ExtXMapView, Error>(tag@),
                Err(e) => ExtXMapView::from_text(s@) == Err::<ExtXMapView, Error>(e),
            },
    {
        let chars = str_to_chars(s);
        let list = match strip_prefix(chars.as_slice(), "#EXT-X-MAP:") {
            Some(list) => list,
            None => {
                return Err(Error::invalid_input(Reason::PrefixMismatch));
            },
        };
        let pairs = AttributePairs::parse_chars(list)?;
        let uri = read_attribute::<QuotedString>(&pairs, "URI")?;
        let range = read_attribute::<ByteRange>(&pairs, "BYTERANGE")?;
        match uri {
            Some(uri) => Ok(ExtXMap { uri, range }),
            None => Err(Error::invalid_input(Reason::MissingField)),
        }
    }

    /// Writes the line of the tag. The line parses to the tag again.
    pub fn render(&self) -> (r: String)
        ensures
            r@ == self@.text(),
            self@.wf(),
            ExtXMapView::from_text(r@) == Ok::<ExtXMapView, Error>(self@),
    {
        proof {
            use_type_invariant(&self.uri);
            self.uri.lemma_wf();
            lemma_map_round_trip(self@);
        }
        let mut pairs = AttributePairs::new();
        pairs.push("URI", self.uri.to_chars());
        match self.range {
            Some(range) => {
                pairs.push("BYTERANGE", range.to_chars());
            },
            None => {},
        }
        let mut buf = str_to_chars("#EXT-X-MAP:");
        pairs.push_text(&mut buf);
        chars_to_string(buf.as_slice())
    }
}

/// The names of the attributes of the tag are attribute names, and differ.
pub proof fn lemma_map_names()
    ensures
        is_name("URI"@),
        is_name("BYTERANGE"@),
        "URI"@ != "BYTERANGE"@,
{
    reveal_strlit("URI");
    reveal_strlit("BYTERANGE");
    assert("URI"@.len() == 3);
    assert("BYTERANGE"@.len() == 9);
    assert forall|i: int| 0 <= i < "URI"@.len() implies is_name_char(#[trigger] "URI"@[i]) by {}
    assert forall|i: int| 0 <= i < "BYTERANGE"@.len() implies is_name_char(
        #[trigger] "BYTERANGE"@[i],
    ) by {}
}

/// Parsing the line that a tag renders gives the tag back.
pub proof fn lemma_map_round_trip(tag: ExtXMapView)
    requires
        tag.wf(),
    ensures
        ExtXMapView::from_text(tag.text()) == Ok::<ExtXMapView, Error>(tag),
{
    let ps = tag.attributes();
    let none = Seq::<(Seq<char>, Seq<char>)>::empty();
    let first = ("URI"@, quoted_text(tag.uri));
    lemma_map_names();
    lemma_quoted_is_raw_value(tag.uri);
    lemma_quoted_round_trip(tag.uri);
    lemma_named_empty();
    lemma_named_push(none, first);
    match tag.range {
        Some(range) => {
            let second = ("BYTERANGE"@, byte_range_text(range));
            lemma_byte_range_text_bare(range);
            lemma_bare_is_raw_value(byte_range_text(range));
            lemma_byte_range_round_trip(range);
            lemma_named_push(none.push(first), second);
            assert(named(ps, "URI"@) =~= seq![quoted_text(tag.uri)]);
            assert(named(ps, "BYTERANGE"@) =~= seq![byte_range_text(range)]);
        },
        None => {
            assert(named(ps, "URI"@) =~= seq![quoted_text(tag.uri)]);
            assert(named(ps, "BYTERANGE"@).len() == 0);
        },
    }
    assert(all_pairs_valid(ps));
    lemma_split_join(ps);
    lemma_after_prefix(ExtXMapView::prefix(), join_pairs(ps));
}

/// A line that does not begin with the prefix of the tag is refused.
pub proof fn lemma_map_prefix_rejection(s: Seq<char>)
    requires
        !ExtXMapView::prefix().is_prefix_of(s),
    ensures
        ExtXMapView::from_text(s) == Err::<ExtXMapView, Error>(invalid(Reason::PrefixMismatch)),
{
}

/// One more attribute at the end of a line that parses, with a name that
/// the tag does not know, changes nothing in what the line parses to.
pub proof fn lemma_map_unknown_attribute(s: Seq<char>, name: Seq<char>, value: Seq<char>)
    requires
        ExtXMapView::from_text(s) is Ok,
        s.last() != ',',
        is_name(name),
        is_raw_value(value),
        name != "URI"@,
        name != "BYTERANGE"@,
    ensures
        ExtXMapView::from_text(s + seq![','] + pair_text((name, value))) == ExtXMapView::from_text(
            s,
        ),
{
    let prefix = ExtXMapView::prefix();
    let list = after_prefix(s, prefix)->0;
    let ps = split_pairs(list)->0;
    lemma_prefix_split(s, prefix);
    lemma_named_empty();
    assert(list.len() > 0) by {
        if list.len() == 0 {
            assert(ps.len() == 0);
        }
    }
    assert(list.last() == s.last());
    lemma_split_append(list, name, value);
    let more = list + seq![','] + pair_text((name, value));
    assert(s + seq![','] + pair_text((name, value)) =~= prefix + more);
    lemma_after_prefix(prefix, more);
    lemma_named_push(ps, (name, value));
}

/// Rendering depends on nothing but what the tag holds.
pub proof fn lemma_map_render_deterministic(a: ExtXMapView, b: ExtXMapView)
    requires
        a == b,
    ensures
        a.text() == b.text(),
{
}

} // verus!
