//! `EXT-X-KEY`: how the media segments that follow are encrypted.

use vstd::prelude::*;
use crate::attribute::{
    all_pairs_valid, is_name, is_raw_value, join_pairs, lemma_bare_is_raw_value,
    lemma_line_append, lemma_named_empty, lemma_named_push, lemma_split_join,
    lemma_valid_push, named, pair_text, split_pairs, AttributePairs,
};
use crate::decryption_key::{
    lemma_key_attributes, lemma_key_from_attributes, lemma_key_names,
    lemma_key_version_monotone, DecryptionKey, DecryptionKeyView,
};
use crate::error::{invalid, Error, Reason};
use crate::text::{
    after_prefix, chars_to_string, lemma_after_prefix, str_to_chars, strip_prefix,
};
use crate::types::{method_text, EncryptionMethod, ProtocolVersion};

verus! {

/// An `EXT-X-KEY` tag.
#[derive(Debug, Clone, PartialEq, Eq, Hash)]
pub struct ExtXKey {
    key: Option<DecryptionKey>,
}

/// What an `EXT-X-KEY` tag holds, as contracts see it: a decryption key,
/// or none where the segments that follow are not encrypted.
pub struct ExtXKeyView {
    pub key: Option<DecryptionKeyView>,
}

impl View for ExtXKey {
    type V = ExtXKeyView;

    closed spec fn view(&self) -> ExtXKeyView {
        ExtXKeyView {
            key: match self.key {
                Some(key) => Some(key@),
                None => None,
            },
        }
    }
}

impl ExtXKeyView {
    /// The text that every `EXT-X-KEY` line begins with.
    pub open spec fn prefix() -> Seq<char> {
        "#EXT-X-KEY:"@
    }

    /// Whether the tag can be written: its key, if it has one, can be.
    pub open spec fn wf(self) -> bool {
        self.key is Some ==> self.key->0.wf()
    }

    /// The attributes of the tag, in the order in which they are written:
    /// those of the key, or `METHOD=NONE` without a key.
    pub open spec fn attributes(self) -> Seq<(Seq<char>, Seq<char>)> {
        match self.key {
            Some(key) => key.attributes(),
            None => Seq::empty().push(("METHOD"@, "NONE"@)),
        }
    }

    /// The line of the tag.
    pub open spec fn text(self) -> Seq<char> {
        Self::prefix() + join_pairs(self.attributes())
    }

    /// Whether a list of attributes holds one that `METHOD=NONE` excludes.
    pub open spec fn has_key_attribute(ps: Seq<(Seq<char>, Seq<char>)>) -> bool {
        named(ps, "URI"@).len() > 0 || named(ps, "IV"@).len() > 0 || named(ps, "KEYFORMAT"@).len()
            > 0 || named(ps, "KEYFORMATVERSIONS"@).len() > 0
    }

    /// The tag that a list of attributes describes. With a pair
    /// `METHOD=NONE` there is no key, and no attribute of a key may be
    /// present; without one the list must describe a key.
    pub open spec fn from_pairs(ps: Seq<(Seq<char>, Seq<char>)>) -> Result<ExtXKeyView, Error> {
        if named(ps, "METHOD"@).contains("NONE"@) {
            if Self::has_key_attribute(ps) {
                Err(invalid(Reason::ForbiddenCombination))
            } else {
                Ok(ExtXKeyView { key: None })
            }
        } else {
            match DecryptionKeyView::from_pairs(ps) {
                Ok(key) => Ok(ExtXKeyView { key: Some(key) }),
                Err(e) => Err(e),
            }
        }
    }

    /// The tag that a line spells.
    pub open spec fn from_text(s: Seq<char>) -> Result<ExtXKeyView, Error> {
        match after_prefix(s, Self::prefix()) {
            None => Err(invalid(Reason::PrefixMismatch)),
            Some(list) => match split_pairs(list) {
                None => Err(invalid(Reason::MalformedAttribute)),
                Some(ps) => Self::from_pairs(ps),
            },
        }
    }

    /// The protocol version that the tag asks for: that of its key, or 1
    /// without a key.
    pub open spec fn version(self) -> ProtocolVersion {
        match self.key {
            Some(key) => key.version(),
            None => ProtocolVersion::V1,
        }
    }
}

impl ExtXKey {
    /// Makes a new `ExtXKey` tag.
    pub fn new(key: DecryptionKey) -> (r: ExtXKey)
        ensures
            r@ == (ExtXKeyView { key: Some(key@) }),
    {
        ExtXKey { key: Some(key) }
    }

    /// Makes a new `ExtXKey` tag without a decryption key.
    ///
    /// This tag has the `METHOD=NONE` attribute.
    pub fn new_without_key() -> (r: ExtXKey)
        ensures
            r@ == (ExtXKeyView { key: None }),
    {
        ExtXKey { key: None }
    }

    /// Returns the decryption key for the following media segments and
    /// media initialization sections.
    pub fn key(&self) -> (r: Option<&DecryptionKey>)
        ensures
            match r {
                Some(key) => self@.key == Some(key@),
                None => self@.key is None,
            },
    {
        self.key.as_ref()
    }

    /// Returns the protocol compatibility version that this tag requires.
    pub fn requires_version(&self) -> (v: ProtocolVersion)
        ensures
            v == self@.version(),
    {
        match &self.key {
            Some(key) => key.requires_version(),
            None => ProtocolVersion::V1,
        }
    }

    /// Reads the line of an `EXT-X-KEY` tag.
    pub fn parse(s: &str) -> (r: Result<ExtXKey, Error>)
        ensures
            match r {
                Ok(tag) => ExtXKeyView::from_text(s@) == Ok::<ExtXKeyView, Error>(tag@),
                Err(e) => ExtXKeyView::from_text(s@) == Err::<ExtXKeyView, Error>(e),
            },
    {
        let chars = str_to_chars(s);
        let list = match strip_prefix(chars.as_slice(), "#EXT-X-KEY:") {
            Some(list) => list,
            None => {
                return Err(Error::invalid_input(Reason::PrefixMismatch));
            },
        };
        let pairs = AttributePairs::parse_chars(list)?;
        if pairs.has_value("METHOD", "NONE") {
            if pairs.has_name("URI") || pairs.has_name("IV") || pairs.has_name("KEYFORMAT")
                || pairs.has_name("KEYFORMATVERSIONS") {
                Err(Error::invalid_input(Reason::ForbiddenCombination))
            } else {
                Ok(ExtXKey { key: None })
            }
        } else {
            let key = DecryptionKey::from_pairs(&pairs)?;
            Ok(ExtXKey { key: Some(key) })
        }
    }

    /// Writes the line of the tag. The line parses to the tag again.
    pub fn render(&self) -> (r: String)
        ensures
            r@ == self@.text(),
            self@.wf(),
            ExtXKeyView::from_text(r@) == Ok::<ExtXKeyView, Error>(self@),
    {
        match &self.key {
            Some(key) => {
                key.known_valid();
            },
            None => {},
        }
        proof {
            lemma_key_tag_round_trip(self@);
        }
        let pairs = match &self.key {
            Some(key) => key.attributes(),
            None => {
                let mut pairs = AttributePairs::new();
                pairs.push("METHOD", str_to_chars("NONE"));
                pairs
            },
        };
        let mut buf = str_to_chars("#EXT-X-KEY:");
        pairs.push_text(&mut buf);
        chars_to_string(buf.as_slice())
    }
}

/// The value `NONE` can stand in a list and names no encryption method.
pub proof fn lemma_none_text()
    ensures
        is_raw_value("NONE"@),
        "NONE"@.len() == 4,
        forall|m: EncryptionMethod| method_text(m) != "NONE"@,
{
    reveal_strlit("NONE");
    reveal_strlit("AES-128");
    reveal_strlit("SAMPLE-AES");
    let s = "NONE"@;
    assert forall|i: int| 0 <= i < s.len() implies s[i] != ',' && s[i] != '"' by {}
    lemma_bare_is_raw_value(s);
    assert("AES-128"@.len() == 7);
    assert("SAMPLE-AES"@.len() == 10);
}

/// Parsing the line that a tag renders gives the tag back.
pub proof fn lemma_key_tag_round_trip(tag: ExtXKeyView)
    requires
        tag.wf(),
    ensures
        ExtXKeyView::from_text(tag.text()) == Ok::<ExtXKeyView, Error>(tag),
{
    let ps = tag.attributes();
    lemma_key_names();
    lemma_none_text();
    lemma_named_empty();
    match tag.key {
        Some(key) => {
            lemma_key_attributes(key);
            lemma_key_from_attributes(key);
            let methods = named(ps, "METHOD"@);
            assert(!methods.contains("NONE"@)) by {
                if methods.contains("NONE"@) {
                    let i = choose|i: int| 0 <= i < methods.len() && methods[i] == "NONE"@;
                    assert(methods[i] == method_text(key.method));
                }
            }
        },
        None => {
            let none = Seq::<(Seq<char>, Seq<char>)>::empty();
            lemma_named_push(none, ("METHOD"@, "NONE"@));
            assert(all_pairs_valid(none));
            lemma_valid_push(none, ("METHOD"@, "NONE"@));
            assert(named(ps, "METHOD"@)[0] == "NONE"@);
        },
    }
    lemma_split_join(ps);
    lemma_after_prefix(ExtXKeyView::prefix(), join_pairs(ps));
}

/// A line that does not begin with the prefix of the tag is refused.
pub proof fn lemma_key_tag_prefix_rejection(s: Seq<char>)
    requires
        !ExtXKeyView::prefix().is_prefix_of(s),
    ensures
        ExtXKeyView::from_text(s) == Err::<ExtXKeyView, Error>(invalid(Reason::PrefixMismatch)),
{
}

/// One more attribute at the end of a line that parses, with a name that
/// the tag does not know, changes nothing in what the line parses to.
pub proof fn lemma_key_tag_unknown_attribute(s: Seq<char>, name: Seq<char>, value: Seq<char>)
    requires
        ExtXKeyView::from_text(s) is Ok,
        s.last() != ',',
        is_name(name),
        is_raw_value(value),
        name != "METHOD"@,
        name != "URI"@,
        name != "IV"@,
        name != "KEYFORMAT"@,
        name != "KEYFORMATVERSIONS"@,
    ensures
        ExtXKeyView::from_text(s + seq![','] + pair_text((name, value))) == ExtXKeyView::from_text(
            s,
        ),
{
    let prefix = ExtXKeyView::prefix();
    let ps = split_pairs(after_prefix(s, prefix)->0)->0;
    lemma_named_empty();
    assert(ps.len() > 0) by {
        if ps.len() == 0 {
            assert(ps =~= Seq::<(Seq<char>, Seq<char>)>::empty());
            assert(!named(ps, "METHOD"@).contains("NONE"@));
        }
    }
    lemma_line_append(s, prefix, name, value);
    lemma_named_push(ps, (name, value));
}

/// A tag whose key has every optional attribute that the key of another
/// has, the other having a key only if this one has, asks for no earlier
/// protocol version than the other.
pub proof fn lemma_key_tag_version_monotone(fewer: ExtXKeyView, more: ExtXKeyView)
    requires
        fewer.key is Some ==> more.key is Some,
        fewer.key is Some ==> (fewer.key->0.iv is Some ==> more.key->0.iv is Some),
        fewer.key is Some ==> (fewer.key->0.key_format is Some ==> more.key->0.key_format is Some),
        fewer.key is Some ==> (fewer.key->0.key_format_versions is Some
            ==> more.key->0.key_format_versions is Some),
    ensures
        fewer.version().number() <= more.version().number(),
{
    if fewer.key is Some {
        lemma_key_version_monotone(fewer.key->0, more.key->0);
    }
}

/// Rendering depends on nothing but what the tag holds.
pub proof fn lemma_key_tag_render_deterministic(a: ExtXKeyView, b: ExtXKeyView)
    requires
        a == b,
    ensures
        a.text() == b.text(),
{
}

} // verus!
