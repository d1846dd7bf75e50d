//! Decryption keys: how the segments that follow a key tag are encrypted,
//! and where the key is found.

use vstd::prelude::*;
use crate::attribute::{
    all_decodable, all_pairs_valid, is_name, is_name_char, join_pairs, last_decoded,
    lemma_bare_is_raw_value, lemma_named_empty, lemma_named_push, lemma_named_push_optional,
    lemma_split_join, lemma_valid_push, lemma_valid_push_optional, named, push_optional,
    read_attribute, split_pairs, value_of, AttributePairs,
};
use crate::error::{invalid, Error, Reason};
use crate::hex::{
    hex_text, lemma_hex_round_trip, lemma_hex_text_bare, HexadecimalSequence,
};
use crate::quoted::{
    lemma_quoted_is_raw_value, lemma_quoted_round_trip, quoted_is_quotable, quoted_text,
    QuotedString,
};
use crate::types::{lemma_method_text, method_text, EncryptionMethod, ProtocolVersion};

verus! {

/// A decryption key.
#[derive(Debug, Clone, PartialEq, Eq, Hash)]
pub struct DecryptionKey {
    pub method: EncryptionMethod,
    pub uri: QuotedString,
    pub iv: Option<HexadecimalSequence>,
    pub key_format: Option<QuotedString>,
    pub key_format_versions: Option<QuotedString>,
}

/// What a decryption key holds, as contracts see it.
pub struct DecryptionKeyView {
    pub method: EncryptionMethod,
    pub uri: Seq<char>,
    pub iv: Option<Seq<u8>>,
    pub key_format: Option<Seq<char>>,
    pub key_format_versions: Option<Seq<char>>,
}

impl View for DecryptionKey {
    type V = DecryptionKeyView;

    open spec fn view(&self) -> DecryptionKeyView {
        DecryptionKeyView {
            method: self.method,
            uri: self.uri@,
            iv: value_of(self.iv),
            key_format: value_of(self.key_format),
            key_format_versions: value_of(self.key_format_versions),
        }
    }
}

/// The text of an optional string between quotes.
pub open spec fn optional_quoted(v: Option<Seq<char>>) -> Option<Seq<char>> {
    match v {
        Some(s) => Some(quoted_text(s)),
        None => None,
    }
}

/// Whether an optional string can stand between quotes.
pub open spec fn optional_quotable(v: Option<Seq<char>>) -> bool {
    v is Some ==> !v->0.contains('"')
}

impl DecryptionKeyView {
    /// Whether the key can be written: none of its strings holds a `"`.
    pub open spec fn wf(self) -> bool {
        &&& !self.uri.contains('"')
        &&& optional_quotable(self.key_format)
        &&& optional_quotable(self.key_format_versions)
    }

    /// The attributes of the key, in the order in which they are written.
    pub open spec fn attributes(self) -> Seq<(Seq<char>, Seq<char>)> {
        let required = Seq::empty().push(("METHOD"@, method_text(self.method))).push(
            ("URI"@, quoted_text(self.uri)),
        );
        let with_iv = push_optional(
            required,
            "IV"@,
            match self.iv {
                Some(iv) => Some(hex_text(iv)),
                None => None,
            },
        );
        let with_format = push_optional(with_iv, "KEYFORMAT"@, optional_quoted(self.key_format));
        push_optional(with_format, "KEYFORMATVERSIONS"@, optional_quoted(self.key_format_versions))
    }

    /// The text of the key: its attribute list.
    pub open spec fn text(self) -> Seq<char> {
        join_pairs(self.attributes())
    }

    /// The key that a list of attributes describes. Each `METHOD` must be
    /// an encryption method, each `URI`, `KEYFORMAT` and
    /// `KEYFORMATVERSIONS` a quoted string and each `IV` a hexadecimal
    /// sequence; the last of each counts; `METHOD` and `URI` are required;
    /// other attributes are passed over.
    pub open spec fn from_pairs(ps: Seq<(Seq<char>, Seq<char>)>) -> Result<
        DecryptionKeyView,
        Error,
    > {
        let method = named(ps, "METHOD"@);
        let uri = named(ps, "URI"@);
        let iv = named(ps, "IV"@);
        let key_format = named(ps, "KEYFORMAT"@);
        let key_format_versions = named(ps, "KEYFORMATVERSIONS"@);
        if !all_decodable::<EncryptionMethod>(method) || !all_decodable::<QuotedString>(uri)
            || !all_decodable::<HexadecimalSequence>(iv) || !all_decodable::<QuotedString>(
            key_format,
        ) || !all_decodable::<QuotedString>(key_format_versions) {
            Err(invalid(Reason::InvalidValue))
        } else if method.len() == 0 || uri.len() == 0 {
            Err(invalid(Reason::MissingField))
        } else {
            Ok(
                DecryptionKeyView {
                    method: last_decoded::<EncryptionMethod>(method)->0,
                    uri: last_decoded::<QuotedString>(uri)->0,
                    iv: last_decoded::<HexadecimalSequence>(iv),
                    key_format: last_decoded::<QuotedString>(key_format),
                    key_format_versions: last_decoded::<QuotedString>(key_format_versions),
                },
            )
        }
    }

    /// The key that an attribute list spells.
    pub open spec fn from_text(s: Seq<char>) -> Result<DecryptionKeyView, Error> {
        match split_pairs(s) {
            None => Err(invalid(Reason::MalformedAttribute)),
            Some(ps) => Self::from_pairs(ps),
        }
    }

    /// The protocol version that the key asks for: 5 with a key format or
    /// key format versions, else 2 with an initialization vector, else 1.
    pub open spec fn version(self) -> ProtocolVersion {
        if self.key_format is Some || self.key_format_versions is Some {
            ProtocolVersion::V5
        } else if self.iv is Some {
            ProtocolVersion::V2
        } else {
            ProtocolVersion::V1
        }
    }
}

/// The text of an optional quoted string, as characters.
pub fn optional_quoted_chars(v: &Option<QuotedString>) -> (r: Option<Vec<char>>)
    ensures
        match r {
            Some(text) => optional_quoted(value_of(*v)) == Some(text@),
            None => optional_quoted(value_of(*v)) is None,
        },
{
    match v {
        Some(q) => Some(q.to_chars()),
        None => None,
    }
}

impl DecryptionKey {
    /// Returns the protocol compatibility version that this key requires.
    pub fn requires_version(&self) -> (v: ProtocolVersion)
        ensures
            v == self@.version(),
    {
        if self.key_format.is_some() || self.key_format_versions.is_some() {
            ProtocolVersion::V5
        } else if self.iv.is_some() {
            ProtocolVersion::V2
        } else {
            ProtocolVersion::V1
        }
    }

    /// Makes a key of a list of attributes.
    pub fn from_pairs(pairs: &AttributePairs) -> (r: Result<DecryptionKey, Error>)
        ensures
            match r {
                Ok(key) => DecryptionKeyView::from_pairs(pairs@) == Ok::<DecryptionKeyView, Error>(
                    key@,
                ),
                Err(e) => DecryptionKeyView::from_pairs(pairs@) == Err::<DecryptionKeyView, Error>(
                    e,
                ),
            },
    {
        let method = read_attribute::<EncryptionMethod>(pairs, "METHOD")?;
        let uri = read_attribute::<QuotedString>(pairs, "URI")?;
        let iv = read_attribute::<HexadecimalSequence>(pairs, "IV")?;
        let key_format = read_attribute::<QuotedString>(pairs, "KEYFORMAT")?;
        let key_format_versions = read_attribute::<QuotedString>(pairs, "KEYFORMATVERSIONS")?;
        match (method, uri) {
            (Some(method), Some(uri)) => Ok(
                DecryptionKey { method, uri, iv, key_format, key_format_versions },
            ),
            _ => Err(Error::invalid_input(Reason::MissingField)),
        }
    }

    /// Reads the attribute list of a key.
    pub fn parse(s: &str) -> (r: Result<DecryptionKey, Error>)
        ensures
            match r {
                Ok(key) => DecryptionKeyView::from_text(s@) == Ok::<DecryptionKeyView, Error>(
                    key@,
                ),
                Err(e) => DecryptionKeyView::from_text(s@) == Err::<DecryptionKeyView, Error>(e),
            },
    {
        let pairs = AttributePairs::parse(s)?;
        DecryptionKey::from_pairs(&pairs)
    }

    /// The attributes of the key, in the order in which they are written.
    pub fn attributes(&self) -> (r: AttributePairs)
        ensures
            r@ == self@.attributes(),
    {
        let mut pairs = AttributePairs::new();
        pairs.push("METHOD", self.method.to_chars());
        pairs.push("URI", self.uri.to_chars());
        let iv = match &self.iv {
            Some(iv) => Some(iv.to_chars()),
            None => None,
        };
        pairs.push_optional("IV", iv);
        pairs.push_optional("KEYFORMAT", optional_quoted_chars(&self.key_format));
        pairs.push_optional("KEYFORMATVERSIONS", optional_quoted_chars(&self.key_format_versions));
        pairs
    }

    /// What is known of every key that code holds: it can be written.
    pub fn known_valid(&self)
        ensures
            self@.wf(),
    {
        proof {
            use_type_invariant(&self.uri);
            self.uri.lemma_wf();
        }
        quoted_is_quotable(&self.key_format);
        quoted_is_quotable(&self.key_format_versions);
    }

    /// Writes the attribute list of the key. The list parses to the key
    /// again.
    pub fn render(&self) -> (r: String)
        ensures
            r@ == self@.text(),
            self@.wf(),
            DecryptionKeyView::from_text(r@) == Ok::<DecryptionKeyView, Error>(self@),
    {
        self.known_valid();
        proof {
            lemma_key_round_trip(self@);
        }
        let pairs = self.attributes();
        pairs.render()
    }
}

/// The names of the attributes of a key are attribute names, and differ.
pub proof fn lemma_key_names()
    ensures
        is_name("METHOD"@),
        is_name("URI"@),
        is_name("IV"@),
        is_name("KEYFORMAT"@),
        is_name("KEYFORMATVERSIONS"@),
        "METHOD"@.len() == 6,
        "URI"@.len() == 3,
        "IV"@.len() == 2,
        "KEYFORMAT"@.len() == 9,
        "KEYFORMATVERSIONS"@.len() == 17,
{
    reveal_strlit("METHOD");
    reveal_strlit("URI");
    reveal_strlit("IV");
    reveal_strlit("KEYFORMAT");
    reveal_strlit("KEYFORMATVERSIONS");
    assert forall|i: int| 0 <= i < "METHOD"@.len() implies is_name_char(
        #[trigger] "METHOD"@[i],
    ) by {}
    assert forall|i: int| 0 <= i < "URI"@.len() implies is_name_char(#[trigger] "URI"@[i]) by {}
    assert forall|i: int| 0 <= i < "IV"@.len() implies is_name_char(#[trigger] "IV"@[i]) by {}
    assert forall|i: int| 0 <= i < "KEYFORMAT"@.len() implies is_name_char(
        #[trigger] "KEYFORMAT"@[i],
    ) by {}
    assert forall|i: int| 0 <= i < "KEYFORMATVERSIONS"@.len() implies is_name_char(
        #[trigger] "KEYFORMATVERSIONS"@[i],
    ) by {}
}

/// What the attributes of a well-formed key hold under each name, and
/// that they can stand in a list.
pub proof fn lemma_key_attributes(key: DecryptionKeyView)
    requires
        key.wf(),
    ensures
        all_pairs_valid(key.attributes()),
        key.attributes().len() >= 2,
        named(key.attributes(), "METHOD"@) == seq![method_text(key.method)],
        named(key.attributes(), "URI"@) == seq![quoted_text(key.uri)],
        named(key.attributes(), "IV"@) == match key.iv {
            Some(iv) => seq![hex_text(iv)],
            None => Seq::empty(),
        },
        named(key.attributes(), "KEYFORMAT"@) == match key.key_format {
            Some(f) => seq![quoted_text(f)],
            None => Seq::empty(),
        },
        named(key.attributes(), "KEYFORMATVERSIONS"@) == match key.key_format_versions {
            Some(f) => seq![quoted_text(f)],
            None => Seq::empty(),
        },
        forall|n: Seq<char>|
            n != "METHOD"@ && n != "URI"@ && n != "IV"@ && n != "KEYFORMAT"@ && n
                != "KEYFORMATVERSIONS"@ ==> (#[trigger] named(key.attributes(), n)).len() == 0,
{
    lemma_key_names();
    lemma_method_text(key.method);
    lemma_bare_is_raw_value(method_text(key.method));
    lemma_quoted_is_raw_value(key.uri);
    let none = Seq::<(Seq<char>, Seq<char>)>::empty();
    let a1 = none.push(("METHOD"@, method_text(key.method)));
    let a2 = a1.push(("URI"@, quoted_text(key.uri)));
    let iv = match key.iv {
        Some(iv) => Some(hex_text(iv)),
        None => None,
    };
    let a3 = push_optional(a2, "IV"@, iv);
    let a4 = push_optional(a3, "KEYFORMAT"@, optional_quoted(key.key_format));
    let a5 = push_optional(a4, "KEYFORMATVERSIONS"@, optional_quoted(key.key_format_versions));
    assert(a5 == key.attributes());
    lemma_named_empty();
    lemma_named_push(none, ("METHOD"@, method_text(key.method)));
    lemma_named_push(a1, ("URI"@, quoted_text(key.uri)));
    lemma_named_push_optional(a2, "IV"@, iv);
    lemma_named_push_optional(a3, "KEYFORMAT"@, optional_quoted(key.key_format));
    lemma_named_push_optional(a4, "KEYFORMATVERSIONS"@, optional_quoted(key.key_format_versions));
    assert(all_pairs_valid(none));
    lemma_valid_push(none, ("METHOD"@, method_text(key.method)));
    lemma_valid_push(a1, ("URI"@, quoted_text(key.uri)));
    if key.iv is Some {
        lemma_hex_text_bare(key.iv->0);
        lemma_bare_is_raw_value(hex_text(key.iv->0));
    }
    lemma_valid_push_optional(a2, "IV"@, iv);
    if key.key_format is Some {
        lemma_quoted_is_raw_value(key.key_format->0);
    }
    lemma_valid_push_optional(a3, "KEYFORMAT"@, optional_quoted(key.key_format));
    if key.key_format_versions is Some {
        lemma_quoted_is_raw_value(key.key_format_versions->0);
    }
    lemma_valid_push_optional(a4, "KEYFORMATVERSIONS"@, optional_quoted(key.key_format_versions));
    assert(named(a5, "METHOD"@) =~= seq![method_text(key.method)]);
    assert(named(a5, "URI"@) =~= seq![quoted_text(key.uri)]);
    assert(named(a5, "IV"@) =~= match key.iv {
        Some(iv) => seq![hex_text(iv)],
        None => Seq::empty(),
    });
    assert(named(a5, "KEYFORMAT"@) =~= match key.key_format {
        Some(f) => seq![quoted_text(f)],
        None => Seq::empty(),
    });
    assert(named(a5, "KEYFORMATVERSIONS"@) =~= match key.key_format_versions {
        Some(f) => seq![quoted_text(f)],
        None => Seq::empty(),
    });
}

/// Reading the attributes of a well-formed key gives the key back.
pub proof fn lemma_key_from_attributes(key: DecryptionKeyView)
    requires
        key.wf(),
    ensures
        DecryptionKeyView::from_pairs(key.attributes()) == Ok::<DecryptionKeyView, Error>(key),
{
    lemma_key_attributes(key);
    lemma_method_text(key.method);
    lemma_quoted_round_trip(key.uri);
    if key.iv is Some {
        lemma_hex_round_trip(key.iv->0);
    }
    if key.key_format is Some {
        lemma_quoted_round_trip(key.key_format->0);
    }
    if key.key_format_versions is Some {
        lemma_quoted_round_trip(key.key_format_versions->0);
    }
}

/// Parsing the attribute list that a key renders gives the key back.
pub proof fn lemma_key_round_trip(key: DecryptionKeyView)
    requires
        key.wf(),
    ensures
        DecryptionKeyView::from_text(key.text()) == Ok::<DecryptionKeyView, Error>(key),
{
    lemma_key_attributes(key);
    lemma_key_from_attributes(key);
    lemma_split_join(key.attributes());
}

/// A key that has every optional attribute that another has asks for no
/// earlier protocol version than the other.
pub proof fn lemma_key_version_monotone(fewer: DecryptionKeyView, more: DecryptionKeyView)
    requires
        fewer.iv is Some ==> more.iv is Some,
        fewer.key_format is Some ==> more.key_format is Some,
        fewer.key_format_versions is Some ==> more.key_format_versions is Some,
    ensures
        fewer.version().number() <= more.version().number(),
{
}

} // verus!
