//! The small types that tags are made of: free text, protocol versions,
//! byte ranges, encryption methods and the marker `YES`.

use vstd::prelude::*;
use crate::attribute::Codec;
use crate::error::{invalid, Error, Reason};
use crate::number::{
    all_digits, decimal_text, decimal_value, is_digit, lemma_decimal_text, parse_decimal,
    push_decimal,
};
use crate::text::{
    chars_to_string, find_char, first_index, head, is_word, lemma_first_index,
    lemma_first_index_after, push_str, str_to_chars, tail,
};

verus! {

// ---------------------------------------------------------------------------
// Free text

/// Whether `c` is a control character.
pub open spec fn is_control(c: char) -> bool {
    (c as u32) < 0x20 || (0x7f <= (c as u32) && (c as u32) <= 0x9f)
}

/// Whether `s` holds no control character.
pub open spec fn is_plain_text(s: Seq<char>) -> bool {
    forall|i: int| 0 <= i < s.len() ==> !is_control(#[trigger] s[i])
}

/// Free text of a playlist: any characters but control characters.
#[derive(Debug, PartialEq, Eq, Hash)]
pub struct M3u8String {
    text: String,
}

impl View for M3u8String {
    type V = Seq<char>;

    closed spec fn view(&self) -> Seq<char> {
        self.text@
    }
}

impl Clone for M3u8String {
    fn clone(&self) -> (r: M3u8String)
        ensures
            r@ == self@,
    {
        proof {
            use_type_invariant(self);
        }
        M3u8String { text: self.text.clone() }
    }
}

impl M3u8String {
    /// The text holds no control character. Every value that code holds
    /// is well-formed.
    #[verifier::type_invariant]
    pub closed spec fn wf(&self) -> bool {
        is_plain_text(self.text@)
    }

    /// Well-formed means: no control character in the text.
    pub proof fn lemma_wf(&self)
        ensures
            self.wf() <==> is_plain_text(self@),
    {
    }

    /// Makes free text of `s`, which must hold no control character.
    pub fn new(s: &str) -> (r: Result<M3u8String, Error>)
        ensures
            match r {
                Ok(t) => t@ == s@ && is_plain_text(s@),
                Err(e) => !is_plain_text(s@) && e == invalid(Reason::InvalidValue),
            },
    {
        let v = str_to_chars(s);
        M3u8String::from_chars(v.as_slice())
    }

    /// Makes free text of the characters `s`, which must hold no control
    /// character.
    pub fn from_chars(s: &[char]) -> (r: Result<M3u8String, Error>)
        ensures
            match r {
                Ok(t) => t@ == s@ && is_plain_text(s@),
                Err(e) => !is_plain_text(s@) && e == invalid(Reason::InvalidValue),
            },
    {
        let mut i: usize = 0;
        while i < s.len()
            invariant
                i <= s.len(),
                forall|j: int| 0 <= j < i ==> !is_control(#[trigger] s@[j]),
            decreases s.len() - i,
        {
            let n: u32 = s[i] as u32;
            if n < 0x20 || (0x7f <= n && n <= 0x9f) {
                assert(is_control(s@[i as int]));
                return Err(Error::invalid_input(Reason::InvalidValue));
            }
            i = i + 1;
        }
        Ok(M3u8String { text: chars_to_string(s) })
    }

    /// The text.
    pub fn as_str(&self) -> (r: &str)
        ensures
            r@ == self@,
    {
        self.text.as_str()
    }

    /// The text.
    pub fn render(&self) -> (r: String)
        ensures
            r@ == self@,
    {
        self.text.clone()
    }

    /// Appends the text to `buf`.
    pub fn push_text(&self, buf: &mut Vec<char>)
        ensures
            final(buf)@ == old(buf)@ + self@,
    {
        push_str(buf, self.text.as_str());
    }
}

// ---------------------------------------------------------------------------
// Protocol versions

/// A protocol compatibility version of a playlist.
#[derive(Debug, Clone, Copy, PartialEq, Eq, PartialOrd, Ord, Hash, Structural)]
pub enum ProtocolVersion {
    V1,
    V2,
    V3,
    V4,
    V5,
    V6,
    V7,
}

impl ProtocolVersion {
    /// The number of the version, from 1 to 7.
    pub open spec fn number(self) -> nat {
        match self {
            ProtocolVersion::V1 => 1,
            ProtocolVersion::V2 => 2,
            ProtocolVersion::V3 => 3,
            ProtocolVersion::V4 => 4,
            ProtocolVersion::V5 => 5,
            ProtocolVersion::V6 => 6,
            ProtocolVersion::V7 => 7,
        }
    }

    /// The number of the version, from 1 to 7.
    pub fn as_number(self) -> (n: u8)
        ensures
            n == self.number(),
    {
        match self {
            ProtocolVersion::V1 => 1,
            ProtocolVersion::V2 => 2,
            ProtocolVersion::V3 => 3,
            ProtocolVersion::V4 => 4,
            ProtocolVersion::V5 => 5,
            ProtocolVersion::V6 => 6,
            ProtocolVersion::V7 => 7,
        }
    }

    /// The later of two versions: what a playlist needs that holds a tag
    /// of each.
    pub fn later(self, other: ProtocolVersion) -> (r: ProtocolVersion)
        ensures
            r == if self.number() >= other.number() {
                self
            } else {
                other
            },
    {
        if self.as_number() >= other.as_number() {
            self
        } else {
            other
        }
    }
}

// ---------------------------------------------------------------------------
// Byte ranges

/// A range of bytes of a resource: its length, and where it starts. A
/// range without a start begins where the one before it ended.
#[derive(Debug, Clone, Copy, PartialEq, Eq, Hash, Structural)]
pub struct ByteRange {
    pub length: usize,
    pub start: Option<usize>,
}

/// The text of a byte range: the length, then `@` and the start where it
/// has one.
pub open spec fn byte_range_text(r: ByteRange) -> Seq<char> {
    match r.start {
        Some(start) => decimal_text(r.length as nat) + seq!['@'] + decimal_text(start as nat),
        None => decimal_text(r.length as nat),
    }
}

/// The byte range that the text `s` spells: a decimal length, or a
/// length, `@` and a decimal start, each within the range of `usize`.
pub open spec fn byte_range_from_text(s: Seq<char>) -> Option<ByteRange> {
    let at = first_index(s, '@');
    match decimal_value(s.take(at), usize::MAX as nat) {
        Some(length) => if at < s.len() {
            match decimal_value(s.skip(at + 1), usize::MAX as nat) {
                Some(start) => Some(
                    ByteRange { length: length as usize, start: Some(start as usize) },
                ),
                None => None,
            }
        } else {
            Some(ByteRange { length: length as usize, start: None })
        },
        None => None,
    }
}

impl ByteRange {
    /// Reads a byte range.
    pub fn parse(s: &str) -> (r: Result<ByteRange, Error>)
        ensures
            match r {
                Ok(range) => byte_range_from_text(s@) == Some(range),
                Err(e) => byte_range_from_text(s@) is None && e == invalid(Reason::InvalidValue),
            },
    {
        let v = str_to_chars(s);
        ByteRange::parse_chars(v.as_slice())
    }

    /// Appends the text of the range to `buf`.
    pub fn push_text(&self, buf: &mut Vec<char>)
        ensures
            final(buf)@ == old(buf)@ + byte_range_text(*self),
    {
        push_decimal(buf, self.length as u64);
        match self.start {
            Some(start) => {
                buf.push('@');
                push_decimal(buf, start as u64);
            },
            None => {},
        }
        assert(final(buf)@ =~= old(buf)@ + byte_range_text(*self));
    }

    /// The text of the range, as characters.
    pub fn to_chars(&self) -> (r: Vec<char>)
        ensures
            r@ == byte_range_text(*self),
    {
        let mut buf: Vec<char> = Vec::new();
        self.push_text(&mut buf);
        assert(buf@ =~= byte_range_text(*self));
        buf
    }

    /// The text of the range.
    pub fn render(&self) -> (r: String)
        ensures
            r@ == byte_range_text(*self),
    {
        let buf = self.to_chars();
        chars_to_string(buf.as_slice())
    }
}

impl Codec for ByteRange {
    type Value = ByteRange;

    open spec fn value(&self) -> ByteRange {
        *self
    }

    open spec fn decode(s: Seq<char>) -> Option<ByteRange> {
        byte_range_from_text(s)
    }

    fn parse_chars(s: &[char]) -> (r: Result<ByteRange, Error>) {
        let at = find_char(s, '@');
        proof {
            lemma_first_index(s@, '@');
        }
        let length = match parse_decimal(head(s, at), usize::MAX as u64) {
            Some(n) => n as usize,
            None => {
                return Err(Error::invalid_input(Reason::InvalidValue));
            },
        };
        if at < s.len() {
            match parse_decimal(tail(s, at + 1), usize::MAX as u64) {
                Some(n) => Ok(ByteRange { length, start: Some(n as usize) }),
                None => Err(Error::invalid_input(Reason::InvalidValue)),
            }
        } else {
            Ok(ByteRange { length, start: None })
        }
    }
}

/// Text made of digits holds none of the characters that are no digit.
pub proof fn lemma_digits_exclude(s: Seq<char>, c: char)
    requires
        all_digits(s),
        !is_digit(c),
    ensures
        !s.contains(c),
{
    if s.contains(c) {
        let i = choose|i: int| 0 <= i < s.len() && s[i] == c;
        assert(is_digit(s[i]));
    }
}

/// Reading back the text of a byte range gives the range.
pub proof fn lemma_byte_range_round_trip(r: ByteRange)
    ensures
        byte_range_from_text(byte_range_text(r)) == Some(r),
{
    let l = decimal_text(r.length as nat);
    lemma_decimal_text(r.length as nat);
    lemma_digits_exclude(l, '@');
    let s = byte_range_text(r);
    match r.start {
        Some(start) => {
            let t = decimal_text(start as nat);
            lemma_decimal_text(start as nat);
            lemma_first_index_after(l, '@', t);
            assert(s.take(l.len() as int) == l);
            assert(s.skip(l.len() as int + 1) == t);
        },
        None => {
            lemma_first_index_after(l, '@', Seq::empty());
            assert(s.take(l.len() as int) == l);
        },
    }
}

/// The text of a byte range holds no comma and no quote.
pub proof fn lemma_byte_range_text_bare(r: ByteRange)
    ensures
        !byte_range_text(r).contains(','),
        !byte_range_text(r).contains('"'),
{
    let l = decimal_text(r.length as nat);
    lemma_decimal_text(r.length as nat);
    let s = byte_range_text(r);
    match r.start {
        Some(start) => {
            let t = decimal_text(start as nat);
            lemma_decimal_text(start as nat);
            assert forall|i: int| 0 <= i < s.len() implies s[i] != ',' && s[i] != '"' by {
                if i < l.len() {
                    assert(s[i] == l[i]);
                    assert(is_digit(l[i]));
                } else if i > l.len() {
                    assert(s[i] == t[i - l.len() - 1]);
                    assert(is_digit(t[i - l.len() - 1]));
                }
            }
        },
        None => {
            assert forall|i: int| 0 <= i < s.len() implies s[i] != ',' && s[i] != '"' by {
                assert(is_digit(l[i]));
            }
        },
    }
}

// ---------------------------------------------------------------------------
// Encryption methods

/// How media segments are encrypted.
#[derive(Debug, Clone, Copy, PartialEq, Eq, Hash, Structural)]
pub enum EncryptionMethod {
    Aes128,
    SampleAes,
}

/// The text of an encryption method.
pub open spec fn method_text(m: EncryptionMethod) -> Seq<char> {
    match m {
        EncryptionMethod::Aes128 => "AES-128"@,
        EncryptionMethod::SampleAes => "SAMPLE-AES"@,
    }
}

/// The encryption method that the text `s` names.
pub open spec fn method_from_text(s: Seq<char>) -> Option<EncryptionMethod> {
    if s == "AES-128"@ {
        Some(EncryptionMethod::Aes128)
    } else if s == "SAMPLE-AES"@ {
        Some(EncryptionMethod::SampleAes)
    } else {
        None
    }
}

impl EncryptionMethod {
    /// Reads the name of an encryption method.
    pub fn parse(s: &str) -> (r: Result<EncryptionMethod, Error>)
        ensures
            match r {
                Ok(m) => method_from_text(s@) == Some(m),
                Err(e) => method_from_text(s@) is None && e == invalid(Reason::InvalidValue),
            },
    {
        let v = str_to_chars(s);
        EncryptionMethod::parse_chars(v.as_slice())
    }

    /// The name of the method, as characters.
    pub fn to_chars(&self) -> (r: Vec<char>)
        ensures
            r@ == method_text(*self),
    {
        match self {
            EncryptionMethod::Aes128 => str_to_chars("AES-128"),
            EncryptionMethod::SampleAes => str_to_chars("SAMPLE-AES"),
        }
    }

    /// The name of the method.
    pub fn render(&self) -> (r: String)
        ensures
            r@ == method_text(*self),
    {
        let buf = self.to_chars();
        chars_to_string(buf.as_slice())
    }
}

impl Codec for EncryptionMethod {
    type Value = EncryptionMethod;

    open spec fn value(&self) -> EncryptionMethod {
        *self
    }

    open spec fn decode(s: Seq<char>) -> Option<EncryptionMethod> {
        method_from_text(s)
    }

    fn parse_chars(s: &[char]) -> (r: Result<EncryptionMethod, Error>) {
        if is_word(s, "AES-128") {
            Ok(EncryptionMethod::Aes128)
        } else if is_word(s, "SAMPLE-AES") {
            Ok(EncryptionMethod::SampleAes)
        } else {
            Err(Error::invalid_input(Reason::InvalidValue))
        }
    }
}

/// Reading back the name of an encryption method gives the method, and
/// the name holds no comma and no quote.
pub proof fn lemma_method_text(m: EncryptionMethod)
    ensures
        method_from_text(method_text(m)) == Some(m),
        !method_text(m).contains(','),
        !method_text(m).contains('"'),
{
    reveal_strlit("AES-128");
    reveal_strlit("SAMPLE-AES");
    assert("AES-128"@.len() == 7);
    assert("SAMPLE-AES"@.len() == 10);
    let s = method_text(m);
    assert forall|i: int| 0 <= i < s.len() implies s[i] != ',' && s[i] != '"' by {}
}

// ---------------------------------------------------------------------------
// The marker YES

/// The value `YES` of an attribute that is either present or absent.
#[derive(Debug, Clone, Copy, PartialEq, Eq, Hash, Structural)]
pub struct Yes;

/// The marker that the text `s` spells: `YES` and nothing else.
pub open spec fn yes_from_text(s: Seq<char>) -> Option<Yes> {
    if s == "YES"@ {
        Some(Yes)
    } else {
        None
    }
}

impl Yes {
    /// Reads the marker.
    pub fn parse(s: &str) -> (r: Result<Yes, Error>)
        ensures
            match r {
                Ok(y) => yes_from_text(s@) == Some(y),
                Err(e) => yes_from_text(s@) is None && e == invalid(Reason::InvalidValue),
            },
    {
        let v = str_to_chars(s);
        Yes::parse_chars(v.as_slice())
    }

    /// The text of the marker, as characters.
    pub fn to_chars(&self) -> (r: Vec<char>)
        ensures
            r@ == "YES"@,
    {
        str_to_chars("YES")
    }

    /// The text of the marker.
    pub fn render(&self) -> (r: String)
        ensures
            r@ == "YES"@,
    {
        let buf = self.to_chars();
        chars_to_string(buf.as_slice())
    }
}

impl Codec for Yes {
    type Value = Yes;

    open spec fn value(&self) -> Yes {
        *self
    }

    open spec fn decode(s: Seq<char>) -> Option<Yes> {
        yes_from_text(s)
    }

    fn parse_chars(s: &[char]) -> (r: Result<Yes, Error>) {
        if is_word(s, "YES") {
            Ok(Yes)
        } else {
            Err(Error::invalid_input(Reason::InvalidValue))
        }
    }
}

/// The text of the marker holds no comma and no quote.
pub proof fn lemma_yes_text_bare()
    ensures
        !"YES"@.contains(','),
        !"YES"@.contains('"'),
{
    reveal_strlit("YES");
    let s = "YES"@;
    assert forall|i: int| 0 <= i < s.len() implies s[i] != ',' && s[i] != '"' by {}
}

} // verus!
