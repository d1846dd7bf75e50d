//! `EXT-X-DATERANGE`: a range of time with attributes of its own, some
//! of them defined by the client.

use vstd::prelude::*;
use vstd::slice::slice_to_vec;
use crate::attribute::{
    all_decodable, all_pairs_valid, is_name, is_name_char, is_raw_value, join_pairs,
    last_decoded, lemma_bare_is_raw_value, lemma_line_append, lemma_named_concat,
    lemma_named_empty, lemma_named_push, lemma_named_push_optional, lemma_split_join,
    lemma_split_valid, lemma_valid_concat, lemma_valid_push, lemma_valid_push_optional, named,
    pair_text, push_optional, read_attribute, split_pairs, value_of, AttributePair,
    AttributePairs,
};
use crate::client_attributes::{
    all_entries_valid, client_entries, client_name, client_pairs, insert_entry, is_client_name,
    is_sorted, lemma_client_entries_none, lemma_client_entries_push,
    lemma_client_entries_written, lemma_client_pairs, lemma_client_prefix, ClientAttributes,
};
use crate::date::{lemma_date_round_trip, Date};
use crate::decryption_key::{optional_quotable, optional_quoted, optional_quoted_chars};
use crate::duration::{lemma_seconds_round_trip, lemma_seconds_text_bare, Duration};
use crate::error::{invalid, Error, Reason};
use crate::quoted::{
    lemma_quoted_is_raw_value, lemma_quoted_round_trip, quoted_is_quotable, quoted_text,
    QuotedString,
};
use crate::text::{
    after_prefix, chars_to_string, lemma_after_prefix, push_chars, starts_with, str_to_chars,
    strip_prefix, tail,
};
use crate::types::{lemma_yes_text_bare, ProtocolVersion, Yes};

verus! {

/// An `EXT-X-DATERANGE` tag. Where it has `end_on_next` it has a class.
#[derive(Debug, PartialEq, Eq, Hash)]
pub struct ExtXDateRange {
    id: QuotedString,
    class: Option<QuotedString>,
    start_date: Date,
    end_date: Option<Date>,
    duration: Option<Duration>,
    planned_duration: Option<Duration>,
    scte35_cmd: Option<QuotedString>,
    scte35_out: Option<QuotedString>,
    scte35_in: Option<QuotedString>,
    end_on_next: Option<Yes>,
    client_attributes: ClientAttributes,
}

/// What an `EXT-X-DATERANGE` tag holds, as contracts see it.
pub struct ExtXDateRangeView {
    pub id: Seq<char>,
    pub class: Option<Seq<char>>,
    pub start_date: Date,
    pub end_date: Option<Date>,
    pub duration: Option<Duration>,
    pub planned_duration: Option<Duration>,
    pub scte35_cmd: Option<Seq<char>>,
    pub scte35_out: Option<Seq<char>>,
    pub scte35_in: Option<Seq<char>>,
    pub end_on_next: Option<Yes>,
    pub client_attributes: Seq<(Seq<char>, Seq<char>)>,
}

impl View for ExtXDateRange {
    type V = ExtXDateRangeView;

    closed spec fn view(&self) -> ExtXDateRangeView {
        ExtXDateRangeView {
            id: self.id@,
            class: value_of(self.class),
            start_date: self.start_date,
            end_date: self.end_date,
            duration: self.duration,
            planned_duration: self.planned_duration,
            scte35_cmd: value_of(self.scte35_cmd),
            scte35_out: value_of(self.scte35_out),
            scte35_in: value_of(self.scte35_in),
            end_on_next: self.end_on_next,
            client_attributes: self.client_attributes@,
        }
    }
}

/// The text of an optional date, between quotes.
pub open spec fn optional_date_text(d: Option<Date>) -> Option<Seq<char>> {
    match d {
        Some(date) => Some(quoted_text(date.text())),
        None => None,
    }
}

/// The text of an optional span of time.
pub open spec fn optional_seconds_text(d: Option<Duration>) -> Option<Seq<char>> {
    match d {
        Some(span) => Some(span.text()),
        None => None,
    }
}

/// The text of an optional marker.
pub open spec fn optional_yes_text(y: Option<Yes>) -> Option<Seq<char>> {
    match y {
        Some(_) => Some("YES"@),
        None => None,
    }
}

impl ExtXDateRangeView {
    /// The text that every `EXT-X-DATERANGE` line begins with.
    pub open spec fn prefix() -> Seq<char> {
        "#EXT-X-DATERANGE:"@
    }

    /// Whether the tag is valid: its strings hold no `"`, its dates and
    /// spans of time are well-formed, `end_on_next` comes with a class, and
    /// the client-defined attributes are sorted by names that can stand
    /// in a list, with values that can.
    pub open spec fn wf(self) -> bool {
        &&& !self.id.contains('"')
        &&& optional_quotable(self.class)
        &&& self.start_date.wf()
        &&& self.end_date is Some ==> self.end_date->0.wf()
        &&& self.duration is Some ==> self.duration->0.wf()
        &&& self.planned_duration is Some ==> self.planned_duration->0.wf()
        &&& optional_quotable(self.scte35_cmd)
        &&& optional_quotable(self.scte35_out)
        &&& optional_quotable(self.scte35_in)
        &&& self.end_on_next is Some ==> self.class is Some
        &&& is_sorted(self.client_attributes)
        &&& all_entries_valid(self.client_attributes)
    }

    /// The attributes that the protocol defines, in the order in
    /// which they are written.
    pub open spec fn defined_attributes(self) -> Seq<(Seq<char>, Seq<char>)> {
        let a1 = Seq::empty().push(("ID"@, quoted_text(self.id)));
        let a2 = push_optional(a1, "CLASS"@, optional_quoted(self.class));
        let a3 = a2.push(("START-DATE"@, quoted_text(self.start_date.text())));
        let a4 = push_optional(a3, "END-DATE"@, optional_date_text(self.end_date));
        let a5 = push_optional(a4, "DURATION"@, optional_seconds_text(self.duration));
        let a6 = push_optional(
            a5,
            "PLANNED-DURATION"@,
            optional_seconds_text(self.planned_duration),
        );
        let a7 = push_optional(a6, "SCTE35-CMD"@, optional_quoted(self.scte35_cmd));
        let a8 = push_optional(a7, "SCTE35-OUT"@, optional_quoted(self.scte35_out));
        let a9 = push_optional(a8, "SCTE35-IN"@, optional_quoted(self.scte35_in));
        push_optional(a9, "END-ON-NEXT"@, optional_yes_text(self.end_on_next))
    }

    /// The attributes of the tag, in the order in which they are written:
    /// those that the protocol defines, then those of the client in
    /// the order of their names, each name after `X-`.
    pub open spec fn attributes(self) -> Seq<(Seq<char>, Seq<char>)> {
        self.defined_attributes() + client_pairs(self.client_attributes)
    }

    /// The line of the tag.
    pub open spec fn text(self) -> Seq<char> {
        Self::prefix() + join_pairs(self.attributes())
    }

    /// Whether each attribute of a defined name holds a value of its type.
    pub open spec fn values_decodable(ps: Seq<(Seq<char>, Seq<char>)>) -> bool {
        &&& all_decodable::<QuotedString>(named(ps, "ID"@))
        &&& all_decodable::<QuotedString>(named(ps, "CLASS"@))
        &&& all_decodable::<Date>(named(ps, "START-DATE"@))
        &&& all_decodable::<Date>(named(ps, "END-DATE"@))
        &&& all_decodable::<Duration>(named(ps, "DURATION"@))
        &&& all_decodable::<Duration>(named(ps, "PLANNED-DURATION"@))
        &&& all_decodable::<QuotedString>(named(ps, "SCTE35-CMD"@))
        &&& all_decodable::<QuotedString>(named(ps, "SCTE35-OUT"@))
        &&& all_decodable::<QuotedString>(named(ps, "SCTE35-IN"@))
        &&& all_decodable::<Yes>(named(ps, "END-ON-NEXT"@))
    }

    /// The tag that a list of attributes describes. Each attribute of a
    /// defined name must hold a value of its type, and the last of each
    /// name counts; `ID` and `START-DATE` are required; `END-ON-NEXT`
    /// requires `CLASS`; attributes whose name begins with `X-` are those
    /// of the client; other attributes are passed over.
    pub open spec fn from_pairs(ps: Seq<(Seq<char>, Seq<char>)>) -> Result<
        ExtXDateRangeView,
        Error,
    > {
        if !Self::values_decodable(ps) {
            Err(invalid(Reason::InvalidValue))
        } else if named(ps, "ID"@).len() == 0 || named(ps, "START-DATE"@).len() == 0 {
            Err(invalid(Reason::MissingField))
        } else if named(ps, "END-ON-NEXT"@).len() > 0 && named(ps, "CLASS"@).len() == 0 {
            Err(invalid(Reason::ForbiddenCombination))
        } else {
            Ok(
                ExtXDateRangeView {
                    id: last_decoded::<QuotedString>(named(ps, "ID"@))->0,
                    class: last_decoded::<QuotedString>(named(ps, "CLASS"@)),
                    start_date: last_decoded::<Date>(named(ps, "START-DATE"@))->0,
                    end_date: last_decoded::<Date>(named(ps, "END-DATE"@)),
                    duration: last_decoded::<Duration>(named(ps, "DURATION"@)),
                    planned_duration: last_decoded::<Duration>(named(ps, "PLANNED-DURATION"@)),
                    scte35_cmd: last_decoded::<QuotedString>(named(ps, "SCTE35-CMD"@)),
                    scte35_out: last_decoded::<QuotedString>(named(ps, "SCTE35-OUT"@)),
                    scte35_in: last_decoded::<QuotedString>(named(ps, "SCTE35-IN"@)),
                    end_on_next: last_decoded::<Yes>(named(ps, "END-ON-NEXT"@)),
                    client_attributes: client_entries(ps),
                },
            )
        }
    }

    /// The tag that a line spells.
    pub open spec fn from_text(s: Seq<char>) -> Result<ExtXDateRangeView, Error> {
        match after_prefix(s, Self::prefix()) {
            None => Err(invalid(Reason::PrefixMismatch)),
            Some(list) => match split_pairs(list) {
                None => Err(invalid(Reason::MalformedAttribute)),
                Some(ps) => Self::from_pairs(ps),
            },
        }
    }

    /// The protocol version that the tag asks for.
    pub open spec fn version(self) -> ProtocolVersion {
        ProtocolVersion::V1
    }
}

/// The text of an optional date between quotes, as characters.
fn optional_date_chars(d: &Option<Date>) -> (r: Option<Vec<char>>)
    ensures
        match r {
            Some(text) => optional_date_text(*d) == Some(text@),
            None => optional_date_text(*d) is None,
        },
{
    match d {
        Some(date) => Some(date.to_chars()),
        None => None,
    }
}

/// The text of an optional span of time, as characters.
fn optional_seconds_chars(d: &Option<Duration>) -> (r: Option<Vec<char>>)
    ensures
        match r {
            Some(text) => optional_seconds_text(*d) == Some(text@),
            None => optional_seconds_text(*d) is None,
        },
{
    match d {
        Some(span) => {
            let mut buf: Vec<char> = Vec::new();
            span.push_text(&mut buf);
            assert(buf@ =~= span.text());
            Some(buf)
        },
        None => None,
    }
}

/// The client-defined attributes among the pairs of a list.
fn read_client_attributes(pairs: &AttributePairs) -> (r: ClientAttributes)
    requires
        all_pairs_valid(pairs@),
    ensures
        r@ == client_entries(pairs@),
{
    let prefix = str_to_chars("X-");
    let mut out = ClientAttributes::new();
    let mut i: usize = 0;
    proof {
        lemma_client_prefix();
        assert(pairs@.take(0) == Seq::<(Seq<char>, Seq<char>)>::empty());
    }
    while i < pairs.len()
        invariant
            i <= pairs@.len(),
            all_pairs_valid(pairs@),
            prefix@ == "X-"@,
            prefix@.len() == 2,
            out@ == client_entries(pairs@.take(i as int)),
        decreases pairs@.len() - i,
    {
        proof {
            lemma_client_entries_push(pairs@.take(i as int), pairs@[i as int]);
            assert(pairs@.take(i as int).push(pairs@[i as int]) == pairs@.take(i + 1));
        }
        let name = pairs.name(i);
        if starts_with(name, prefix.as_slice()) {
            let key = slice_to_vec(tail(name, 2));
            let value = slice_to_vec(pairs.value(i));
            proof {
                assert(is_name(pairs@[i as int].0));
                assert forall|j: int| 0 <= j < key@.len() implies is_name_char(
                    #[trigger] key@[j],
                ) by {
                    assert(key@[j] == name@[j + 2]);
                }
            }
            out.insert_chars(key, value);
        }
        i = i + 1;
    }
    proof {
        assert(pairs@.take(pairs@.len() as int) == pairs@);
    }
    out
}

impl Clone for ExtXDateRange {
    fn clone(&self) -> (r: ExtXDateRange)
        ensures
            r@ == self@,
    {
        proof {
            use_type_invariant(self);
        }
        ExtXDateRange {
            id: self.id.clone(),
            class: clone_quoted(&self.class),
            start_date: self.start_date,
            end_date: self.end_date,
            duration: self.duration,
            planned_duration: self.planned_duration,
            scte35_cmd: clone_quoted(&self.scte35_cmd),
            scte35_out: clone_quoted(&self.scte35_out),
            scte35_in: clone_quoted(&self.scte35_in),
            end_on_next: self.end_on_next,
            client_attributes: self.client_attributes.clone(),
        }
    }
}

/// A copy of an optional quoted string.
fn clone_quoted(q: &Option<QuotedString>) -> (r: Option<QuotedString>)
    ensures
        value_of(r) == value_of(*q),
{
    match q {
        Some(text) => Some(text.clone()),
        None => None,
    }
}

impl ExtXDateRange {
    /// Where the tag has `end_on_next` it has a class. Every value that
    /// code holds is well-formed.
    #[verifier::type_invariant]
    pub closed spec fn wf(&self) -> bool {
        self.end_on_next is Some ==> self.class is Some
    }

    /// Makes a new `ExtXDateRange` tag with the attributes that every
    /// such tag has.
    pub fn new(id: QuotedString, start_date: Date) -> (r: ExtXDateRange)
        ensures
            r@ == (ExtXDateRangeView {
                id: id@,
                class: None,
                start_date,
                end_date: None,
                duration: None,
                planned_duration: None,
                scte35_cmd: None,
                scte35_out: None,
                scte35_in: None,
                end_on_next: None,
                client_attributes: Seq::empty(),
            }),
    {
        ExtXDateRange {
            id,
            class: None,
            start_date,
            end_date: None,
            duration: None,
            planned_duration: None,
            scte35_cmd: None,
            scte35_out: None,
            scte35_in: None,
            end_on_next: None,
            client_attributes: ClientAttributes::new(),
        }
    }

    /// The tag with the class `class`.
    pub fn with_class(self, class: QuotedString) -> (r: ExtXDateRange)
        ensures
            r@ == (ExtXDateRangeView { class: Some(class@), ..self@ }),
    {
        let mut tag = self;
        tag.class = Some(class);
        tag
    }

    /// The tag with the end date `date`.
    pub fn with_end_date(self, date: Date) -> (r: ExtXDateRange)
        ensures
            r@ == (ExtXDateRangeView { end_date: Some(date), ..self@ }),
    {
        proof {
            use_type_invariant(&self);
        }
        let mut tag = self;
        tag.end_date = Some(date);
        tag
    }

    /// The tag with the duration `duration`.
    pub fn with_duration(self, duration: Duration) -> (r: ExtXDateRange)
        ensures
            r@ == (ExtXDateRangeView { duration: Some(duration), ..self@ }),
    {
        proof {
            use_type_invariant(&self);
        }
        let mut tag = self;
        tag.duration = Some(duration);
        tag
    }

    /// The tag with the planned duration `duration`.
    pub fn with_planned_duration(self, duration: Duration) -> (r: ExtXDateRange)
        ensures
            r@ == (ExtXDateRangeView { planned_duration: Some(duration), ..self@ }),
    {
        proof {
            use_type_invariant(&self);
        }
        let mut tag = self;
        tag.planned_duration = Some(duration);
        tag
    }

    /// The tag with the SCTE-35 command `data`.
    pub fn with_scte35_cmd(self, data: QuotedString) -> (r: ExtXDateRange)
        ensures
            r@ == (ExtXDateRangeView { scte35_cmd: Some(data@), ..self@ }),
    {
        proof {
            use_type_invariant(&self);
        }
        let mut tag = self;
        tag.scte35_cmd = Some(data);
        tag
    }

    /// The tag with the SCTE-35 splice-out `data`.
    pub fn with_scte35_out(self, data: QuotedString) -> (r: ExtXDateRange)
        ensures
            r@ == (ExtXDateRangeView { scte35_out: Some(data@), ..self@ }),
    {
        proof {
            use_type_invariant(&self);
        }
        let mut tag = self;
        tag.scte35_out = Some(data);
        tag
    }

    /// The tag with the SCTE-35 splice-in `data`.
    pub fn with_scte35_in(self, data: QuotedString) -> (r: ExtXDateRange)
        ensures
            r@ == (ExtXDateRangeView { scte35_in: Some(data@), ..self@ }),
    {
        proof {
            use_type_invariant(&self);
        }
        let mut tag = self;
        tag.scte35_in = Some(data);
        tag
    }

    /// The tag with `end_on_next`, which only a tag with a class can have.
    pub fn with_end_on_next(self) -> (r: Result<ExtXDateRange, Error>)
        ensures
            match r {
                Ok(tag) => self@.class is Some && tag@ == (ExtXDateRangeView {
                    end_on_next: Some(Yes),
                    ..self@
                }),
                Err(e) => self@.class is None && e == invalid(Reason::ForbiddenCombination),
            },
    {
        if self.class.is_some() {
            let mut tag = self;
            tag.end_on_next = Some(Yes);
            Ok(tag)
        } else {
            Err(Error::invalid_input(Reason::ForbiddenCombination))
        }
    }

    /// The tag with the client-defined attribute `name`, written as
    /// `X-` and the name, holding the raw value `value`. The name must be
    /// an attribute name and the value a raw value that can stand in a
    /// list.
    pub fn with_client_attribute(self, name: &str, value: &str) -> (r: Result<
        ExtXDateRange,
        Error,
    >)
        ensures
            match r {
                Ok(tag) => is_name(name@) && is_raw_value(value@) && tag@ == (ExtXDateRangeView {
                    client_attributes: insert_entry(self@.client_attributes, name@, value@),
                    ..self@
                }),
                Err(e) => !(is_name(name@) && is_raw_value(value@)) && e == invalid(
                    Reason::InvalidValue,
                ),
            },
    {
        proof {
            use_type_invariant(&self);
        }
        let ExtXDateRange {
            id,
            class,
            start_date,
            end_date,
            duration,
            planned_duration,
            scte35_cmd,
            scte35_out,
            scte35_in,
            end_on_next,
            client_attributes,
        } = self;
        let mut client_attributes = client_attributes;
        match client_attributes.insert(name, value) {
            Ok(_) => Ok(
                ExtXDateRange {
                    id,
                    class,
                    start_date,
                    end_date,
                    duration,
                    planned_duration,
                    scte35_cmd,
                    scte35_out,
                    scte35_in,
                    end_on_next,
                    client_attributes,
                },
            ),
            Err(e) => Err(e),
        }
    }

    /// Returns the identifier of the date range.
    pub fn id(&self) -> (r: &QuotedString)
        ensures
            r@ == self@.id,
    {
        &self.id
    }

    /// Returns the class of the date range.
    pub fn class(&self) -> (r: Option<&QuotedString>)
        ensures
            match r {
                Some(class) => self@.class == Some(class@),
                None => self@.class is None,
            },
    {
        self.class.as_ref()
    }

    /// Returns the date at which the range begins.
    pub fn start_date(&self) -> (r: Date)
        ensures
            r == self@.start_date,
    {
        self.start_date
    }

    /// Returns the date at which the range ends.
    pub fn end_date(&self) -> (r: Option<Date>)
        ensures
            r == self@.end_date,
    {
        self.end_date
    }

    /// Returns the duration of the range.
    pub fn duration(&self) -> (r: Option<Duration>)
        ensures
            r == self@.duration,
    {
        self.duration
    }

    /// Returns the duration that the range is expected to have.
    pub fn planned_duration(&self) -> (r: Option<Duration>)
        ensures
            r == self@.planned_duration,
    {
        self.planned_duration
    }

    /// Returns the SCTE-35 command.
    pub fn scte35_cmd(&self) -> (r: Option<&QuotedString>)
        ensures
            match r {
                Some(data) => self@.scte35_cmd == Some(data@),
                None => self@.scte35_cmd is None,
            },
    {
        self.scte35_cmd.as_ref()
    }

    /// Returns the SCTE-35 splice-out data.
    pub fn scte35_out(&self) -> (r: Option<&QuotedString>)
        ensures
            match r {
                Some(data) => self@.scte35_out == Some(data@),
                None => self@.scte35_out is None,
            },
    {
        self.scte35_out.as_ref()
    }

    /// Returns the SCTE-35 splice-in data.
    pub fn scte35_in(&self) -> (r: Option<&QuotedString>)
        ensures
            match r {
                Some(data) => self@.scte35_in == Some(data@),
                None => self@.scte35_in is None,
            },
    {
        self.scte35_in.as_ref()
    }

    /// Returns whether the range ends where the next range of its class
    /// begins.
    pub fn end_on_next(&self) -> (r: Option<Yes>)
        ensures
            r == self@.end_on_next,
    {
        self.end_on_next
    }

    /// Returns the client-defined attributes.
    pub fn client_attributes(&self) -> (r: &ClientAttributes)
        ensures
            r@ == self@.client_attributes,
    {
        &self.client_attributes
    }

    /// Returns the protocol compatibility version that this tag requires.
    pub fn requires_version(&self) -> (v: ProtocolVersion)
        ensures
            v == self@.version(),
    {
        ProtocolVersion::V1
    }

    /// Reads the line of an `EXT-X-DATERANGE` tag.
    pub fn parse(s: &str) -> (r: Result<ExtXDateRange, Error>)
        ensures
            match r {
                Ok(tag) => ExtXDateRangeView::from_text(s@) == Ok::<ExtXDateRangeView, Error>(
                    tag@,
                ),
                Err(e) => ExtXDateRangeView::from_text(s@) == Err::<ExtXDateRangeView, Error>(e),
            },
    {
        let chars = str_to_chars(s);
        let list = match strip_prefix(chars.as_slice(), "#EXT-X-DATERANGE:") {
            Some(list) => list,
            None => {
                return Err(Error::invalid_input(Reason::PrefixMismatch));
            },
        };
        let pairs = AttributePairs::parse_chars(list)?;
        proof {
            lemma_split_valid(list@);
        }
        let id = read_attribute::<QuotedString>(&pairs, "ID")?;
        let class = read_attribute::<QuotedString>(&pairs, "CLASS")?;
        let start_date = read_attribute::<Date>(&pairs, "START-DATE")?;
        let end_date = read_attribute::<Date>(&pairs, "END-DATE")?;
        let duration = read_attribute::<Duration>(&pairs, "DURATION")?;
        let planned_duration = read_attribute::<Duration>(&pairs, "PLANNED-DURATION")?;
        let scte35_cmd = read_attribute::<QuotedString>(&pairs, "SCTE35-CMD")?;
        let scte35_out = read_attribute::<QuotedString>(&pairs, "SCTE35-OUT")?;
        let scte35_in = read_attribute::<QuotedString>(&pairs, "SCTE35-IN")?;
        let end_on_next = read_attribute::<Yes>(&pairs, "END-ON-NEXT")?;
        let client_attributes = read_client_attributes(&pairs);
        let (id, start_date) = match (id, start_date) {
            (Some(id), Some(start_date)) => (id, start_date),
            _ => {
                return Err(Error::invalid_input(Reason::MissingField));
            },
        };
        if end_on_next.is_some() && class.is_none() {
            return Err(Error::invalid_input(Reason::ForbiddenCombination));
        }
        Ok(
            ExtXDateRange {
                id,
                class,
                start_date,
                end_date,
                duration,
                planned_duration,
                scte35_cmd,
                scte35_out,
                scte35_in,
                end_on_next,
                client_attributes,
            },
        )
    }

    /// The attributes of the tag, in the order in which they are written.
    pub fn attributes(&self) -> (r: AttributePairs)
        ensures
            r@ == self@.attributes(),
    {
        let mut pairs = AttributePairs::new();
        pairs.push("ID", self.id.to_chars());
        pairs.push_optional("CLASS", optional_quoted_chars(&self.class));
        pairs.push("START-DATE", self.start_date.to_chars());
        pairs.push_optional("END-DATE", optional_date_chars(&self.end_date));
        pairs.push_optional("DURATION", optional_seconds_chars(&self.duration));
        pairs.push_optional("PLANNED-DURATION", optional_seconds_chars(&self.planned_duration));
        pairs.push_optional("SCTE35-CMD", optional_quoted_chars(&self.scte35_cmd));
        pairs.push_optional("SCTE35-OUT", optional_quoted_chars(&self.scte35_out));
        pairs.push_optional("SCTE35-IN", optional_quoted_chars(&self.scte35_in));
        let yes = match self.end_on_next {
            Some(y) => Some(y.to_chars()),
            None => None,
        };
        pairs.push_optional("END-ON-NEXT", yes);
        assert(pairs@ == self@.defined_attributes());
        let mut i: usize = 0;
        proof {
            assert(client_pairs(self@.client_attributes.take(0)) =~= Seq::<
                (Seq<char>, Seq<char>),
            >::empty());
            assert(pairs@ =~= self@.defined_attributes() + client_pairs(
                self@.client_attributes.take(0),
            ));
        }
        while i < self.client_attributes.len()
            invariant
                i <= self@.client_attributes.len(),
                self@.client_attributes == self.client_attributes@,
                pairs@ == self@.defined_attributes() + client_pairs(
                    self@.client_attributes.take(i as int),
                ),
            decreases self@.client_attributes.len() - i,
        {
            let mut name = str_to_chars("X-");
            push_chars(&mut name, self.client_attributes.name_chars(i));
            let value = slice_to_vec(self.client_attributes.value_chars(i));
            let ghost before = pairs@;
            pairs.pairs.push(AttributePair { name, value });
            proof {
                let m = self@.client_attributes;
                assert(pairs@ =~= before.push((client_name(m[i as int].0), m[i as int].1)));
                assert(client_pairs(m.take(i + 1)) =~= client_pairs(m.take(i as int)).push(
                    (client_name(m[i as int].0), m[i as int].1),
                ));
                assert(pairs@ =~= self@.defined_attributes() + client_pairs(m.take(i + 1)));
            }
            i = i + 1;
        }
        proof {
            let m = self@.client_attributes;
            assert(m.take(m.len() as int) == m);
        }
        pairs
    }

    /// What is known of every tag that code holds: it is valid.
    fn known_valid(&self)
        ensures
            self@.wf(),
    {
        proof {
            use_type_invariant(self);
            use_type_invariant(&self.id);
            self.id.lemma_wf();
            use_type_invariant(&self.start_date);
            use_type_invariant(&self.client_attributes);
            self.client_attributes.lemma_wf();
        }
        quoted_is_quotable(&self.class);
        quoted_is_quotable(&self.scte35_cmd);
        quoted_is_quotable(&self.scte35_out);
        quoted_is_quotable(&self.scte35_in);
        match &self.end_date {
            Some(date) => {
                proof {
                    use_type_invariant(date);
                }
            },
            None => {},
        }
        match &self.duration {
            Some(span) => {
                proof {
                    use_type_invariant(span);
                }
            },
            None => {},
        }
        match &self.planned_duration {
            Some(span) => {
                proof {
                    use_type_invariant(span);
                }
            },
            None => {},
        }
    }

    /// Writes the line of the tag. The line parses to the tag again.
    pub fn render(&self) -> (r: String)
        ensures
            r@ == self@.text(),
            self@.wf(),
            ExtXDateRangeView::from_text(r@) == Ok::<ExtXDateRangeView, Error>(self@),
    {
        self.known_valid();
        proof {
            lemma_date_range_round_trip(self@);
        }
        let pairs = self.attributes();
        let mut buf = str_to_chars("#EXT-X-DATERANGE:");
        pairs.push_text(&mut buf);
        chars_to_string(buf.as_slice())
    }
}

/// The values of a name of which at most one attribute is written.
pub open spec fn at_most_one(value: Option<Seq<char>>) -> Seq<Seq<char>> {
    match value {
        Some(v) => seq![v],
        None => Seq::empty(),
    }
}

/// The names that the protocol defines are attribute names, differ
/// from each other, and do not begin with `X-`.
pub proof fn lemma_date_range_names()
    ensures
        is_name("ID"@) && !is_client_name("ID"@) && "ID"@.len() == 2,
        is_name("CLASS"@) && !is_client_name("CLASS"@) && "CLASS"@.len() == 5,
        is_name("START-DATE"@) && !is_client_name("START-DATE"@) && "START-DATE"@.len() == 10,
        is_name("END-DATE"@) && !is_client_name("END-DATE"@) && "END-DATE"@.len() == 8,
        is_name("DURATION"@) && !is_client_name("DURATION"@) && "DURATION"@.len() == 8,
        is_name("PLANNED-DURATION"@) && !is_client_name("PLANNED-DURATION"@)
            && "PLANNED-DURATION"@.len() == 16,
        is_name("SCTE35-CMD"@) && !is_client_name("SCTE35-CMD"@) && "SCTE35-CMD"@.len() == 10,
        is_name("SCTE35-OUT"@) && !is_client_name("SCTE35-OUT"@) && "SCTE35-OUT"@.len() == 10,
        is_name("SCTE35-IN"@) && !is_client_name("SCTE35-IN"@) && "SCTE35-IN"@.len() == 9,
        is_name("END-ON-NEXT"@) && !is_client_name("END-ON-NEXT"@) && "END-ON-NEXT"@.len() == 11,
        "END-DATE"@ != "DURATION"@,
        "START-DATE"@ != "SCTE35-CMD"@,
        "START-DATE"@ != "SCTE35-OUT"@,
        "SCTE35-CMD"@ != "SCTE35-OUT"@,
{
    lemma_client_prefix();
    reveal_strlit("ID");
    reveal_strlit("CLASS");
    reveal_strlit("START-DATE");
    reveal_strlit("END-DATE");
    reveal_strlit("DURATION");
    reveal_strlit("PLANNED-DURATION");
    reveal_strlit("SCTE35-CMD");
    reveal_strlit("SCTE35-OUT");
    reveal_strlit("SCTE35-IN");
    reveal_strlit("END-ON-NEXT");
    lemma_name_not_client("ID"@);
    lemma_name_not_client("CLASS"@);
    lemma_name_not_client("START-DATE"@);
    lemma_name_not_client("END-DATE"@);
    lemma_name_not_client("DURATION"@);
    lemma_name_not_client("PLANNED-DURATION"@);
    lemma_name_not_client("SCTE35-CMD"@);
    lemma_name_not_client("SCTE35-OUT"@);
    lemma_name_not_client("SCTE35-IN"@);
    lemma_name_not_client("END-ON-NEXT"@);
    assert forall|i: int| 0 <= i < "ID"@.len() implies is_name_char(#[trigger] "ID"@[i]) by {}
    assert forall|i: int| 0 <= i < "CLASS"@.len() implies is_name_char(
        #[trigger] "CLASS"@[i],
    ) by {}
    assert forall|i: int| 0 <= i < "START-DATE"@.len() implies is_name_char(
        #[trigger] "START-DATE"@[i],
    ) by {}
    assert forall|i: int| 0 <= i < "END-DATE"@.len() implies is_name_char(
        #[trigger] "END-DATE"@[i],
    ) by {}
    assert forall|i: int| 0 <= i < "DURATION"@.len() implies is_name_char(
        #[trigger] "DURATION"@[i],
    ) by {}
    assert forall|i: int| 0 <= i < "PLANNED-DURATION"@.len() implies is_name_char(
        #[trigger] "PLANNED-DURATION"@[i],
    ) by {}
    assert forall|i: int| 0 <= i < "SCTE35-CMD"@.len() implies is_name_char(
        #[trigger] "SCTE35-CMD"@[i],
    ) by {}
    assert forall|i: int| 0 <= i < "SCTE35-OUT"@.len() implies is_name_char(
        #[trigger] "SCTE35-OUT"@[i],
    ) by {}
    assert forall|i: int| 0 <= i < "SCTE35-IN"@.len() implies is_name_char(
        #[trigger] "SCTE35-IN"@[i],
    ) by {}
    assert forall|i: int| 0 <= i < "END-ON-NEXT"@.len() implies is_name_char(
        #[trigger] "END-ON-NEXT"@[i],
    ) by {}
    assert("END-DATE"@[0] != "DURATION"@[0]);
    assert("START-DATE"@[1] != "SCTE35-CMD"@[1]);
    assert("START-DATE"@[1] != "SCTE35-OUT"@[1]);
    assert("SCTE35-CMD"@[7] != "SCTE35-OUT"@[7]);
}

/// A name that does not begin with `X` is not client-defined.
proof fn lemma_name_not_client(name: Seq<char>)
    requires
        name.len() == 0 || name[0] != 'X',
    ensures
        !is_client_name(name),
{
    lemma_client_prefix();
    if is_client_name(name) {
        assert(name.subrange(0, 2)[0] == 'X');
    }
}

/// What the defined attributes of a valid tag hold under each name: they
/// can stand in a list, and none of them is client-defined.
pub proof fn lemma_date_range_defined(tag: ExtXDateRangeView)
    requires
        tag.wf(),
    ensures
        all_pairs_valid(tag.defined_attributes()),
        client_entries(tag.defined_attributes()).len() == 0,
        named(tag.defined_attributes(), "ID"@) == seq![quoted_text(tag.id)],
        named(tag.defined_attributes(), "CLASS"@) == at_most_one(optional_quoted(tag.class)),
        named(tag.defined_attributes(), "START-DATE"@) == seq![
            quoted_text(tag.start_date.text()),
        ],
        named(tag.defined_attributes(), "END-DATE"@) == at_most_one(
            optional_date_text(tag.end_date),
        ),
        named(tag.defined_attributes(), "DURATION"@) == at_most_one(
            optional_seconds_text(tag.duration),
        ),
        named(tag.defined_attributes(), "PLANNED-DURATION"@) == at_most_one(
            optional_seconds_text(tag.planned_duration),
        ),
        named(tag.defined_attributes(), "SCTE35-CMD"@) == at_most_one(
            optional_quoted(tag.scte35_cmd),
        ),
        named(tag.defined_attributes(), "SCTE35-OUT"@) == at_most_one(
            optional_quoted(tag.scte35_out),
        ),
        named(tag.defined_attributes(), "SCTE35-IN"@) == at_most_one(
            optional_quoted(tag.scte35_in),
        ),
        named(tag.defined_attributes(), "END-ON-NEXT"@) == at_most_one(
            optional_yes_text(tag.end_on_next),
        ),
{
    lemma_date_range_names();
    let none = Seq::<(Seq<char>, Seq<char>)>::empty();
    let a1 = none.push(("ID"@, quoted_text(tag.id)));
    let a2 = push_optional(a1, "CLASS"@, optional_quoted(tag.class));
    let a3 = a2.push(("START-DATE"@, quoted_text(tag.start_date.text())));
    let a4 = push_optional(a3, "END-DATE"@, optional_date_text(tag.end_date));
    let a5 = push_optional(a4, "DURATION"@, optional_seconds_text(tag.duration));
    let a6 = push_optional(a5, "PLANNED-DURATION"@, optional_seconds_text(tag.planned_duration));
    let a7 = push_optional(a6, "SCTE35-CMD"@, optional_quoted(tag.scte35_cmd));
    let a8 = push_optional(a7, "SCTE35-OUT"@, optional_quoted(tag.scte35_out));
    let a9 = push_optional(a8, "SCTE35-IN"@, optional_quoted(tag.scte35_in));
    let a10 = push_optional(a9, "END-ON-NEXT"@, optional_yes_text(tag.end_on_next));
    assert(a10 == tag.defined_attributes());
    // Each value can stand in a list.
    lemma_quoted_is_raw_value(tag.id);
    if tag.class is Some {
        lemma_quoted_is_raw_value(tag.class->0);
    }
    lemma_date_round_trip(tag.start_date);
    lemma_quoted_is_raw_value(tag.start_date.text());
    if tag.end_date is Some {
        lemma_date_round_trip(tag.end_date->0);
        lemma_quoted_is_raw_value(tag.end_date->0.text());
    }
    if tag.duration is Some {
        lemma_seconds_text_bare(tag.duration->0);
        lemma_bare_is_raw_value(tag.duration->0.text());
    }
    if tag.planned_duration is Some {
        lemma_seconds_text_bare(tag.planned_duration->0);
        lemma_bare_is_raw_value(tag.planned_duration->0.text());
    }
    if tag.scte35_cmd is Some {
        lemma_quoted_is_raw_value(tag.scte35_cmd->0);
    }
    if tag.scte35_out is Some {
        lemma_quoted_is_raw_value(tag.scte35_out->0);
    }
    if tag.scte35_in is Some {
        lemma_quoted_is_raw_value(tag.scte35_in->0);
    }
    lemma_yes_text_bare();
    lemma_bare_is_raw_value("YES"@);
    assert(all_pairs_valid(none));
    lemma_valid_push(none, ("ID"@, quoted_text(tag.id)));
    lemma_valid_push_optional(a1, "CLASS"@, optional_quoted(tag.class));
    lemma_valid_push(a2, ("START-DATE"@, quoted_text(tag.start_date.text())));
    lemma_valid_push_optional(a3, "END-DATE"@, optional_date_text(tag.end_date));
    lemma_valid_push_optional(a4, "DURATION"@, optional_seconds_text(tag.duration));
    lemma_valid_push_optional(a5, "PLANNED-DURATION"@, optional_seconds_text(tag.planned_duration));
    lemma_valid_push_optional(a6, "SCTE35-CMD"@, optional_quoted(tag.scte35_cmd));
    lemma_valid_push_optional(a7, "SCTE35-OUT"@, optional_quoted(tag.scte35_out));
    lemma_valid_push_optional(a8, "SCTE35-IN"@, optional_quoted(tag.scte35_in));
    lemma_valid_push_optional(a9, "END-ON-NEXT"@, optional_yes_text(tag.end_on_next));
    // No name is client-defined.
    assert forall|i: int| 0 <= i < a10.len() implies !is_client_name((#[trigger] a10[i]).0) by {
        lemma_defined_names(tag, i);
    }
    lemma_client_entries_none(a10);
    // The values of each name.
    lemma_named_empty();
    lemma_named_push(none, ("ID"@, quoted_text(tag.id)));
    lemma_named_push_optional(a1, "CLASS"@, optional_quoted(tag.class));
    lemma_named_push(a2, ("START-DATE"@, quoted_text(tag.start_date.text())));
    lemma_named_push_optional(a3, "END-DATE"@, optional_date_text(tag.end_date));
    lemma_named_push_optional(a4, "DURATION"@, optional_seconds_text(tag.duration));
    lemma_named_push_optional(a5, "PLANNED-DURATION"@, optional_seconds_text(tag.planned_duration));
    lemma_named_push_optional(a6, "SCTE35-CMD"@, optional_quoted(tag.scte35_cmd));
    lemma_named_push_optional(a7, "SCTE35-OUT"@, optional_quoted(tag.scte35_out));
    lemma_named_push_optional(a8, "SCTE35-IN"@, optional_quoted(tag.scte35_in));
    lemma_named_push_optional(a9, "END-ON-NEXT"@, optional_yes_text(tag.end_on_next));
    assert(named(a10, "ID"@) =~= seq![quoted_text(tag.id)]);
    assert(named(a10, "CLASS"@) =~= at_most_one(optional_quoted(tag.class)));
    assert(named(a10, "START-DATE"@) =~= seq![quoted_text(tag.start_date.text())]);
    assert(named(a10, "END-DATE"@) =~= at_most_one(optional_date_text(tag.end_date)));
    assert(named(a10, "DURATION"@) =~= at_most_one(optional_seconds_text(tag.duration)));
    assert(named(a10, "PLANNED-DURATION"@) =~= at_most_one(
        optional_seconds_text(tag.planned_duration),
    ));
    assert(named(a10, "SCTE35-CMD"@) =~= at_most_one(optional_quoted(tag.scte35_cmd)));
    assert(named(a10, "SCTE35-OUT"@) =~= at_most_one(optional_quoted(tag.scte35_out)));
    assert(named(a10, "SCTE35-IN"@) =~= at_most_one(optional_quoted(tag.scte35_in)));
    assert(named(a10, "END-ON-NEXT"@) =~= at_most_one(optional_yes_text(tag.end_on_next)));
}

/// Every defined attribute has one of the ten defined names.
proof fn lemma_defined_names(tag: ExtXDateRangeView, i: int)
    requires
        0 <= i < tag.defined_attributes().len(),
    ensures
        !is_client_name(tag.defined_attributes()[i].0),
{
    lemma_date_range_names();
    let n = tag.defined_attributes()[i].0;
    assert(n == "ID"@ || n == "CLASS"@ || n == "START-DATE"@ || n == "END-DATE"@ || n
        == "DURATION"@ || n == "PLANNED-DURATION"@ || n == "SCTE35-CMD"@ || n == "SCTE35-OUT"@
        || n == "SCTE35-IN"@ || n == "END-ON-NEXT"@);
}

/// Parsing the line that a valid tag renders gives the tag back.
pub proof fn lemma_date_range_round_trip(tag: ExtXDateRangeView)
    requires
        tag.wf(),
    ensures
        ExtXDateRangeView::from_text(tag.text()) == Ok::<ExtXDateRangeView, Error>(tag),
{
    let defined = tag.defined_attributes();
    let client = client_pairs(tag.client_attributes);
    let ps = tag.attributes();
    lemma_date_range_names();
    lemma_date_range_defined(tag);
    lemma_client_pairs(tag.client_attributes);
    lemma_valid_concat(defined, client);
    lemma_client_entries_written(defined, tag.client_attributes);
    lemma_named_concat(defined, client, "ID"@);
    lemma_named_concat(defined, client, "CLASS"@);
    lemma_named_concat(defined, client, "START-DATE"@);
    lemma_named_concat(defined, client, "END-DATE"@);
    lemma_named_concat(defined, client, "DURATION"@);
    lemma_named_concat(defined, client, "PLANNED-DURATION"@);
    lemma_named_concat(defined, client, "SCTE35-CMD"@);
    lemma_named_concat(defined, client, "SCTE35-OUT"@);
    lemma_named_concat(defined, client, "SCTE35-IN"@);
    lemma_named_concat(defined, client, "END-ON-NEXT"@);
    assert(named(ps, "ID"@) =~= named(defined, "ID"@));
    assert(named(ps, "CLASS"@) =~= named(defined, "CLASS"@));
    assert(named(ps, "START-DATE"@) =~= named(defined, "START-DATE"@));
    assert(named(ps, "END-DATE"@) =~= named(defined, "END-DATE"@));
    assert(named(ps, "DURATION"@) =~= named(defined, "DURATION"@));
    assert(named(ps, "PLANNED-DURATION"@) =~= named(defined, "PLANNED-DURATION"@));
    assert(named(ps, "SCTE35-CMD"@) =~= named(defined, "SCTE35-CMD"@));
    assert(named(ps, "SCTE35-OUT"@) =~= named(defined, "SCTE35-OUT"@));
    assert(named(ps, "SCTE35-IN"@) =~= named(defined, "SCTE35-IN"@));
    assert(named(ps, "END-ON-NEXT"@) =~= named(defined, "END-ON-NEXT"@));
    // Each value reads back as what was written.
    lemma_quoted_round_trip(tag.id);
    if tag.class is Some {
        lemma_quoted_round_trip(tag.class->0);
    }
    lemma_date_round_trip(tag.start_date);
    lemma_quoted_round_trip(tag.start_date.text());
    if tag.end_date is Some {
        lemma_date_round_trip(tag.end_date->0);
        lemma_quoted_round_trip(tag.end_date->0.text());
    }
    if tag.duration is Some {
        lemma_seconds_round_trip(tag.duration->0);
    }
    if tag.planned_duration is Some {
        lemma_seconds_round_trip(tag.planned_duration->0);
    }
    if tag.scte35_cmd is Some {
        lemma_quoted_round_trip(tag.scte35_cmd->0);
    }
    if tag.scte35_out is Some {
        lemma_quoted_round_trip(tag.scte35_out->0);
    }
    if tag.scte35_in is Some {
        lemma_quoted_round_trip(tag.scte35_in->0);
    }
    assert(all_decodable::<QuotedString>(named(ps, "ID"@)));
    assert(all_decodable::<QuotedString>(named(ps, "CLASS"@)));
    assert(all_decodable::<Date>(named(ps, "START-DATE"@)));
    assert(all_decodable::<Date>(named(ps, "END-DATE"@)));
    assert(all_decodable::<Duration>(named(ps, "DURATION"@)));
    assert(all_decodable::<Duration>(named(ps, "PLANNED-DURATION"@)));
    assert(all_decodable::<QuotedString>(named(ps, "SCTE35-CMD"@)));
    assert(all_decodable::<QuotedString>(named(ps, "SCTE35-OUT"@)));
    assert(all_decodable::<QuotedString>(named(ps, "SCTE35-IN"@)));
    assert(all_decodable::<Yes>(named(ps, "END-ON-NEXT"@)));
    assert(ExtXDateRangeView::values_decodable(ps));
    let back = ExtXDateRangeView::from_pairs(ps);
    assert(back is Ok);
    assert(back->Ok_0.id == tag.id);
    assert(back->Ok_0.class == tag.class);
    assert(back->Ok_0.start_date == tag.start_date);
    assert(back->Ok_0.end_date == tag.end_date);
    assert(back->Ok_0.duration == tag.duration);
    assert(back->Ok_0.planned_duration == tag.planned_duration);
    assert(back->Ok_0.scte35_cmd == tag.scte35_cmd);
    assert(back->Ok_0.scte35_out == tag.scte35_out);
    assert(back->Ok_0.scte35_in == tag.scte35_in);
    assert(back->Ok_0.end_on_next == tag.end_on_next);
    assert(back->Ok_0.client_attributes == tag.client_attributes);
    assert(ExtXDateRangeView::from_pairs(ps) == Ok::<ExtXDateRangeView, Error>(tag));
    lemma_split_join(ps);
    lemma_after_prefix(ExtXDateRangeView::prefix(), join_pairs(ps));
}

/// A line that does not begin with the prefix of the tag is refused.
pub proof fn lemma_date_range_prefix_rejection(s: Seq<char>)
    requires
        !ExtXDateRangeView::prefix().is_prefix_of(s),
    ensures
        ExtXDateRangeView::from_text(s) == Err::<ExtXDateRangeView, Error>(
            invalid(Reason::PrefixMismatch),
        ),
{
}

/// Whether the tag gives the name a meaning: it is one of the defined
/// names, or begins with `X-`.
pub open spec fn is_known_name(name: Seq<char>) -> bool {
    name == "ID"@ || name == "CLASS"@ || name == "START-DATE"@ || name == "END-DATE"@ || name
        == "DURATION"@ || name == "PLANNED-DURATION"@ || name == "SCTE35-CMD"@ || name
        == "SCTE35-OUT"@ || name == "SCTE35-IN"@ || name == "END-ON-NEXT"@ || is_client_name(name)
}

/// One more attribute at the end of a line that parses, with a name that
/// the tag does not know, changes nothing in what the line parses to.
pub proof fn lemma_date_range_unknown_attribute(s: Seq<char>, name: Seq<char>, value: Seq<char>)
    requires
        ExtXDateRangeView::from_text(s) is Ok,
        s.last() != ',',
        is_name(name),
        is_raw_value(value),
        !is_known_name(name),
    ensures
        ExtXDateRangeView::from_text(s + seq![','] + pair_text((name, value)))
            == ExtXDateRangeView::from_text(s),
{
    let prefix = ExtXDateRangeView::prefix();
    let ps = split_pairs(after_prefix(s, prefix)->0)->0;
    lemma_named_empty();
    assert(ps.len() > 0) by {
        if ps.len() == 0 {
            assert(ps =~= Seq::<(Seq<char>, Seq<char>)>::empty());
        }
    }
    lemma_line_append(s, prefix, name, value);
    lemma_named_push(ps, (name, value));
    lemma_client_entries_push(ps, (name, value));
}

/// In a tag that a list of attributes describes, `end_on_next` comes
/// with a class.
pub proof fn lemma_date_range_end_on_next(ps: Seq<(Seq<char>, Seq<char>)>)
    requires
        ExtXDateRangeView::from_pairs(ps) is Ok,
    ensures
        ExtXDateRangeView::from_pairs(ps)->Ok_0.end_on_next is Some ==> ExtXDateRangeView::from_pairs(
            ps,
        )->Ok_0.class is Some,
{
    let classes = named(ps, "CLASS"@);
    if classes.len() > 0 {
        assert(<QuotedString as crate::attribute::Codec>::decode(classes[classes.len() - 1])
            is Some);
    }
}

/// Rendering depends on nothing but what the tag holds.
pub proof fn lemma_date_range_render_deterministic(a: ExtXDateRangeView, b: ExtXDateRangeView)
    requires
        a == b,
    ensures
        a.text() == b.text(),
{
}

} // verus!
