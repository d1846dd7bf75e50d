//! Attribute lists: the `NAME=VALUE` pairs, separated by commas, that follow
//! the prefix of several tags.
//!
//! A comma inside a quoted string belongs to the value. Splitting a list
//! leaves each value as raw text; the tag that owns the attribute reads it
//! with the codec of its type.

use vstd::prelude::*;
use vstd::slice::slice_to_vec;
use crate::error::{invalid, Error, Reason};
use crate::number::is_digit;
use crate::text::{
    after_prefix, chars_equal, chars_to_string, find_char, first_index, head,
    lemma_after_prefix, lemma_first_index, lemma_first_index_is, lemma_prefix_split,
    push_chars, str_to_chars, tail,
};

verus! {

/// Whether `c` may stand in an attribute name: an upper-case letter, a
/// digit or `-`.
pub open spec fn is_name_char(c: char) -> bool {
    ('A' <= c && c <= 'Z') || is_digit(c) || c == '-'
}

/// Whether `s` is an attribute name.
pub open spec fn is_name(s: Seq<char>) -> bool {
    forall|i: int| 0 <= i < s.len() ==> is_name_char(#[trigger] s[i])
}

/// Whether a quoted string that began in `s` is still open at its end:
/// `s` holds an odd number of `"`.
pub open spec fn quote_open(s: Seq<char>) -> bool
    decreases s.len(),
{
    if s.len() == 0 {
        false
    } else {
        quote_open(s.drop_last()) != (s.last() == '"')
    }
}

/// Whether position `i` of `s` holds a comma outside every quoted string.
pub open spec fn separator_at(s: Seq<char>, i: int) -> bool {
    0 <= i < s.len() && s[i] == ',' && !quote_open(s.take(i))
}

/// The first position from `from` on that holds a separator, or the
/// length of `s`.
pub open spec fn next_separator(s: Seq<char>, from: int) -> int
    decreases s.len() - from,
{
    if from >= s.len() {
        s.len() as int
    } else if separator_at(s, from) {
        from
    } else {
        next_separator(s, from + 1)
    }
}

/// The length of the raw value at the head of `s`.
pub open spec fn value_end(s: Seq<char>) -> int {
    next_separator(s, 0)
}

/// Whether `v` can stand as the raw value of an attribute: it holds no
/// comma outside a quoted string and leaves no quoted string open.
pub open spec fn is_raw_value(v: Seq<char>) -> bool {
    value_end(v) == v.len() && !quote_open(v)
}

/// What is left of `s` after the raw value of length `end` and the comma
/// that follows it.
pub open spec fn after_value(s: Seq<char>, end: int) -> Seq<char> {
    if end < s.len() {
        s.skip(end + 1)
    } else {
        Seq::empty()
    }
}

/// The pairs of name and raw value that the attribute list `s` holds, in
/// order; `None` where a name holds a character that no name may hold, a
/// `=` is missing, or a quoted string is never closed.
pub open spec fn split_pairs(s: Seq<char>) -> Option<Seq<(Seq<char>, Seq<char>)>>
    decreases s.len(),
{
    if s.len() == 0 {
        Some(Seq::empty())
    } else {
        let eq = first_index(s, '=');
        if 0 <= eq < s.len() {
            let rest = s.skip(eq + 1);
            let end = value_end(rest);
            if is_name(s.take(eq)) && 0 <= end <= rest.len() && !quote_open(rest.take(end)) {
                match split_pairs(after_value(rest, end)) {
                    Some(ps) => Some(seq![(s.take(eq), rest.take(end))] + ps),
                    None => None,
                }
            } else {
                None
            }
        } else {
            None
        }
    }
}

/// The text of one pair.
pub open spec fn pair_text(p: (Seq<char>, Seq<char>)) -> Seq<char> {
    p.0 + seq!['='] + p.1
}

/// The text of a list of pairs: the pairs in order, a comma between two.
pub open spec fn join_pairs(ps: Seq<(Seq<char>, Seq<char>)>) -> Seq<char>
    decreases ps.len(),
{
    if ps.len() == 0 {
        Seq::empty()
    } else if ps.len() == 1 {
        pair_text(ps[0])
    } else {
        join_pairs(ps.drop_last()) + seq![','] + pair_text(ps.last())
    }
}

/// Whether every pair has a name and a raw value that can stand in a list.
pub open spec fn all_pairs_valid(ps: Seq<(Seq<char>, Seq<char>)>) -> bool {
    forall|i: int| 0 <= i < ps.len() ==> is_name((#[trigger] ps[i]).0) && is_raw_value(ps[i].1)
}

/// The raw values of the pairs named `name`, in order.
pub open spec fn named(ps: Seq<(Seq<char>, Seq<char>)>, name: Seq<char>) -> Seq<Seq<char>>
    decreases ps.len(),
{
    if ps.len() == 0 {
        Seq::empty()
    } else if ps.last().0 == name {
        named(ps.drop_last(), name).push(ps.last().1)
    } else {
        named(ps.drop_last(), name)
    }
}

/// The list `ps` with one more pair at the end where `value` is present.
pub open spec fn push_optional(
    ps: Seq<(Seq<char>, Seq<char>)>,
    name: Seq<char>,
    value: Option<Seq<char>>,
) -> Seq<(Seq<char>, Seq<char>)> {
    match value {
        Some(v) => ps.push((name, v)),
        None => ps,
    }
}

/// A type whose values are read from the raw value of an attribute.
pub trait Codec: Sized {
    /// What a value is, as contracts see it.
    type Value;

    /// This value, as contracts see it.
    spec fn value(&self) -> Self::Value;

    /// What the raw text `s` means; `None` where it follows no grammar of
    /// the type.
    spec fn decode(s: Seq<char>) -> Option<Self::Value>;

    /// Reads a raw value.
    fn parse_chars(s: &[char]) -> (r: Result<Self, Error>)
        ensures
            match r {
                Ok(t) => Self::decode(s@) == Some(t.value()),
                Err(e) => Self::decode(s@) is None && e == invalid(Reason::InvalidValue),
            },
    ;
}

/// Whether each of the raw values can be read as a `T`.
pub open spec fn all_decodable<T: Codec>(values: Seq<Seq<char>>) -> bool {
    forall|i: int| 0 <= i < values.len() ==> T::decode(#[trigger] values[i]) is Some
}

/// What the last of the raw values means as a `T`; `None` where there is
/// no value.
pub open spec fn last_decoded<T: Codec>(values: Seq<Seq<char>>) -> Option<T::Value> {
    if values.len() == 0 {
        None
    } else {
        T::decode(values.last())
    }
}

/// The value of an optional field, as contracts see it.
pub open spec fn value_of<T: Codec>(field: Option<T>) -> Option<T::Value> {
    match field {
        Some(t) => Some(t.value()),
        None => None,
    }
}

// ---------------------------------------------------------------------------
// Facts about the scan for separators

/// `next_separator` is in range, points at a separator unless it is the
/// length, and passes over none.
pub proof fn lemma_next_separator(s: Seq<char>, from: int)
    requires
        0 <= from <= s.len(),
    ensures
        from <= next_separator(s, from) <= s.len(),
        next_separator(s, from) < s.len() ==> separator_at(s, next_separator(s, from)),
        forall|j: int| from <= j < next_separator(s, from) ==> !separator_at(s, j),
    decreases s.len() - from,
{
    if from < s.len() && !separator_at(s, from) {
        lemma_next_separator(s, from + 1);
    }
}

/// A position that no separator comes before, and that holds one unless it
/// is the length, is the next separator.
pub proof fn lemma_next_separator_is(s: Seq<char>, from: int, i: int)
    requires
        0 <= from <= i <= s.len(),
        i < s.len() ==> separator_at(s, i),
        forall|j: int| from <= j < i ==> !separator_at(s, j),
    ensures
        next_separator(s, from) == i,
    decreases i - from,
{
    if from < i {
        lemma_next_separator_is(s, from + 1, i);
    }
}

/// Text without `"` leaves no quoted string open.
pub proof fn lemma_no_quote_closed(s: Seq<char>)
    requires
        !s.contains('"'),
    ensures
        !quote_open(s),
    decreases s.len(),
{
    if s.len() > 0 {
        let t = s.drop_last();
        assert(s.contains(s.last()));
        assert forall|j: int| 0 <= j < t.len() implies t[j] != '"' by {
            assert(s.contains(s[j]));
        }
        assert(!t.contains('"'));
        lemma_no_quote_closed(t);
    }
}

/// Text without `"` and without `,` can stand as a raw value.
pub proof fn lemma_bare_is_raw_value(v: Seq<char>)
    requires
        !v.contains('"'),
        !v.contains(','),
    ensures
        is_raw_value(v),
{
    lemma_no_quote_closed(v);
    assert forall|j: int| 0 <= j < v.len() implies !separator_at(v, j) by {
        assert(v.contains(v[j]));
    }
    lemma_next_separator_is(v, 0, v.len() as int);
}

/// The raw value at the head of `v + "," + t`, for a raw value `v`, is `v`.
pub proof fn lemma_value_end_before_comma(v: Seq<char>, t: Seq<char>)
    requires
        is_raw_value(v),
    ensures
        value_end(v + seq![','] + t) == v.len(),
        (v + seq![','] + t).take(v.len() as int) == v,
        after_value(v + seq![','] + t, v.len() as int) == t,
{
    let s = v + seq![','] + t;
    lemma_next_separator(v, 0);
    assert(s.take(v.len() as int) == v);
    assert forall|j: int| 0 <= j < v.len() implies !separator_at(s, j) by {
        assert(s.take(j) == v.take(j));
        assert(s[j] == v[j]);
        assert(!separator_at(v, j));
    }
    assert(separator_at(s, v.len() as int));
    lemma_next_separator_is(s, 0, v.len() as int);
    assert(s.skip(v.len() as int + 1) == t);
}

/// A name holds no `=`: the first `=` of `k + "=" + t` follows the name.
pub proof fn lemma_name_end(k: Seq<char>, t: Seq<char>)
    requires
        is_name(k),
    ensures
        first_index(k + seq!['='] + t, '=') == k.len(),
        (k + seq!['='] + t).take(k.len() as int) == k,
        (k + seq!['='] + t).skip(k.len() as int + 1) == t,
{
    let s = k + seq!['='] + t;
    assert forall|j: int| 0 <= j < k.len() implies s[j] != '=' by {
        assert(s[j] == k[j]);
        assert(is_name_char(k[j]));
    }
    lemma_first_index_is(s, '=', k.len() as int);
    assert(s.take(k.len() as int) == k);
    assert(s.skip(k.len() as int + 1) == t);
}

// ---------------------------------------------------------------------------
// Splitting what was joined

/// A list of one pair splits into that pair.
pub proof fn lemma_split_single(k: Seq<char>, v: Seq<char>)
    requires
        is_name(k),
        is_raw_value(v),
    ensures
        split_pairs(pair_text((k, v))) == Some(seq![(k, v)]),
{
    let s = k + seq!['='] + v;
    lemma_name_end(k, v);
    assert(s.len() > 0);
    assert(v.take(v.len() as int) == v);
    assert(after_value(v, v.len() as int).len() == 0);
    assert(split_pairs(after_value(v, v.len() as int)) == Some(
        Seq::<(Seq<char>, Seq<char>)>::empty(),
    ));
    assert(seq![(k, v)] + Seq::<(Seq<char>, Seq<char>)>::empty() == seq![(k, v)]);
}

/// A pair, a comma and a list that is not empty split into the pair and
/// what the list splits into.
pub proof fn lemma_split_first(k: Seq<char>, v: Seq<char>, t: Seq<char>)
    requires
        is_name(k),
        is_raw_value(v),
    ensures
        split_pairs(pair_text((k, v)) + seq![','] + t) == match split_pairs(t) {
            Some(ps) => Some(seq![(k, v)] + ps),
            None => None,
        },
{
    let s = pair_text((k, v)) + seq![','] + t;
    let rest = v + seq![','] + t;
    assert(s == k + seq!['='] + rest);
    lemma_name_end(k, rest);
    lemma_value_end_before_comma(v, t);
}

/// The text of a list of two or more pairs is the first pair, a comma and
/// the text of the others.
pub proof fn lemma_join_first(ps: Seq<(Seq<char>, Seq<char>)>)
    requires
        ps.len() >= 2,
    ensures
        join_pairs(ps) == pair_text(ps[0]) + seq![','] + join_pairs(ps.drop_first()),
    decreases ps.len(),
{
    let front = ps.drop_last();
    let back = ps.drop_first();
    if ps.len() == 2 {
        assert(front.len() == 1 && back.len() == 1);
        assert(front[0] == ps[0]);
        assert(back[0] == ps[1]);
        assert(join_pairs(front) == pair_text(front[0]));
        assert(join_pairs(back) == pair_text(back[0]));
    } else {
        lemma_join_first(front);
        assert(front.drop_first() == back.drop_last());
        assert(back.last() == ps.last());
        assert(front[0] == ps[0]);
        assert(join_pairs(back) == join_pairs(back.drop_last()) + seq![','] + pair_text(
            back.last(),
        ));
        assert(join_pairs(ps) =~= pair_text(ps[0]) + seq![','] + (join_pairs(back.drop_last())
            + seq![','] + pair_text(back.last())));
    }
}

/// Splitting the text of a list of valid pairs gives the pairs back.
pub proof fn lemma_split_join(ps: Seq<(Seq<char>, Seq<char>)>)
    requires
        all_pairs_valid(ps),
    ensures
        split_pairs(join_pairs(ps)) == Some(ps),
    decreases ps.len(),
{
    if ps.len() == 0 {
        assert(ps == Seq::<(Seq<char>, Seq<char>)>::empty());
    } else if ps.len() == 1 {
        lemma_split_single(ps[0].0, ps[0].1);
        assert(ps == seq![(ps[0].0, ps[0].1)]);
    } else {
        let back = ps.drop_first();
        assert forall|i: int| 0 <= i < back.len() implies is_name((#[trigger] back[i]).0)
            && is_raw_value(back[i].1) by {
            assert(back[i] == ps[i + 1]);
        }
        lemma_split_join(back);
        lemma_join_first(ps);
        lemma_split_first(ps[0].0, ps[0].1, join_pairs(back));
        assert(seq![(ps[0].0, ps[0].1)] + back == ps);
    }
}

/// One more valid pair at the end of a list that splits, is not empty and
/// does not end in a comma, splits into the same pairs and the new one.
pub proof fn lemma_split_append(s: Seq<char>, k: Seq<char>, v: Seq<char>)
    requires
        split_pairs(s) is Some,
        s.len() > 0,
        s.last() != ',',
        is_name(k),
        is_raw_value(v),
    ensures
        split_pairs(s + seq![','] + pair_text((k, v))) == Some(split_pairs(s)->0.push((k, v))),
    decreases s.len(),
{
    let kv = pair_text((k, v));
    let s2 = s + seq![','] + kv;
    let eq = first_index(s, '=');
    lemma_first_index(s, '=');
    let rest = s.skip(eq + 1);
    let end = value_end(rest);
    lemma_next_separator(rest, 0);
    assert forall|j: int| 0 <= j < eq implies s2[j] != '=' by {
        assert(s2[j] == s[j]);
    }
    assert(s2[eq] == s[eq]);
    lemma_first_index_is(s2, '=', eq);
    assert(s2.take(eq) == s.take(eq));
    let rest2 = s2.skip(eq + 1);
    assert(rest2 == rest + seq![','] + kv);
    assert forall|j: int| 0 <= j < end implies !separator_at(rest2, j) by {
        assert(rest2.take(j) == rest.take(j));
        assert(rest2[j] == rest[j]);
        assert(!separator_at(rest, j));
    }
    assert(rest2.take(end) == rest.take(end));
    let tail = split_pairs(after_value(rest, end))->0;
    let first = (s.take(eq), rest.take(end));
    if end == rest.len() {
        assert(rest.take(end) == rest);
        assert(rest2[end] == ',');
        assert(separator_at(rest2, end));
        lemma_next_separator_is(rest2, 0, end);
        assert(after_value(rest2, end) == kv);
        lemma_split_single(k, v);
        assert(after_value(rest, end).len() == 0);
        assert(tail.len() == 0);
        assert(seq![first] + seq![(k, v)] == (seq![first] + tail).push((k, v)));
    } else {
        assert(rest2[end] == rest[end]);
        assert(separator_at(rest2, end));
        lemma_next_separator_is(rest2, 0, end);
        let r = rest.skip(end + 1);
        assert(after_value(rest, end) == r);
        assert(after_value(rest2, end) == r + seq![','] + kv);
        if r.len() == 0 {
            assert(s.last() == rest[end]);
        } else {
            assert(r.last() == s.last());
            lemma_split_append(r, k, v);
            assert(seq![first] + tail.push((k, v)) == (seq![first] + tail).push((k, v)));
        }
    }
}

/// Every pair that a list splits into has a name and a raw value that can
/// stand in a list.
pub proof fn lemma_split_valid(s: Seq<char>)
    requires
        split_pairs(s) is Some,
    ensures
        all_pairs_valid(split_pairs(s)->0),
    decreases s.len(),
{
    if s.len() > 0 {
        let eq = first_index(s, '=');
        let rest = s.skip(eq + 1);
        let end = value_end(rest);
        let v = rest.take(end);
        lemma_next_separator(rest, 0);
        lemma_split_valid(after_value(rest, end));
        let tail = split_pairs(after_value(rest, end))->0;
        let ps = split_pairs(s)->0;
        assert forall|j: int| 0 <= j < v.len() implies !separator_at(v, j) by {
            assert(v.take(j) == rest.take(j));
            assert(!separator_at(rest, j));
        }
        lemma_next_separator_is(v, 0, v.len() as int);
        assert forall|i: int| 0 <= i < ps.len() implies is_name((#[trigger] ps[i]).0)
            && is_raw_value(ps[i].1) by {
            if i > 0 {
                assert(ps[i] == tail[i - 1]);
            }
        }
    }
}

// ---------------------------------------------------------------------------
// Facts about the values of a name

/// One more pair at the end adds its value to the values of its name and
/// changes those of no other.
pub proof fn lemma_named_push(ps: Seq<(Seq<char>, Seq<char>)>, p: (Seq<char>, Seq<char>))
    ensures
        forall|name: Seq<char>|
            #[trigger] named(ps.push(p), name) == if p.0 == name {
                named(ps, name).push(p.1)
            } else {
                named(ps, name)
            },
{
    assert(ps.push(p).drop_last() == ps);
    assert(ps.push(p).last() == p);
}

/// A pair that may be absent adds its value to the values of its name
/// where it is present, and changes those of no other name.
pub proof fn lemma_named_push_optional(
    ps: Seq<(Seq<char>, Seq<char>)>,
    name: Seq<char>,
    value: Option<Seq<char>>,
)
    ensures
        forall|n: Seq<char>|
            #[trigger] named(push_optional(ps, name, value), n) == if value is Some && name == n {
                named(ps, n).push(value->0)
            } else {
                named(ps, n)
            },
{
    if value is Some {
        lemma_named_push(ps, (name, value->0));
    }
}

/// A valid pair at the end of a list of valid pairs leaves them all valid.
pub proof fn lemma_valid_push(ps: Seq<(Seq<char>, Seq<char>)>, p: (Seq<char>, Seq<char>))
    requires
        all_pairs_valid(ps),
        is_name(p.0),
        is_raw_value(p.1),
    ensures
        all_pairs_valid(ps.push(p)),
{
    let qs = ps.push(p);
    assert forall|i: int| 0 <= i < qs.len() implies is_name((#[trigger] qs[i]).0) && is_raw_value(
        qs[i].1,
    ) by {
        if i < ps.len() {
            assert(qs[i] == ps[i]);
        }
    }
}

/// A valid pair that may be absent, at the end of a list of valid pairs,
/// leaves them all valid.
pub proof fn lemma_valid_push_optional(
    ps: Seq<(Seq<char>, Seq<char>)>,
    name: Seq<char>,
    value: Option<Seq<char>>,
)
    requires
        all_pairs_valid(ps),
        is_name(name),
        value is Some ==> is_raw_value(value->0),
    ensures
        all_pairs_valid(push_optional(ps, name, value)),
{
    if value is Some {
        lemma_valid_push(ps, (name, value->0));
    }
}

/// One more valid pair at the end of a line that is a prefix and a list
/// which splits into at least one pair and does not end in a comma: the
/// new line is the prefix and a list that splits into the same pairs and
/// the new one.
pub proof fn lemma_line_append(
    s: Seq<char>,
    prefix: Seq<char>,
    name: Seq<char>,
    value: Seq<char>,
)
    requires
        after_prefix(s, prefix) is Some,
        split_pairs(after_prefix(s, prefix)->0) is Some,
        split_pairs(after_prefix(s, prefix)->0)->0.len() > 0,
        s.last() != ',',
        is_name(name),
        is_raw_value(value),
    ensures
        after_prefix(s + seq![','] + pair_text((name, value)), prefix) is Some,
        split_pairs(after_prefix(s + seq![','] + pair_text((name, value)), prefix)->0) == Some(
            split_pairs(after_prefix(s, prefix)->0)->0.push((name, value)),
        ),
{
    let list = after_prefix(s, prefix)->0;
    lemma_prefix_split(s, prefix);
    assert(list.len() > 0) by {
        if list.len() == 0 {
            assert(split_pairs(list)->0.len() == 0);
        }
    }
    assert(list.last() == s.last());
    lemma_split_append(list, name, value);
    let more = list + seq![','] + pair_text((name, value));
    assert(s + seq![','] + pair_text((name, value)) =~= prefix + more);
    lemma_after_prefix(prefix, more);
}

/// The values of a name in two lists, one after the other, are its values
/// in the first and then those in the second.
pub proof fn lemma_named_concat(
    a: Seq<(Seq<char>, Seq<char>)>,
    b: Seq<(Seq<char>, Seq<char>)>,
    name: Seq<char>,
)
    ensures
        named(a + b, name) == named(a, name) + named(b, name),
    decreases b.len(),
{
    if b.len() == 0 {
        assert(a + b == a);
        assert(named(a, name) + named(b, name) == named(a, name));
    } else {
        lemma_named_concat(a, b.drop_last(), name);
        assert((a + b).drop_last() == a + b.drop_last());
        assert((a + b).last() == b.last());
        if b.last().0 == name {
            assert(named(a, name) + named(b.drop_last(), name).push(b.last().1) == (named(a, name)
                + named(b.drop_last(), name)).push(b.last().1));
        }
    }
}

/// Two lists of valid pairs, one after the other, are a list of valid pairs.
pub proof fn lemma_valid_concat(a: Seq<(Seq<char>, Seq<char>)>, b: Seq<(Seq<char>, Seq<char>)>)
    requires
        all_pairs_valid(a),
        all_pairs_valid(b),
    ensures
        all_pairs_valid(a + b),
{
    let c = a + b;
    assert forall|i: int| 0 <= i < c.len() implies is_name((#[trigger] c[i]).0) && is_raw_value(
        c[i].1,
    ) by {
        if i < a.len() {
            assert(c[i] == a[i]);
        } else {
            assert(c[i] == b[i - a.len()]);
        }
    }
}

/// The empty list has no values.
pub proof fn lemma_named_empty()
    ensures
        forall|name: Seq<char>|
            (#[trigger] named(Seq::<(Seq<char>, Seq<char>)>::empty(), name)).len() == 0,
{
}

/// The values of a name in the first `i` pairs begin its values in all.
pub proof fn lemma_named_prefix(ps: Seq<(Seq<char>, Seq<char>)>, name: Seq<char>, i: int)
    requires
        0 <= i <= ps.len(),
    ensures
        named(ps.take(i), name).is_prefix_of(named(ps, name)),
    decreases ps.len() - i,
{
    if i == ps.len() {
        assert(ps.take(i) == ps);
    } else {
        lemma_named_prefix(ps, name, i + 1);
        lemma_named_push(ps.take(i), ps[i]);
        assert(ps.take(i).push(ps[i]) == ps.take(i + 1));
    }
}

// ---------------------------------------------------------------------------
// The list as a value

/// One attribute: its name and its raw value.
#[derive(Debug, Clone, PartialEq, Eq, Hash)]
pub struct AttributePair {
    pub name: Vec<char>,
    pub value: Vec<char>,
}

impl View for AttributePair {
    type V = (Seq<char>, Seq<char>);

    open spec fn view(&self) -> (Seq<char>, Seq<char>) {
        (self.name@, self.value@)
    }
}

/// An attribute list: its pairs in the order of the text.
#[derive(Debug, Clone, PartialEq, Eq, Hash)]
pub struct AttributePairs {
    pub pairs: Vec<AttributePair>,
}

/// The pairs of a sequence of attributes, as contracts see them.
pub open spec fn pairs_view(v: Seq<AttributePair>) -> Seq<(Seq<char>, Seq<char>)> {
    Seq::new(v.len(), |i: int| v[i]@)
}

impl View for AttributePairs {
    type V = Seq<(Seq<char>, Seq<char>)>;

    open spec fn view(&self) -> Seq<(Seq<char>, Seq<char>)> {
        pairs_view(self.pairs@)
    }
}

/// Whether every character of `s` may stand in an attribute name.
pub fn is_name_text(s: &[char]) -> (b: bool)
    ensures
        b == is_name(s@),
{
    let mut i: usize = 0;
    while i < s.len()
        invariant
            i <= s.len(),
            forall|j: int| 0 <= j < i ==> is_name_char(#[trigger] s@[j]),
        decreases s.len() - i,
    {
        let c = s[i];
        if !(('A' <= c && c <= 'Z') || ('0' <= c && c <= '9') || c == '-') {
            assert(!is_name_char(s@[i as int]));
            return false;
        }
        i = i + 1;
    }
    true
}

/// The length of the raw value at the head of `s`, and whether a quoted
/// string is still open where it ends.
pub fn scan_value(s: &[char]) -> (r: (usize, bool))
    ensures
        r.0 == value_end(s@),
        r.0 <= s.len(),
        r.1 == quote_open(s@.take(r.0 as int)),
{
    let mut i: usize = 0;
    let mut open = false;
    while i < s.len()
        invariant
            i <= s.len(),
            open == quote_open(s@.take(i as int)),
            forall|j: int| 0 <= j < i ==> !separator_at(s@, j),
        decreases s.len() - i,
    {
        let c = s[i];
        if c == ',' && !open {
            proof {
                lemma_next_separator_is(s@, 0, i as int);
            }
            return (i, open);
        }
        proof {
            assert(s@.take(i + 1).drop_last() == s@.take(i as int));
            assert(s@.take(i + 1).last() == c);
        }
        if c == '"' {
            open = !open;
        }
        i = i + 1;
    }
    proof {
        lemma_next_separator_is(s@, 0, s.len() as int);
    }
    (i, open)
}

impl AttributePairs {
    /// The empty list.
    pub fn new() -> (r: AttributePairs)
        ensures
            r@ == Seq::<(Seq<char>, Seq<char>)>::empty(),
    {
        let r = AttributePairs { pairs: Vec::new() };
        assert(r@ =~= Seq::<(Seq<char>, Seq<char>)>::empty());
        r
    }

    /// The number of pairs.
    pub fn len(&self) -> (n: usize)
        ensures
            n == self@.len(),
    {
        self.pairs.len()
    }

    /// The name of pair `i`.
    pub fn name(&self, i: usize) -> (r: &[char])
        requires
            i < self@.len(),
        ensures
            r@ == self@[i as int].0,
    {
        self.pairs[i].name.as_slice()
    }

    /// The raw value of pair `i`.
    pub fn value(&self, i: usize) -> (r: &[char])
        requires
            i < self@.len(),
        ensures
            r@ == self@[i as int].1,
    {
        self.pairs[i].value.as_slice()
    }

    /// Adds a pair at the end.
    pub fn push(&mut self, name: &str, value: Vec<char>)
        ensures
            final(self)@ == old(self)@.push((name@, value@)),
    {
        let pair = AttributePair { name: str_to_chars(name), value };
        self.pairs.push(pair);
        assert(final(self)@ =~= old(self)@.push((name@, value@)));
    }

    /// Adds a pair at the end where `value` is present.
    pub fn push_optional(&mut self, name: &str, value: Option<Vec<char>>)
        ensures
            final(self)@ == push_optional(
                old(self)@,
                name@,
                match value {
                    Some(v) => Some(v@),
                    None => None,
                },
            ),
    {
        match value {
            Some(v) => {
                self.push(name, v);
            },
            None => {},
        }
    }

    /// Whether a pair named `name` has the raw value `word`.
    pub fn has_value(&self, name: &str, word: &str) -> (b: bool)
        ensures
            b == named(self@, name@).contains(word@),
    {
        let n = str_to_chars(name);
        let w = str_to_chars(word);
        let mut i: usize = 0;
        proof {
            assert(self@.take(0) == Seq::<(Seq<char>, Seq<char>)>::empty());
        }
        while i < self.pairs.len()
            invariant
                i <= self@.len(),
                self@.len() == self.pairs.len(),
                n@ == name@,
                w@ == word@,
                !named(self@.take(i as int), name@).contains(word@),
            decreases self.pairs.len() - i,
        {
            proof {
                lemma_named_push(self@.take(i as int), self@[i as int]);
                assert(self@.take(i as int).push(self@[i as int]) == self@.take(i + 1));
            }
            if chars_equal(self.name(i), n.as_slice()) && chars_equal(self.value(i), w.as_slice()) {
                proof {
                    lemma_named_prefix(self@, name@, i + 1);
                    let some = named(self@.take(i + 1), name@);
                    let all = named(self@, name@);
                    assert(some.last() == word@);
                    assert(all[some.len() - 1] == some[some.len() - 1]);
                }
                return true;
            }
            proof {
                let before = named(self@.take(i as int), name@);
                let now = named(self@.take(i + 1), name@);
                if now.contains(word@) {
                    let j = choose|j: int| 0 <= j < now.len() && now[j] == word@;
                    if j < before.len() {
                        assert(before[j] == word@);
                    }
                }
            }
            i = i + 1;
        }
        proof {
            assert(self@.take(self@.len() as int) == self@);
        }
        false
    }

    /// Whether a pair is named `name`.
    pub fn has_name(&self, name: &str) -> (b: bool)
        ensures
            b == (named(self@, name@).len() > 0),
    {
        let n = str_to_chars(name);
        let mut i: usize = 0;
        proof {
            assert(self@.take(0) == Seq::<(Seq<char>, Seq<char>)>::empty());
        }
        while i < self.pairs.len()
            invariant
                i <= self@.len(),
                self@.len() == self.pairs.len(),
                n@ == name@,
                named(self@.take(i as int), name@).len() == 0,
            decreases self.pairs.len() - i,
        {
            proof {
                lemma_named_push(self@.take(i as int), self@[i as int]);
                assert(self@.take(i as int).push(self@[i as int]) == self@.take(i + 1));
            }
            if chars_equal(self.name(i), n.as_slice()) {
                proof {
                    lemma_named_prefix(self@, name@, i + 1);
                }
                return true;
            }
            i = i + 1;
        }
        proof {
            assert(self@.take(self@.len() as int) == self@);
        }
        false
    }

    /// Splits an attribute list into its pairs.
    pub fn parse_chars(s: &[char]) -> (r: Result<AttributePairs, Error>)
        ensures
            match r {
                Ok(ps) => split_pairs(s@) == Some(ps@),
                Err(e) => split_pairs(s@) is None && e == invalid(Reason::MalformedAttribute),
            },
    {
        let mut out = AttributePairs { pairs: Vec::new() };
        let mut pos: usize = 0;
        proof {
            assert(s@.skip(0) == s@);
            assert(out@ =~= Seq::<(Seq<char>, Seq<char>)>::empty());
            if split_pairs(s@) is Some {
                assert(out@ + split_pairs(s@)->0 =~= split_pairs(s@)->0);
            }
        }
        while pos < s.len()
            invariant
                pos <= s.len(),
                split_pairs(s@) == match split_pairs(s@.skip(pos as int)) {
                    Some(t) => Some(out@ + t),
                    None => None,
                },
            decreases s.len() - pos,
        {
            let cur = tail(s, pos);
            let eq = find_char(cur, '=');
            proof {
                lemma_first_index(cur@, '=');
            }
            if eq >= cur.len() {
                return Err(Error::invalid_input(Reason::MalformedAttribute));
            }
            let name = head(cur, eq);
            if !is_name_text(name) {
                return Err(Error::invalid_input(Reason::MalformedAttribute));
            }
            let rest = tail(cur, eq + 1);
            let (end, open) = scan_value(rest);
            if open {
                return Err(Error::invalid_input(Reason::MalformedAttribute));
            }
            let value = head(rest, end);
            let ghost before = out@;
            out.pairs.push(AttributePair { name: slice_to_vec(name), value: slice_to_vec(value) });
            let next: usize = if end < rest.len() {
                pos + eq + 1 + end + 1
            } else {
                s.len()
            };
            proof {
                assert(s@.skip(next as int) =~= after_value(rest@, end as int));
                assert(out@ =~= before.push((name@, value@)));
                if split_pairs(after_value(rest@, end as int)) is Some {
                    let t = split_pairs(after_value(rest@, end as int))->0;
                    assert(before + (seq![(name@, value@)] + t) =~= out@ + t);
                }
            }
            pos = next;
        }
        proof {
            assert(s@.skip(pos as int).len() == 0);
            assert(out@ + Seq::<(Seq<char>, Seq<char>)>::empty() =~= out@);
        }
        Ok(out)
    }

    /// Splits an attribute list into its pairs.
    pub fn parse(s: &str) -> (r: Result<AttributePairs, Error>)
        ensures
            match r {
                Ok(ps) => split_pairs(s@) == Some(ps@),
                Err(e) => split_pairs(s@) is None && e == invalid(Reason::MalformedAttribute),
            },
    {
        let v = str_to_chars(s);
        AttributePairs::parse_chars(v.as_slice())
    }

    /// Appends the text of the list to `buf`.
    pub fn push_text(&self, buf: &mut Vec<char>)
        ensures
            final(buf)@ == old(buf)@ + join_pairs(self@),
    {
        let mut i: usize = 0;
        proof {
            assert(self@.take(0).len() == 0);
            assert(buf@ =~= old(buf)@ + join_pairs(self@.take(0)));
        }
        while i < self.pairs.len()
            invariant
                i <= self.pairs.len(),
                buf@ == old(buf)@ + join_pairs(self@.take(i as int)),
            decreases self.pairs.len() - i,
        {
            let ghost before = buf@;
            if i > 0 {
                buf.push(',');
            }
            push_chars(buf, self.pairs[i].name.as_slice());
            buf.push('=');
            push_chars(buf, self.pairs[i].value.as_slice());
            proof {
                let now = self@.take(i + 1);
                assert(now.drop_last() == self@.take(i as int));
                assert(now.last() == self@[i as int]);
                if i > 0 {
                    assert(buf@ =~= before + seq![','] + pair_text(now.last()));
                } else {
                    assert(now.len() == 1);
                    assert(now[0] == now.last());
                    assert(join_pairs(self@.take(0)).len() == 0);
                    assert(buf@ =~= before + pair_text(now.last()));
                }
                assert(buf@ =~= old(buf)@ + join_pairs(now));
            }
            i = i + 1;
        }
        assert(self@.take(self.pairs.len() as int) == self@);
    }

    /// The text of the list.
    pub fn render(&self) -> (r: String)
        ensures
            r@ == join_pairs(self@),
    {
        let mut buf: Vec<char> = Vec::new();
        self.push_text(&mut buf);
        assert(buf@ =~= join_pairs(self@));
        chars_to_string(buf.as_slice())
    }
}

/// Reads the attribute named `name`: each pair of that name must hold a
/// value of the type, and the last one is the value of the attribute.
pub fn read_attribute<T: Codec>(pairs: &AttributePairs, name: &str) -> (r: Result<Option<T>, Error>)
    ensures
        match r {
            Ok(field) => all_decodable::<T>(named(pairs@, name@)) && value_of(field)
                == last_decoded::<T>(named(pairs@, name@)),
            Err(e) => !all_decodable::<T>(named(pairs@, name@)) && e == invalid(
                Reason::InvalidValue,
            ),
        },
{
    let word = str_to_chars(name);
    let mut field: Option<T> = None;
    let mut i: usize = 0;
    proof {
        assert(pairs@.take(0) == Seq::<(Seq<char>, Seq<char>)>::empty());
    }
    while i < pairs.len()
        invariant
            i <= pairs@.len(),
            word@ == name@,
            all_decodable::<T>(named(pairs@.take(i as int), name@)),
            value_of(field) == last_decoded::<T>(named(pairs@.take(i as int), name@)),
        decreases pairs@.len() - i,
    {
        proof {
            lemma_named_push(pairs@.take(i as int), pairs@[i as int]);
            assert(pairs@.take(i as int).push(pairs@[i as int]) == pairs@.take(i + 1));
        }
        if chars_equal(pairs.name(i), word.as_slice()) {
            match T::parse_chars(pairs.value(i)) {
                Ok(t) => {
                    field = Some(t);
                },
                Err(e) => {
                    proof {
                        lemma_named_prefix(pairs@, name@, i + 1);
                        let some = named(pairs@.take(i + 1), name@);
                        let all = named(pairs@, name@);
                        assert(some.last() == pairs@[i as int].1);
                        assert(all[some.len() - 1] == some[some.len() - 1]);
                    }
                    return Err(e);
                },
            }
        }
        i = i + 1;
    }
    proof {
        assert(pairs@.take(pairs@.len() as int) == pairs@);
    }
    Ok(field)
}

} // verus!
