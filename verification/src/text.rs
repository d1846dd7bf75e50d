//! Characters and strings: the conversions between `str` and sequences of
//! characters on which every codec of this crate works, and the searches
//! that the codecs share.

use vstd::prelude::*;
use vstd::slice::*;
use vstd::string::*;

verus! {

/// Appends one character to a string.
///
/// Trusted: `String::push` of the standard library adds `c` at the end of
/// `s` and changes nothing else.
#[verifier::external_body]
pub(crate) fn string_push(s: &mut String, c: char)
    ensures
        final(s)@ == old(s)@.push(c),
{
    s.push(c)
}

/// The characters of `s`, in order.
pub fn str_to_chars(s: &str) -> (v: Vec<char>)
    ensures
        v@ == s@,
{
    let mut v: Vec<char> = Vec::new();
    let it = s.chars();
    for c in iter: it
        invariant
            v@ == iter.seq().take(iter.index() as int),
    {
        v.push(c);
    }
    v
}

/// The string made of the characters of `v`, in order.
pub fn chars_to_string(v: &[char]) -> (s: String)
    ensures
        s@ == v@,
{
    let mut s = String::new();
    let mut i: usize = 0;
    while i < v.len()
        invariant
            i <= v.len(),
            s@ == v@.take(i as int),
        decreases v.len() - i,
    {
        string_push(&mut s, v[i]);
        i = i + 1;
        assert(v@.take(i as int) == v@.take(i - 1).push(v@[i - 1]));
    }
    assert(v@.take(v.len() as int) == v@);
    s
}

/// The index of the first `c` in `s`, or the length of `s` where it holds none.
pub open spec fn first_index(s: Seq<char>, c: char) -> int
    decreases s.len(),
{
    if s.len() == 0 || s[0] == c {
        0
    } else {
        1 + first_index(s.drop_first(), c)
    }
}

/// `first_index` is in range, points at `c` unless it is the length, and
/// nothing before it is `c`.
pub proof fn lemma_first_index(s: Seq<char>, c: char)
    ensures
        0 <= first_index(s, c) <= s.len(),
        first_index(s, c) < s.len() ==> s[first_index(s, c)] == c,
        forall|j: int| 0 <= j < first_index(s, c) ==> s[j] != c,
    decreases s.len(),
{
    if !(s.len() == 0 || s[0] == c) {
        lemma_first_index(s.drop_first(), c);
        let t = s.drop_first();
        assert forall|j: int| 0 <= j < first_index(s, c) implies s[j] != c by {
            if j > 0 {
                assert(t[j - 1] == s[j]);
            }
        }
    }
}

/// A position that holds `c`, with no `c` before it, is the first index.
pub proof fn lemma_first_index_is(s: Seq<char>, c: char, i: int)
    requires
        0 <= i <= s.len(),
        i < s.len() ==> s[i] == c,
        forall|j: int| 0 <= j < i ==> s[j] != c,
    ensures
        first_index(s, c) == i,
    decreases s.len(),
{
    if s.len() == 0 || s[0] == c {
    } else {
        let t = s.drop_first();
        assert forall|j: int| 0 <= j < i - 1 implies t[j] != c by {
            assert(t[j] == s[j + 1]);
        }
        lemma_first_index_is(t, c, i - 1);
    }
}

/// Where `s` holds no `c`, the first `c` of `s + [c] + t` is at `s.len()`.
pub proof fn lemma_first_index_after(s: Seq<char>, c: char, t: Seq<char>)
    requires
        !s.contains(c),
    ensures
        first_index(s + seq![c] + t, c) == s.len(),
        first_index(s, c) == s.len(),
{
    let u = s + seq![c] + t;
    assert(u[s.len() as int] == c);
    assert forall|j: int| 0 <= j < s.len() implies u[j] != c && s[j] != c by {
        assert(u[j] == s[j]);
        assert(s.contains(s[j]));
    }
    lemma_first_index_is(u, c, s.len() as int);
    lemma_first_index_is(s, c, s.len() as int);
}

/// The index of the first `c` in `s`, or its length.
pub fn find_char(s: &[char], c: char) -> (i: usize)
    ensures
        i == first_index(s@, c),
{
    let mut i: usize = 0;
    while i < s.len() && s[i] != c
        invariant
            i <= s.len(),
            forall|j: int| 0 <= j < i ==> s@[j] != c,
        decreases s.len() - i,
    {
        i = i + 1;
    }
    proof {
        lemma_first_index_is(s@, c, i as int);
    }
    i
}

/// Whether `s` holds `c`.
pub fn has_char(s: &[char], c: char) -> (b: bool)
    ensures
        b == s@.contains(c),
{
    let i = find_char(s, c);
    proof {
        lemma_first_index(s@, c);
        if i < s.len() {
            assert(s@.contains(c));
        } else {
            assert forall|j: int| 0 <= j < s@.len() implies s@[j] != c by {}
        }
    }
    i < s.len()
}

/// Whether the two slices hold the same characters.
pub fn chars_equal(a: &[char], b: &[char]) -> (r: bool)
    ensures
        r == (a@ == b@),
{
    if a.len() != b.len() {
        return false;
    }
    let mut i: usize = 0;
    while i < a.len()
        invariant
            i <= a.len(),
            a.len() == b.len(),
            forall|j: int| 0 <= j < i ==> a@[j] == b@[j],
        decreases a.len() - i,
    {
        if a[i] != b[i] {
            return false;
        }
        i = i + 1;
    }
    assert(a@ =~= b@);
    true
}

/// Whether `s` is the text `word`.
pub fn is_word(s: &[char], word: &str) -> (r: bool)
    ensures
        r == (s@ == word@),
{
    let w = str_to_chars(word);
    chars_equal(s, w.as_slice())
}

/// Whether `s` begins with `prefix`.
pub fn starts_with(s: &[char], prefix: &[char]) -> (r: bool)
    ensures
        r == prefix@.is_prefix_of(s@),
{
    if prefix.len() > s.len() {
        return false;
    }
    let head = slice_subrange(s, 0, prefix.len());
    chars_equal(head, prefix)
}

/// The part of `s` from `from` on.
pub fn tail(s: &[char], from: usize) -> (r: &[char])
    requires
        from <= s.len(),
    ensures
        r@ == s@.skip(from as int),
{
    slice_subrange(s, from, s.len())
}

/// The part of `s` before `to`.
pub fn head(s: &[char], to: usize) -> (r: &[char])
    requires
        to <= s.len(),
    ensures
        r@ == s@.take(to as int),
{
    slice_subrange(s, 0, to)
}

/// Appends the characters of `word` to `buf`.
pub fn push_str(buf: &mut Vec<char>, word: &str)
    ensures
        final(buf)@ == old(buf)@ + word@,
{
    let mut w = str_to_chars(word);
    buf.append(&mut w);
}

/// Appends the characters of `s` to `buf`.
pub fn push_chars(buf: &mut Vec<char>, s: &[char])
    ensures
        final(buf)@ == old(buf)@ + s@,
{
    buf.extend_from_slice(s);
}

/// What follows `prefix` in `s`; `None` where `s` does not begin with it.
pub open spec fn after_prefix(s: Seq<char>, prefix: Seq<char>) -> Option<Seq<char>> {
    if prefix.is_prefix_of(s) {
        Some(s.skip(prefix.len() as int))
    } else {
        None
    }
}

/// What follows `prefix` in `s`; `None` where `s` does not begin with it.
pub fn strip_prefix<'a>(s: &'a [char], prefix: &str) -> (r: Option<&'a [char]>)
    ensures
        match r {
            Some(rest) => after_prefix(s@, prefix@) == Some(rest@),
            None => after_prefix(s@, prefix@) is None,
        },
{
    let p = str_to_chars(prefix);
    if starts_with(s, p.as_slice()) {
        Some(tail(s, p.len()))
    } else {
        None
    }
}

/// What follows a prefix in the prefix and a text is the text.
pub proof fn lemma_after_prefix(prefix: Seq<char>, rest: Seq<char>)
    ensures
        after_prefix(prefix + rest, prefix) == Some(rest),
{
    let s = prefix + rest;
    assert(s.subrange(0, prefix.len() as int) == prefix);
    assert(s.skip(prefix.len() as int) == rest);
}

/// A text that begins with a prefix is the prefix and what follows it.
pub proof fn lemma_prefix_split(s: Seq<char>, prefix: Seq<char>)
    requires
        after_prefix(s, prefix) is Some,
    ensures
        s == prefix + after_prefix(s, prefix)->0,
{
    assert(s.subrange(0, prefix.len() as int) == prefix);
    assert(s =~= prefix + s.skip(prefix.len() as int));
}

} // verus!
