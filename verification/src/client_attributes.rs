//! Client-defined attributes: a mapping from names to raw values, kept in
//! the order of the names so that it is written the same way every time.

use vstd::prelude::*;
use vstd::slice::slice_to_vec;
use crate::attribute::{
    all_pairs_valid, is_name, is_name_char, is_name_text, is_raw_value, lemma_named_push,
    lemma_valid_push, named, pairs_view, scan_value, AttributePair,
};
use crate::error::{invalid, Error, Reason};
use crate::text::{chars_equal, chars_to_string, str_to_chars};

verus! {

/// Whether `a` comes before `b` in the order of a dictionary, character
/// by character.
pub open spec fn text_less(a: Seq<char>, b: Seq<char>) -> bool
    decreases a.len(),
{
    if b.len() == 0 {
        false
    } else if a.len() == 0 {
        true
    } else if a[0] != b[0] {
        a[0] < b[0]
    } else {
        text_less(a.drop_first(), b.drop_first())
    }
}

/// Whether the names of the entries `m` strictly increase.
pub open spec fn is_sorted(m: Seq<(Seq<char>, Seq<char>)>) -> bool {
    forall|i: int, j: int| 0 <= i < j < m.len() ==> text_less(#[trigger] m[i].0, #[trigger] m[j].0)
}

/// The entries `m` with the value `value` under the name `name`: in
/// place of the entry of that name where there is one, else at the place
/// that the order gives it.
pub open spec fn insert_entry(
    m: Seq<(Seq<char>, Seq<char>)>,
    name: Seq<char>,
    value: Seq<char>,
) -> Seq<(Seq<char>, Seq<char>)>
    decreases m.len(),
{
    if m.len() == 0 {
        seq![(name, value)]
    } else if m.last().0 == name {
        m.drop_last().push((name, value))
    } else if text_less(m.last().0, name) {
        m.push((name, value))
    } else {
        insert_entry(m.drop_last(), name, value).push(m.last())
    }
}

/// The value under `name` in the entries `m`.
pub open spec fn entry_value(m: Seq<(Seq<char>, Seq<char>)>, name: Seq<char>) -> Option<Seq<char>>
    decreases m.len(),
{
    if m.len() == 0 {
        None
    } else if m.last().0 == name {
        Some(m.last().1)
    } else {
        entry_value(m.drop_last(), name)
    }
}

/// Nothing comes before itself.
pub proof fn lemma_less_irreflexive(a: Seq<char>)
    ensures
        !text_less(a, a),
    decreases a.len(),
{
    if a.len() > 0 {
        lemma_less_irreflexive(a.drop_first());
    }
}

/// What comes before something that comes before a third comes before
/// the third.
pub proof fn lemma_less_transitive(a: Seq<char>, b: Seq<char>, c: Seq<char>)
    requires
        text_less(a, b),
        text_less(b, c),
    ensures
        text_less(a, c),
    decreases a.len(),
{
    if a.len() > 0 && a[0] == b[0] && b[0] == c[0] {
        lemma_less_transitive(a.drop_first(), b.drop_first(), c.drop_first());
    }
}

/// Of two different texts one comes before the other.
pub proof fn lemma_less_total(a: Seq<char>, b: Seq<char>)
    requires
        a != b,
    ensures
        text_less(a, b) || text_less(b, a),
    decreases a.len(),
{
    if a.len() > 0 && b.len() > 0 && a[0] == b[0] {
        if a.drop_first() == b.drop_first() {
            assert(a =~= seq![a[0]] + a.drop_first());
            assert(b =~= seq![b[0]] + b.drop_first());
        }
        lemma_less_total(a.drop_first(), b.drop_first());
    } else if a.len() == 0 && b.len() == 0 {
        assert(a =~= b);
    }
}

/// Inserting into sorted entries leaves them sorted, and every entry
/// after it is the new one or one of those before.
pub proof fn lemma_insert_sorted(m: Seq<(Seq<char>, Seq<char>)>, name: Seq<char>, value: Seq<char>)
    requires
        is_sorted(m),
    ensures
        is_sorted(insert_entry(m, name, value)),
        forall|i: int|
            0 <= i < insert_entry(m, name, value).len() ==> (#[trigger] insert_entry(
                m,
                name,
                value,
            )[i]) == (name, value) || m.contains(insert_entry(m, name, value)[i]),
    decreases m.len(),
{
    let r = insert_entry(m, name, value);
    if m.len() == 0 {
    } else if m.last().0 == name {
        let front = m.drop_last();
        assert forall|i: int, j: int| 0 <= i < j < r.len() implies text_less(
            #[trigger] r[i].0,
            #[trigger] r[j].0,
        ) by {
            assert(r[i] == m[i]);
            assert(r[j].0 == m[j].0);
        }
        assert forall|i: int| 0 <= i < r.len() implies (#[trigger] r[i]) == (name, value)
            || m.contains(r[i]) by {
            if i < front.len() {
                assert(r[i] == m[i]);
            }
        }
    } else if text_less(m.last().0, name) {
        assert forall|i: int, j: int| 0 <= i < j < r.len() implies text_less(
            #[trigger] r[i].0,
            #[trigger] r[j].0,
        ) by {
            if j == m.len() {
                if i < m.len() - 1 {
                    assert(text_less(m[i].0, m[m.len() - 1].0));
                    lemma_less_transitive(m[i].0, m.last().0, name);
                }
            }
        }
        assert forall|i: int| 0 <= i < r.len() implies (#[trigger] r[i]) == (name, value)
            || m.contains(r[i]) by {
            if i < m.len() {
                assert(r[i] == m[i]);
            }
        }
    } else {
        let front = m.drop_last();
        let inner = insert_entry(front, name, value);
        assert(is_sorted(front)) by {
            assert forall|i: int, j: int| 0 <= i < j < front.len() implies text_less(
                #[trigger] front[i].0,
                #[trigger] front[j].0,
            ) by {
                assert(front[i] == m[i] && front[j] == m[j]);
            }
        }
        lemma_insert_sorted(front, name, value);
        lemma_less_total(m.last().0, name);
        assert forall|i: int, j: int| 0 <= i < j < r.len() implies text_less(
            #[trigger] r[i].0,
            #[trigger] r[j].0,
        ) by {
            if j == inner.len() {
                assert(r[i] == inner[i]);
                if inner[i] != (name, value) {
                    assert(front.contains(inner[i]));
                    let k = choose|k: int| 0 <= k < front.len() && front[k] == inner[i];
                    assert(m[k] == front[k]);
                    assert(text_less(m[k].0, m[m.len() - 1].0));
                }
            } else {
                assert(r[i] == inner[i] && r[j] == inner[j]);
            }
        }
        assert forall|i: int| 0 <= i < r.len() implies (#[trigger] r[i]) == (name, value)
            || m.contains(r[i]) by {
            if i < inner.len() {
                assert(r[i] == inner[i]);
                if inner[i] != (name, value) {
                    let k = choose|k: int| 0 <= k < front.len() && front[k] == inner[i];
                    assert(m[k] == front[k]);
                }
            } else {
                assert(r[i] == m[m.len() - 1]);
            }
        }
    }
}

/// Inserting a name that comes after every name of sorted entries adds
/// the entry at the end.
pub proof fn lemma_insert_last(m: Seq<(Seq<char>, Seq<char>)>, name: Seq<char>, value: Seq<char>)
    requires
        is_sorted(m.push((name, value))),
    ensures
        insert_entry(m, name, value) == m.push((name, value)),
{
    let r = m.push((name, value));
    if m.len() > 0 {
        assert(text_less(r[m.len() - 1].0, r[m.len() as int].0));
        lemma_less_irreflexive(name);
    }
}

/// Whether `a` comes before `b` in the order of a dictionary.
pub fn is_text_less(a: &[char], b: &[char]) -> (r: bool)
    ensures
        r == text_less(a@, b@),
{
    let mut i: usize = 0;
    proof {
        assert(a@.skip(0) == a@);
        assert(b@.skip(0) == b@);
    }
    while i < a.len() && i < b.len()
        invariant
            i <= a.len(),
            i <= b.len(),
            text_less(a@, b@) == text_less(a@.skip(i as int), b@.skip(i as int)),
        decreases a.len() - i,
    {
        proof {
            assert(a@.skip(i as int)[0] == a@[i as int]);
            assert(b@.skip(i as int)[0] == b@[i as int]);
            assert(a@.skip(i as int).drop_first() == a@.skip(i + 1));
            assert(b@.skip(i as int).drop_first() == b@.skip(i + 1));
        }
        if a[i] != b[i] {
            return a[i] < b[i];
        }
        i = i + 1;
    }
    i < b.len()
}

/// Whether each entry has an attribute name and a raw value that can
/// stand in a list.
pub open spec fn all_entries_valid(m: Seq<(Seq<char>, Seq<char>)>) -> bool {
    forall|i: int| 0 <= i < m.len() ==> is_name((#[trigger] m[i]).0) && is_raw_value(m[i].1)
}

/// Inserting a valid entry among valid entries leaves them all valid.
pub proof fn lemma_insert_valid(m: Seq<(Seq<char>, Seq<char>)>, name: Seq<char>, value: Seq<char>)
    requires
        is_sorted(m),
        all_entries_valid(m),
        is_name(name),
        is_raw_value(value),
    ensures
        all_entries_valid(insert_entry(m, name, value)),
{
    lemma_insert_sorted(m, name, value);
    let r = insert_entry(m, name, value);
    assert forall|i: int| 0 <= i < r.len() implies is_name((#[trigger] r[i]).0) && is_raw_value(
        r[i].1,
    ) by {
        if r[i] != (name, value) {
            let k = choose|k: int| 0 <= k < m.len() && m[k] == r[i];
            assert(is_name(m[k].0));
        }
    }
}

/// Puts the raw value `value` under `name` among `entries`.
fn insert_sorted(entries: &mut Vec<AttributePair>, name: Vec<char>, value: Vec<char>)
    ensures
        pairs_view(final(entries)@) == insert_entry(pairs_view(old(entries)@), name@, value@),
    decreases old(entries)@.len(),
{
    let ghost before = pairs_view(entries@);
    match entries.pop() {
        None => {
            entries.push(AttributePair { name, value });
            assert(pairs_view(entries@) =~= insert_entry(before, name@, value@));
        },
        Some(last) => {
            assert(last@ == before.last());
            assert(pairs_view(entries@) =~= before.drop_last());
            if chars_equal(last.name.as_slice(), name.as_slice()) {
                entries.push(AttributePair { name, value });
                assert(pairs_view(entries@) =~= before.drop_last().push((name@, value@)));
            } else if is_text_less(last.name.as_slice(), name.as_slice()) {
                entries.push(last);
                entries.push(AttributePair { name, value });
                assert(pairs_view(entries@) =~= before.push((name@, value@)));
            } else {
                insert_sorted(entries, name, value);
                let ghost inner = pairs_view(entries@);
                entries.push(last);
                assert(pairs_view(entries@) =~= inner.push(last@));
            }
        },
    }
}

/// Client-defined attributes: names that can stand in an attribute list,
/// each with a raw value that can, in the order of the names.
#[derive(Debug, PartialEq, Eq, Hash)]
pub struct ClientAttributes {
    entries: Vec<AttributePair>,
}

impl View for ClientAttributes {
    type V = Seq<(Seq<char>, Seq<char>)>;

    closed spec fn view(&self) -> Seq<(Seq<char>, Seq<char>)> {
        pairs_view(self.entries@)
    }
}

impl Clone for ClientAttributes {
    fn clone(&self) -> (r: ClientAttributes)
        ensures
            r@ == self@,
    {
        proof {
            use_type_invariant(self);
        }
        let mut entries: Vec<AttributePair> = Vec::new();
        let mut i: usize = 0;
        while i < self.entries.len()
            invariant
                i <= self.entries.len(),
                entries@.len() == i,
                pairs_view(entries@) == pairs_view(self.entries@).take(i as int),
            decreases self.entries.len() - i,
        {
            let name = slice_to_vec(self.entries[i].name.as_slice());
            let value = slice_to_vec(self.entries[i].value.as_slice());
            let ghost before = entries@;
            entries.push(AttributePair { name, value });
            proof {
                let now = pairs_view(entries@);
                let all = pairs_view(self.entries@);
                assert forall|j: int| 0 <= j < now.len() implies now[j] == all.take(i + 1)[j] by {
                    if j < i {
                        assert(entries@[j] == before[j]);
                        assert(pairs_view(before)[j] == all.take(i as int)[j]);
                    }
                }
                assert(now =~= all.take(i + 1));
            }
            i = i + 1;
        }
        assert(pairs_view(entries@) =~= pairs_view(self.entries@));
        ClientAttributes { entries }
    }
}

impl ClientAttributes {
    /// The names strictly increase, and each entry can stand in an
    /// attribute list. Every value that code holds is well-formed.
    #[verifier::type_invariant]
    pub closed spec fn wf(&self) -> bool {
        is_sorted(pairs_view(self.entries@)) && all_entries_valid(pairs_view(self.entries@))
    }

    /// Well-formed means: sorted by name, and each entry valid.
    pub proof fn lemma_wf(&self)
        ensures
            self.wf() <==> is_sorted(self@) && all_entries_valid(self@),
    {
    }

    /// No attributes.
    pub fn new() -> (r: ClientAttributes)
        ensures
            r@ == Seq::<(Seq<char>, Seq<char>)>::empty(),
    {
        let entries: Vec<AttributePair> = Vec::new();
        assert(pairs_view(entries@) =~= Seq::<(Seq<char>, Seq<char>)>::empty());
        ClientAttributes { entries }
    }

    /// The number of attributes.
    pub fn len(&self) -> (n: usize)
        ensures
            n == self@.len(),
    {
        self.entries.len()
    }

    /// The name of attribute `i`, in the order of the names.
    pub fn name_chars(&self, i: usize) -> (r: &[char])
        requires
            i < self@.len(),
        ensures
            r@ == self@[i as int].0,
    {
        self.entries[i].name.as_slice()
    }

    /// The raw value of attribute `i`, in the order of the names.
    pub fn value_chars(&self, i: usize) -> (r: &[char])
        requires
            i < self@.len(),
        ensures
            r@ == self@[i as int].1,
    {
        self.entries[i].value.as_slice()
    }

    /// The name of attribute `i`, in the order of the names; `None` where
    /// there are not so many.
    pub fn name(&self, i: usize) -> (r: Option<String>)
        ensures
            match r {
                Some(name) => i < self@.len() && name@ == self@[i as int].0,
                None => i >= self@.len(),
            },
    {
        if i < self.entries.len() {
            Some(chars_to_string(self.name_chars(i)))
        } else {
            None
        }
    }

    /// The raw value under `name`.
    pub fn get(&self, name: &str) -> (r: Option<String>)
        ensures
            match r {
                Some(value) => entry_value(self@, name@) == Some(value@),
                None => entry_value(self@, name@) is None,
            },
    {
        let n = str_to_chars(name);
        let mut i: usize = self.entries.len();
        proof {
            assert(self@.take(i as int) == self@);
        }
        while i > 0
            invariant
                i <= self@.len(),
                self@.len() == self.entries.len(),
                n@ == name@,
                entry_value(self@, name@) == entry_value(self@.take(i as int), name@),
            decreases i,
        {
            proof {
                assert(self@.take(i as int).drop_last() == self@.take(i - 1));
                assert(self@.take(i as int).last() == self@[i - 1]);
            }
            i = i - 1;
            if chars_equal(self.name_chars(i), n.as_slice()) {
                return Some(chars_to_string(self.value_chars(i)));
            }
        }
        None
    }

    /// Puts `value` under `name`, in place of what was there. The name
    /// must be an attribute name and the value a raw value that can stand
    /// in a list; otherwise nothing changes and the error says so.
    pub fn insert(&mut self, name: &str, value: &str) -> (r: Result<(), Error>)
        ensures
            match r {
                Ok(_) => is_name(name@) && is_raw_value(value@) && final(self)@ == insert_entry(
                    old(self)@,
                    name@,
                    value@,
                ),
                Err(e) => !(is_name(name@) && is_raw_value(value@)) && final(self)@ == old(self)@
                    && e == invalid(Reason::InvalidValue),
            },
    {
        let n = str_to_chars(name);
        let v = str_to_chars(value);
        let (end, open) = scan_value(v.as_slice());
        if is_name_text(n.as_slice()) && end == v.len() && !open {
            assert(v@.take(v@.len() as int) == v@);
            self.insert_chars(n, v);
            Ok(())
        } else {
            assert(!is_raw_value(value@) || !is_name(name@)) by {
                if is_raw_value(value@) {
                    assert(v@.take(v@.len() as int) == v@);
                }
            }
            Err(Error::invalid_input(Reason::InvalidValue))
        }
    }

    /// Puts the raw value `value` under `name`, in place of what was there.
    pub fn insert_chars(&mut self, name: Vec<char>, value: Vec<char>)
        requires
            is_name(name@),
            is_raw_value(value@),
        ensures
            final(self)@ == insert_entry(old(self)@, name@, value@),
    {
        proof {
            use_type_invariant(&*self);
            lemma_insert_sorted(self@, name@, value@);
            lemma_insert_valid(self@, name@, value@);
        }
        let mut entries: Vec<AttributePair> = Vec::new();
        assert(pairs_view(entries@) =~= Seq::<(Seq<char>, Seq<char>)>::empty());
        std::mem::swap(&mut self.entries, &mut entries);
        insert_sorted(&mut entries, name, value);
        self.entries = entries;
    }
}

/// Whether an attribute of this name is client-defined: the name begins
/// with `X-`.
pub open spec fn is_client_name(name: Seq<char>) -> bool {
    "X-"@.is_prefix_of(name)
}

/// The name under which the client-defined attribute `key` is written.
pub open spec fn client_name(key: Seq<char>) -> Seq<char> {
    "X-"@ + key
}

/// The pairs that the entries `m` are written as: each name after `X-`.
pub open spec fn client_pairs(m: Seq<(Seq<char>, Seq<char>)>) -> Seq<(Seq<char>, Seq<char>)> {
    Seq::new(m.len(), |i: int| (client_name(m[i].0), m[i].1))
}

/// The client-defined attributes among the pairs `ps`: those whose name
/// begins with `X-`, under the name without it; of two with one name the
/// later counts.
pub open spec fn client_entries(ps: Seq<(Seq<char>, Seq<char>)>) -> Seq<(Seq<char>, Seq<char>)>
    decreases ps.len(),
{
    if ps.len() == 0 {
        Seq::empty()
    } else if is_client_name(ps.last().0) {
        insert_entry(client_entries(ps.drop_last()), ps.last().0.skip(2), ps.last().1)
    } else {
        client_entries(ps.drop_last())
    }
}

/// `X-` is two characters, both of which may stand in a name.
pub proof fn lemma_client_prefix()
    ensures
        "X-"@.len() == 2,
        "X-"@[0] == 'X',
        "X-"@[1] == '-',
{
    reveal_strlit("X-");
}

/// A name written after `X-` is client-defined, and is what follows the
/// `X-`; it is an attribute name where the name was.
pub proof fn lemma_client_name(key: Seq<char>)
    ensures
        is_client_name(client_name(key)),
        client_name(key).skip(2) == key,
        is_name(key) ==> is_name(client_name(key)),
{
    lemma_client_prefix();
    let n = client_name(key);
    assert(n.subrange(0, 2) == "X-"@);
    assert(n.skip(2) == key);
    if is_name(key) {
        assert forall|i: int| 0 <= i < n.len() implies is_name_char(
            #[trigger] n[i],
        ) by {
            if i >= 2 {
                assert(n[i] == key[i - 2]);
            }
        }
    }
}

/// One more pair at the end is inserted among the client-defined
/// attributes where its name begins with `X-`, and passed over otherwise.
pub proof fn lemma_client_entries_push(
    ps: Seq<(Seq<char>, Seq<char>)>,
    p: (Seq<char>, Seq<char>),
)
    ensures
        client_entries(ps.push(p)) == if is_client_name(p.0) {
            insert_entry(client_entries(ps), p.0.skip(2), p.1)
        } else {
            client_entries(ps)
        },
{
    assert(ps.push(p).drop_last() == ps);
    assert(ps.push(p).last() == p);
}

/// Pairs whose names do not begin with `X-` hold no client-defined
/// attribute.
pub proof fn lemma_client_entries_none(ps: Seq<(Seq<char>, Seq<char>)>)
    requires
        forall|i: int| 0 <= i < ps.len() ==> !is_client_name((#[trigger] ps[i]).0),
    ensures
        client_entries(ps).len() == 0,
    decreases ps.len(),
{
    if ps.len() > 0 {
        let front = ps.drop_last();
        assert forall|i: int| 0 <= i < front.len() implies !is_client_name(
            (#[trigger] front[i]).0,
        ) by {
            assert(front[i] == ps[i]);
        }
        lemma_client_entries_none(front);
        assert(ps.last() == ps[ps.len() - 1]);
    }
}

/// Reading the pairs that sorted entries are written as, after pairs
/// that hold no client-defined attribute, gives the entries back.
pub proof fn lemma_client_entries_written(
    a: Seq<(Seq<char>, Seq<char>)>,
    m: Seq<(Seq<char>, Seq<char>)>,
)
    requires
        client_entries(a).len() == 0,
        is_sorted(m),
    ensures
        client_entries(a + client_pairs(m)) == m,
    decreases m.len(),
{
    if m.len() == 0 {
        assert(a + client_pairs(m) == a);
        assert(client_entries(a) =~= m);
    } else {
        let front = m.drop_last();
        assert forall|i: int, j: int| 0 <= i < j < front.len() implies text_less(
            #[trigger] front[i].0,
            #[trigger] front[j].0,
        ) by {
            assert(front[i] == m[i] && front[j] == m[j]);
        }
        lemma_client_entries_written(a, front);
        let last = (client_name(m.last().0), m.last().1);
        assert(a + client_pairs(m) == (a + client_pairs(front)).push(last));
        lemma_client_entries_push(a + client_pairs(front), last);
        lemma_client_name(m.last().0);
        assert(front.push(m.last()) == m);
        lemma_insert_last(front, m.last().0, m.last().1);
    }
}

/// The pairs that valid entries are written as are valid, and none has a
/// name that does not begin with `X-`.
pub proof fn lemma_client_pairs(m: Seq<(Seq<char>, Seq<char>)>)
    ensures
        all_entries_valid(m) ==> all_pairs_valid(client_pairs(m)),
        forall|n: Seq<char>|
            !is_client_name(n) ==> (#[trigger] named(client_pairs(m), n)).len()
                == 0,
    decreases m.len(),
{
    if m.len() == 0 {
    } else {
        let front = m.drop_last();
        lemma_client_pairs(front);
        let last = (client_name(m.last().0), m.last().1);
        assert(client_pairs(m) == client_pairs(front).push(last));
        lemma_named_push(client_pairs(front), last);
        lemma_client_name(m.last().0);
        if all_entries_valid(m) {
            assert forall|i: int| 0 <= i < front.len() implies is_name((#[trigger] front[i]).0)
                && is_raw_value(front[i].1) by {
                assert(front[i] == m[i]);
            }
            assert(m.last() == m[m.len() - 1]);
            lemma_valid_push(client_pairs(front), last);
        }
    }
}

/// The client-defined attributes among any pairs are sorted.
pub proof fn lemma_client_entries_sorted(ps: Seq<(Seq<char>, Seq<char>)>)
    ensures
        is_sorted(client_entries(ps)),
    decreases ps.len(),
{
    if ps.len() > 0 {
        lemma_client_entries_sorted(ps.drop_last());
        if is_client_name(ps.last().0) {
            lemma_insert_sorted(client_entries(ps.drop_last()), ps.last().0.skip(2), ps.last().1);
        }
    }
}

} // verus!
