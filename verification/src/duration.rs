//! Spans of time with nanosecond precision, and their text form: a decimal
//! number of seconds without exponent.

use vstd::prelude::*;
use crate::attribute::Codec;
use crate::error::{invalid, Error, Reason};
use crate::number::{
    all_digits, char_of_digit, decimal_text, digit_char, digit_of, digit_value, digits_value,
    is_digit, is_digit_char, lemma_decimal_text, parse_decimal, push_decimal,
};
use crate::text::{
    chars_to_string, find_char, first_index, head, lemma_first_index, lemma_first_index_after,
    str_to_chars, tail,
};

verus! {

/// The number of nanoseconds in a second.
pub const NANOS_PER_SEC: u32 = 1_000_000_000;

/// A span of time: whole seconds and the nanoseconds beyond them, which
/// are fewer than a second.
#[derive(Debug, Clone, Copy, PartialEq, Eq, Hash, Structural)]
pub struct Duration {
    secs: u64,
    nanos: u32,
}

/// Ten to the power `e`.
pub open spec fn pow10(e: nat) -> nat
    decreases e,
{
    if e == 0 {
        1
    } else {
        10 * pow10((e - 1) as nat)
    }
}

/// The number of units of `10^-width` that the fraction digits `s` spell;
/// digits beyond the first `width` are dropped.
pub open spec fn fraction_value(s: Seq<char>, width: nat) -> nat
    decreases width,
{
    if width == 0 || s.len() == 0 {
        0
    } else {
        digit_value(s[0]) * pow10((width - 1) as nat) + fraction_value(
            s.drop_first(),
            (width - 1) as nat,
        )
    }
}

/// The fewest fraction digits that spell `n` units of `10^-width`.
pub open spec fn fraction_text(n: nat, width: nat) -> Seq<char>
    decreases width,
{
    if n == 0 || width == 0 {
        Seq::empty()
    } else {
        seq![digit_char(n / pow10((width - 1) as nat))] + fraction_text(
            n % pow10((width - 1) as nat),
            (width - 1) as nat,
        )
    }
}

/// The digits of `s` before its first `.`.
pub open spec fn whole_part(s: Seq<char>) -> Seq<char> {
    s.take(first_index(s, '.'))
}

/// The digits of `s` after its first `.`; none where it has no `.`.
pub open spec fn fraction_part(s: Seq<char>) -> Seq<char> {
    if first_index(s, '.') < s.len() {
        s.skip(first_index(s, '.') + 1)
    } else {
        Seq::empty()
    }
}

/// Whether `s` is a decimal number of seconds: digits, at most one `.`
/// among them, at least one digit, and whole seconds that fit in 64 bits.
pub open spec fn is_seconds_text(s: Seq<char>) -> bool {
    &&& all_digits(whole_part(s))
    &&& all_digits(fraction_part(s))
    &&& whole_part(s).len() + fraction_part(s).len() > 0
    &&& digits_value(whole_part(s)) <= u64::MAX
}

/// The text of a span of `secs` seconds and `nanos` nanoseconds: the
/// seconds, then, unless the span is a whole number of seconds, a `.` and
/// the fewest digits that give the nanoseconds.
pub open spec fn seconds_text(secs: nat, nanos: nat) -> Seq<char> {
    if nanos == 0 {
        decimal_text(secs)
    } else {
        decimal_text(secs) + seq!['.'] + fraction_text(nanos, 9)
    }
}

impl Duration {
    /// The whole seconds of the span.
    pub closed spec fn seconds(self) -> nat {
        self.secs as nat
    }

    /// The nanoseconds beyond the whole seconds.
    pub closed spec fn subsec(self) -> nat {
        self.nanos as nat
    }

    /// The span of `secs` seconds and `nanos` nanoseconds.
    pub closed spec fn of(secs: nat, nanos: nat) -> Duration {
        Duration { secs: secs as u64, nanos: nanos as u32 }
    }

    /// The nanoseconds are fewer than a second. Every value that code
    /// holds is well-formed.
    #[verifier::type_invariant]
    pub closed spec fn wf(self) -> bool {
        self.nanos < NANOS_PER_SEC
    }

    /// The text of this span.
    pub open spec fn text(self) -> Seq<char> {
        seconds_text(self.seconds(), self.subsec())
    }

    /// What `s` means as a span of time.
    pub open spec fn from_text(s: Seq<char>) -> Option<Duration> {
        if is_seconds_text(s) {
            Some(Duration::of(digits_value(whole_part(s)), fraction_value(fraction_part(s), 9)))
        } else {
            None
        }
    }

    /// A span is its seconds and its nanoseconds, and nothing more.
    pub proof fn lemma_parts(self)
        ensures
            self.seconds() <= u64::MAX,
            self.subsec() <= u32::MAX,
            self.wf() <==> self.subsec() < NANOS_PER_SEC,
            Duration::of(self.seconds(), self.subsec()) == self,
    {
    }

    /// `of` builds the span with the parts it is given.
    pub proof fn lemma_of(secs: nat, nanos: nat)
        requires
            secs <= u64::MAX,
            nanos < NANOS_PER_SEC,
        ensures
            Duration::of(secs, nanos).seconds() == secs,
            Duration::of(secs, nanos).subsec() == nanos,
            Duration::of(secs, nanos).wf(),
    {
    }

    /// The span of `secs` seconds and `nanos` nanoseconds, the
    /// nanoseconds beyond a second carried over; `None` where the seconds
    /// then exceed 64 bits.
    pub fn new(secs: u64, nanos: u32) -> (r: Option<Duration>)
        ensures
            match r {
                Some(d) => secs + nanos / NANOS_PER_SEC <= u64::MAX && d == Duration::of(
                    (secs + nanos / NANOS_PER_SEC) as nat,
                    (nanos % NANOS_PER_SEC) as nat,
                ) && d.wf(),
                None => secs + nanos / NANOS_PER_SEC > u64::MAX,
            },
    {
        let carry: u64 = (nanos / NANOS_PER_SEC) as u64;
        match secs.checked_add(carry) {
            Some(total) => Some(Duration { secs: total, nanos: nanos % NANOS_PER_SEC }),
            None => None,
        }
    }

    /// The span of `secs` whole seconds.
    pub fn from_secs(secs: u64) -> (d: Duration)
        ensures
            d == Duration::of(secs as nat, 0),
            d.seconds() == secs,
            d.subsec() == 0,
            d.wf(),
    {
        Duration { secs, nanos: 0 }
    }

    /// The span of `millis` milliseconds.
    pub fn from_millis(millis: u64) -> (d: Duration)
        ensures
            d == Duration::of((millis / 1000) as nat, ((millis % 1000) * 1_000_000) as nat),
            d.seconds() == millis / 1000,
            d.subsec() == (millis % 1000) * 1_000_000,
            d.wf(),
    {
        Duration { secs: millis / 1000, nanos: ((millis % 1000) as u32) * 1_000_000 }
    }

    /// The whole seconds of the span.
    pub fn as_secs(&self) -> (s: u64)
        ensures
            s == self.seconds(),
    {
        self.secs
    }

    /// The nanoseconds beyond the whole seconds.
    pub fn subsec_nanos(&self) -> (n: u32)
        ensures
            n == self.subsec(),
            n < NANOS_PER_SEC,
    {
        proof {
            use_type_invariant(self);
        }
        self.nanos
    }

    /// Reads a decimal number of seconds.
    pub fn parse(s: &str) -> (r: Result<Duration, Error>)
        ensures
            match r {
                Ok(d) => Duration::from_text(s@) == Some(d) && d.wf(),
                Err(e) => Duration::from_text(s@) is None && e == invalid(Reason::InvalidValue),
            },
    {
        let v = str_to_chars(s);
        match Duration::parse_chars(v.as_slice()) {
            Ok(d) => {
                proof {
                    use_type_invariant(&d);
                }
                Ok(d)
            },
            Err(e) => Err(e),
        }
    }

    /// Appends the text of this span to `buf`.
    pub fn push_text(&self, buf: &mut Vec<char>)
        ensures
            final(buf)@ == old(buf)@ + self.text(),
    {
        proof {
            use_type_invariant(self);
        }
        push_decimal(buf, self.secs);
        if self.nanos != 0 {
            buf.push('.');
            push_fraction(buf, self.nanos);
        }
        assert(final(buf)@ =~= old(buf)@ + self.text());
    }

    /// The text of this span.
    pub fn render(&self) -> (r: String)
        ensures
            r@ == self.text(),
    {
        let mut buf: Vec<char> = Vec::new();
        self.push_text(&mut buf);
        assert(buf@ =~= self.text());
        chars_to_string(buf.as_slice())
    }
}

impl Codec for Duration {
    type Value = Duration;

    open spec fn value(&self) -> Duration {
        *self
    }

    open spec fn decode(s: Seq<char>) -> Option<Duration> {
        Duration::from_text(s)
    }

    fn parse_chars(s: &[char]) -> (r: Result<Duration, Error>) {
        let dot = find_char(s, '.');
        proof {
            lemma_first_index(s@, '.');
        }
        let whole = head(s, dot);
        let frac = if dot < s.len() {
            tail(s, dot + 1)
        } else {
            tail(s, s.len())
        };
        assert(whole@ == whole_part(s@));
        assert(frac@ == fraction_part(s@));
        if whole.len() + frac.len() == 0 {
            return Err(Error::invalid_input(Reason::InvalidValue));
        }
        let secs: u64 = if whole.len() == 0 {
            0
        } else {
            match parse_decimal(whole, u64::MAX) {
                Some(n) => n,
                None => {
                    return Err(Error::invalid_input(Reason::InvalidValue));
                },
            }
        };
        match parse_fraction(frac) {
            Some(nanos) => Ok(Duration { secs, nanos }),
            None => Err(Error::invalid_input(Reason::InvalidValue)),
        }
    }
}

/// The first ten powers of ten.
pub proof fn lemma_pow10_values()
    ensures
        pow10(0) == 1,
        pow10(1) == 10,
        pow10(2) == 100,
        pow10(3) == 1_000,
        pow10(4) == 10_000,
        pow10(5) == 100_000,
        pow10(6) == 1_000_000,
        pow10(7) == 10_000_000,
        pow10(8) == 100_000_000,
        pow10(9) == 1_000_000_000,
{
    reveal_with_fuel(pow10, 11);
}

/// A power of ten is positive.
pub proof fn lemma_pow10_positive(e: nat)
    ensures
        pow10(e) > 0,
    decreases e,
{
    if e > 0 {
        lemma_pow10_positive((e - 1) as nat);
    }
}

/// Fraction digits spell fewer units than a whole.
pub proof fn lemma_fraction_value_bound(s: Seq<char>, width: nat)
    requires
        all_digits(s),
    ensures
        fraction_value(s, width) < pow10(width),
    decreases width,
{
    lemma_pow10_positive(width);
    if width == 0 || s.len() == 0 {
    } else {
        let t = s.drop_first();
        assert forall|i: int| 0 <= i < t.len() implies is_digit(#[trigger] t[i]) by {
            assert(t[i] == s[i + 1]);
        }
        lemma_fraction_value_bound(t, (width - 1) as nat);
        assert(is_digit(s[0]));
        let p = pow10((width - 1) as nat);
        let d = digit_value(s[0]);
        assert(d * p + p <= 10 * p) by (nonlinear_arith)
            requires
                d <= 9,
        ;
    }
}

/// The fraction digits of a number below a whole are digits, and spell
/// that number.
pub proof fn lemma_fraction_text(n: nat, width: nat)
    requires
        n < pow10(width),
    ensures
        all_digits(fraction_text(n, width)),
        fraction_text(n, width).len() <= width,
        n > 0 ==> fraction_text(n, width).len() > 0,
        fraction_value(fraction_text(n, width), width) == n,
    decreases width,
{
    if n == 0 || width == 0 {
    } else {
        let p = pow10((width - 1) as nat);
        lemma_pow10_positive((width - 1) as nat);
        let d = n / p;
        let r = n % p;
        assert(d < 10 && r < p && n == d * p + r) by (nonlinear_arith)
            requires
                n < 10 * p,
                p > 0,
                d == n / p,
                r == n % p,
        ;
        lemma_fraction_text(r, (width - 1) as nat);
        let rest = fraction_text(r, (width - 1) as nat);
        let s = fraction_text(n, width);
        assert(s == seq![digit_char(d)] + rest);
        assert(s[0] == digit_char(d));
        assert(s.drop_first() == rest);
        assert forall|i: int| 0 <= i < s.len() implies is_digit(#[trigger] s[i]) by {
            if i > 0 {
                assert(s[i] == rest[i - 1]);
            }
        }
        assert(digit_value(digit_char(d)) == d);
    }
}

/// Reading back the text of a span gives the span.
pub proof fn lemma_seconds_round_trip(d: Duration)
    requires
        d.wf(),
    ensures
        Duration::from_text(d.text()) == Some(d),
{
    d.lemma_parts();
    lemma_seconds_text_parts(d.seconds(), d.subsec());
}

/// The text of a span splits at its `.` into the digits of the seconds
/// and those of the nanoseconds.
pub proof fn lemma_seconds_text_parts(secs: nat, nanos: nat)
    requires
        nanos < NANOS_PER_SEC,
    ensures
        whole_part(seconds_text(secs, nanos)) == decimal_text(secs),
        fraction_part(seconds_text(secs, nanos)) == fraction_text(nanos, 9),
        secs <= u64::MAX ==> is_seconds_text(seconds_text(secs, nanos)),
        digits_value(decimal_text(secs)) == secs,
        fraction_value(fraction_text(nanos, 9), 9) == nanos,
{
    lemma_pow10_values();
    lemma_decimal_text(secs);
    lemma_fraction_text(nanos, 9);
    let w = decimal_text(secs);
    let f = fraction_text(nanos, 9);
    let s = seconds_text(secs, nanos);
    assert(!w.contains('.')) by {
        if w.contains('.') {
            let i = choose|i: int| 0 <= i < w.len() && w[i] == '.';
            assert(is_digit(w[i]));
        }
    }
    if nanos == 0 {
        lemma_first_index_after(w, '.', Seq::empty());
        assert(s.take(w.len() as int) == w);
        assert(f.len() == 0);
    } else {
        lemma_first_index_after(w, '.', f);
        assert(s.take(w.len() as int) == w);
        assert(s.skip(w.len() as int + 1) == f);
    }
}

/// Every character of the text of a span is a digit or `.`.
pub proof fn lemma_seconds_text_chars(secs: nat, nanos: nat)
    requires
        nanos < NANOS_PER_SEC,
    ensures
        seconds_text(secs, nanos).len() > 0,
        forall|i: int|
            0 <= i < seconds_text(secs, nanos).len() ==> is_digit(
                #[trigger] seconds_text(secs, nanos)[i],
            ) || seconds_text(secs, nanos)[i] == '.',
{
    lemma_pow10_values();
    lemma_decimal_text(secs);
    lemma_fraction_text(nanos, 9);
    let w = decimal_text(secs);
    let f = fraction_text(nanos, 9);
    let s = seconds_text(secs, nanos);
    assert forall|i: int| 0 <= i < s.len() implies is_digit(#[trigger] s[i]) || s[i] == '.' by {
        if i < w.len() {
            assert(s[i] == w[i]);
        } else if i > w.len() {
            assert(s[i] == f[i - w.len() - 1]);
        }
    }
}

/// The text of a well-formed span holds no comma and no quote.
pub proof fn lemma_seconds_text_bare(d: Duration)
    requires
        d.wf(),
    ensures
        !d.text().contains(','),
        !d.text().contains('"'),
{
    d.lemma_parts();
    lemma_seconds_text_chars(d.seconds(), d.subsec());
    let s = d.text();
    assert forall|i: int| 0 <= i < s.len() implies s[i] != ',' && s[i] != '"' by {
        assert(is_digit(s[i]) || s[i] == '.');
    }
}

/// Reads fraction digits as nanoseconds, the digits beyond the ninth
/// dropped; `None` where a character is no digit.
fn parse_fraction(s: &[char]) -> (r: Option<u32>)
    ensures
        match r {
            Some(n) => all_digits(s@) && n == fraction_value(s@, 9) && n < NANOS_PER_SEC,
            None => !all_digits(s@),
        },
{
    let mut acc: u32 = 0;
    let mut weight: u32 = NANOS_PER_SEC;
    let mut i: usize = 0;
    let ghost mut k: nat = 9;
    proof {
        lemma_pow10_values();
        assert(s@.skip(0) == s@);
    }
    while i < s.len()
        invariant
            i <= s.len(),
            k <= 9,
            weight == pow10(k),
            acc + weight <= NANOS_PER_SEC,
            all_digits(s@.take(i as int)),
            acc + fraction_value(s@.skip(i as int), k) == fraction_value(s@, 9),
        decreases s.len() - i,
    {
        let c = s[i];
        if !is_digit_char(c) {
            assert(!all_digits(s@)) by {
                assert(s@[i as int] == c);
            }
            return None;
        }
        proof {
            let t = s@.skip(i as int);
            assert(t[0] == c);
            assert(t.drop_first() == s@.skip(i + 1));
            let u = s@.take(i + 1);
            assert forall|j: int| 0 <= j < u.len() implies is_digit(#[trigger] u[j]) by {
                if j < i {
                    assert(u[j] == s@.take(i as int)[j]);
                }
            }
        }
        if weight > 1 {
            let d: u32 = digit_of(c) as u32;
            let next: u32 = weight / 10;
            proof {
                lemma_pow10_positive((k - 1) as nat);
                assert(next == pow10((k - 1) as nat));
                assert(d * next + next <= weight) by (nonlinear_arith)
                    requires
                        d <= 9,
                        weight == 10 * next,
                ;
            }
            acc = acc + d * next;
            weight = next;
            proof {
                k = (k - 1) as nat;
            }
        } else {
            proof {
                assert(k == 0) by {
                    if k > 0 {
                        lemma_pow10_positive((k - 1) as nat);
                    }
                }
            }
        }
        i = i + 1;
    }
    proof {
        assert(s@.take(s.len() as int) == s@);
        assert(s@.skip(s.len() as int).len() == 0);
    }
    Some(acc)
}

/// Appends the fewest fraction digits that give `nanos` nanoseconds.
fn push_fraction(buf: &mut Vec<char>, nanos: u32)
    requires
        nanos < NANOS_PER_SEC,
    ensures
        final(buf)@ == old(buf)@ + fraction_text(nanos as nat, 9),
{
    let mut n: u32 = nanos;
    let mut weight: u32 = NANOS_PER_SEC;
    let ghost mut k: nat = 9;
    proof {
        lemma_pow10_values();
        assert(buf@ + fraction_text(n as nat, k) =~= old(buf)@ + fraction_text(nanos as nat, 9));
    }
    while n != 0
        invariant
            k <= 9,
            weight == pow10(k),
            n < weight,
            buf@ + fraction_text(n as nat, k) == old(buf)@ + fraction_text(nanos as nat, 9),
        decreases k,
    {
        proof {
            if k == 0 {
                assert(pow10(0) == 1);
            }
            lemma_pow10_positive((k - 1) as nat);
        }
        let next: u32 = weight / 10;
        assert(next == pow10((k - 1) as nat));
        let d: u32 = n / next;
        let r: u32 = n % next;
        assert(d < 10) by (nonlinear_arith)
            requires
                n < 10 * next,
                next > 0,
                d == n / next,
        ;
        let ghost before = buf@;
        let c = char_of_digit(d as u8);
        buf.push(c);
        proof {
            let rest = fraction_text(r as nat, (k - 1) as nat);
            assert(fraction_text(n as nat, k) == seq![c] + rest);
            assert(buf@ + rest =~= before + (seq![c] + rest));
        }
        n = r;
        weight = next;
        proof {
            k = (k - 1) as nat;
        }
    }
    assert(fraction_text(0, k).len() == 0);
    assert(buf@ =~= buf@ + fraction_text(0, k));
}

} // verus!
