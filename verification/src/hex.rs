//! Sequences of bytes written in hexadecimal after `0x`.

use vstd::prelude::*;
use crate::attribute::Codec;
use crate::error::{invalid, Error, Reason};
use crate::number::{digit_char, digit_value, is_digit};
use crate::text::{chars_to_string, str_to_chars, tail};

verus! {

/// Whether `c` is a hexadecimal digit, in either case.
pub open spec fn is_hex_digit(c: char) -> bool {
    is_digit(c) || ('a' <= c && c <= 'f') || ('A' <= c && c <= 'F')
}

/// Whether every character of `s` is a hexadecimal digit.
pub open spec fn all_hex(s: Seq<char>) -> bool {
    forall|i: int| 0 <= i < s.len() ==> is_hex_digit(#[trigger] s[i])
}

/// The number that the hexadecimal digit `c` stands for.
pub open spec fn hex_value(c: char) -> nat {
    if is_digit(c) {
        digit_value(c)
    } else if 'a' <= c && c <= 'f' {
        (c as int - 'a' as int + 10) as nat
    } else {
        (c as int - 'A' as int + 10) as nat
    }
}

/// The lower-case hexadecimal digit that stands for `d`, for `d` below 16.
pub open spec fn hex_char(d: nat) -> char {
    if d < 10 {
        digit_char(d)
    } else {
        (d - 10 + 'a' as nat) as char
    }
}

/// The bytes that the hexadecimal digits `d` spell, two digits to a byte
/// from the left; a last digit without a partner is a byte of its own.
pub open spec fn hex_bytes(d: Seq<char>) -> Seq<u8>
    decreases d.len(),
{
    if d.len() == 0 {
        Seq::empty()
    } else if d.len() == 1 {
        seq![hex_value(d[0]) as u8]
    } else {
        seq![(hex_value(d[0]) * 16 + hex_value(d[1])) as u8] + hex_bytes(d.skip(2))
    }
}

/// The hexadecimal digits of the bytes `b`: two lower-case digits to a byte.
pub open spec fn hex_digits(b: Seq<u8>) -> Seq<char>
    decreases b.len(),
{
    if b.len() == 0 {
        Seq::empty()
    } else {
        seq![hex_char((b[0] / 16) as nat), hex_char((b[0] % 16) as nat)] + hex_digits(
            b.drop_first(),
        )
    }
}

/// The text of the bytes `b`: `0x` and their digits.
pub open spec fn hex_text(b: Seq<u8>) -> Seq<char> {
    seq!['0', 'x'] + hex_digits(b)
}

/// The bytes that the text `s` spells; `None` where it does not begin
/// with `0x` or `0X`, or holds anything but hexadecimal digits after that.
pub open spec fn hex_from_text(s: Seq<char>) -> Option<Seq<u8>> {
    if s.len() >= 2 && s[0] == '0' && (s[1] == 'x' || s[1] == 'X') && all_hex(s.skip(2)) {
        Some(hex_bytes(s.skip(2)))
    } else {
        None
    }
}

/// A sequence of bytes.
#[derive(Debug, Clone, PartialEq, Eq, Hash)]
pub struct HexadecimalSequence {
    bytes: Vec<u8>,
}

impl View for HexadecimalSequence {
    type V = Seq<u8>;

    closed spec fn view(&self) -> Seq<u8> {
        self.bytes@
    }
}

/// The number that the hexadecimal digit `c` stands for; `None` where `c`
/// is no such digit.
pub fn hex_digit_of(c: char) -> (r: Option<u8>)
    ensures
        match r {
            Some(d) => is_hex_digit(c) && d == hex_value(c) && d < 16,
            None => !is_hex_digit(c),
        },
{
    if '0' <= c && c <= '9' {
        Some((c as u32 - '0' as u32) as u8)
    } else if 'a' <= c && c <= 'f' {
        Some((c as u32 - 'a' as u32 + 10) as u8)
    } else if 'A' <= c && c <= 'F' {
        Some((c as u32 - 'A' as u32 + 10) as u8)
    } else {
        None
    }
}

/// The lower-case hexadecimal digit that stands for `d`.
pub fn char_of_hex_digit(d: u8) -> (c: char)
    requires
        d < 16,
    ensures
        c == hex_char(d as nat),
{
    if d < 10 {
        (d + 48u8) as char
    } else {
        (d - 10u8 + 97u8) as char
    }
}

impl HexadecimalSequence {
    /// The sequence of the bytes `bytes`.
    pub fn new(bytes: Vec<u8>) -> (r: HexadecimalSequence)
        ensures
            r@ == bytes@,
    {
        HexadecimalSequence { bytes }
    }

    /// The bytes of the sequence.
    pub fn as_bytes(&self) -> (r: &[u8])
        ensures
            r@ == self@,
    {
        self.bytes.as_slice()
    }

    /// The bytes of the sequence.
    pub fn into_bytes(self) -> (r: Vec<u8>)
        ensures
            r@ == self@,
    {
        self.bytes
    }

    /// Reads bytes written in hexadecimal after `0x`.
    pub fn parse(s: &str) -> (r: Result<HexadecimalSequence, Error>)
        ensures
            match r {
                Ok(h) => hex_from_text(s@) == Some(h@),
                Err(e) => hex_from_text(s@) is None && e == invalid(Reason::InvalidValue),
            },
    {
        let v = str_to_chars(s);
        HexadecimalSequence::parse_chars(v.as_slice())
    }

    /// Appends the text of the sequence to `buf`.
    pub fn push_text(&self, buf: &mut Vec<char>)
        ensures
            final(buf)@ == old(buf)@ + hex_text(self@),
    {
        buf.push('0');
        buf.push('x');
        let mut i: usize = 0;
        proof {
            assert(self@.skip(0) == self@);
            assert(buf@ + hex_digits(self@.skip(0)) =~= old(buf)@ + hex_text(self@));
        }
        while i < self.bytes.len()
            invariant
                i <= self.bytes.len(),
                buf@ + hex_digits(self@.skip(i as int)) == old(buf)@ + hex_text(self@),
            decreases self.bytes.len() - i,
        {
            let b = self.bytes[i];
            let ghost before = buf@;
            buf.push(char_of_hex_digit(b / 16));
            buf.push(char_of_hex_digit(b % 16));
            proof {
                let cur = self@.skip(i as int);
                assert(cur[0] == b);
                assert(cur.drop_first() == self@.skip(i + 1));
                let rest = hex_digits(self@.skip(i + 1));
                assert(buf@ + rest =~= before + (seq![
                    hex_char((b / 16) as nat),
                    hex_char((b % 16) as nat),
                ] + rest));
            }
            i = i + 1;
        }
        proof {
            assert(self@.skip(self.bytes.len() as int).len() == 0);
            assert(buf@ + hex_digits(self@.skip(self.bytes.len() as int)) =~= buf@);
        }
    }

    /// The text of the sequence, as characters.
    pub fn to_chars(&self) -> (r: Vec<char>)
        ensures
            r@ == hex_text(self@),
    {
        let mut buf: Vec<char> = Vec::new();
        self.push_text(&mut buf);
        assert(buf@ =~= hex_text(self@));
        buf
    }

    /// The text of the sequence.
    pub fn render(&self) -> (r: String)
        ensures
            r@ == hex_text(self@),
    {
        let buf = self.to_chars();
        chars_to_string(buf.as_slice())
    }
}

impl Codec for HexadecimalSequence {
    type Value = Seq<u8>;

    open spec fn value(&self) -> Seq<u8> {
        self@
    }

    open spec fn decode(s: Seq<char>) -> Option<Seq<u8>> {
        hex_from_text(s)
    }

    fn parse_chars(s: &[char]) -> (r: Result<HexadecimalSequence, Error>) {
        if s.len() < 2 || s[0] != '0' || (s[1] != 'x' && s[1] != 'X') {
            return Err(Error::invalid_input(Reason::InvalidValue));
        }
        let d = tail(s, 2);
        let mut out: Vec<u8> = Vec::new();
        let mut i: usize = 0;
        proof {
            assert(d@.skip(0) == d@);
            assert(out@ + hex_bytes(d@) =~= hex_bytes(d@));
        }
        while i < d.len()
            invariant
                i <= d.len(),
                d@ == s@.skip(2),
                all_hex(d@.take(i as int)),
                out@ + hex_bytes(d@.skip(i as int)) == hex_bytes(d@),
            decreases d.len() - i,
        {
            let ghost cur = d@.skip(i as int);
            let ghost before = out@;
            let high = match hex_digit_of(d[i]) {
                Some(h) => h,
                None => {
                    assert(!is_hex_digit(d@[i as int]));
                    return Err(Error::invalid_input(Reason::InvalidValue));
                },
            };
            assert(cur[0] == d@[i as int]);
            if i + 1 < d.len() {
                let low = match hex_digit_of(d[i + 1]) {
                    Some(l) => l,
                    None => {
                        assert(!is_hex_digit(d@[i + 1]));
                        return Err(Error::invalid_input(Reason::InvalidValue));
                    },
                };
                out.push(high * 16 + low);
                proof {
                    assert(cur[1] == d@[i + 1]);
                    assert(cur.skip(2) == d@.skip(i + 2));
                    let rest = hex_bytes(d@.skip(i + 2));
                    assert(out@ + rest =~= before + (seq![(high * 16 + low) as u8] + rest));
                    let t = d@.take(i + 2);
                    assert forall|j: int| 0 <= j < t.len() implies is_hex_digit(#[trigger] t[j]) by {
                        if j < i {
                            assert(t[j] == d@.take(i as int)[j]);
                        }
                    }
                }
                i = i + 2;
            } else {
                out.push(high);
                proof {
                    assert(cur.len() == 1);
                    assert(d@.skip(i + 1).len() == 0);
                    assert(out@ + hex_bytes(d@.skip(i + 1)) =~= before + seq![high]);
                    let t = d@.take(i + 1);
                    assert forall|j: int| 0 <= j < t.len() implies is_hex_digit(#[trigger] t[j]) by {
                        if j < i {
                            assert(t[j] == d@.take(i as int)[j]);
                        }
                    }
                }
                i = i + 1;
            }
        }
        proof {
            assert(d@.take(d.len() as int) == d@);
            assert(d@.skip(d.len() as int).len() == 0);
            assert(out@ + hex_bytes(d@.skip(d.len() as int)) =~= out@);
        }
        Ok(HexadecimalSequence { bytes: out })
    }
}

/// The digits of a sequence of bytes are hexadecimal digits, two to a
/// byte, and spell the bytes.
pub proof fn lemma_hex_digits(b: Seq<u8>)
    ensures
        all_hex(hex_digits(b)),
        hex_digits(b).len() == 2 * b.len(),
        hex_bytes(hex_digits(b)) == b,
    decreases b.len(),
{
    if b.len() > 0 {
        let rest = hex_digits(b.drop_first());
        lemma_hex_digits(b.drop_first());
        let s = hex_digits(b);
        let h = hex_char((b[0] / 16) as nat);
        let l = hex_char((b[0] % 16) as nat);
        assert(s == seq![h, l] + rest);
        assert(s[0] == h && s[1] == l);
        assert(s.skip(2) == rest);
        assert(is_hex_digit(h) && hex_value(h) == b[0] / 16);
        assert(is_hex_digit(l) && hex_value(l) == b[0] % 16);
        assert forall|i: int| 0 <= i < s.len() implies is_hex_digit(#[trigger] s[i]) by {
            if i >= 2 {
                assert(s[i] == rest[i - 2]);
            }
        }
        assert(hex_bytes(s) == seq![b[0]] + b.drop_first());
        assert(seq![b[0]] + b.drop_first() == b);
    } else {
        assert(b == Seq::<u8>::empty());
    }
}

/// Reading back the text of a sequence of bytes gives the bytes.
pub proof fn lemma_hex_round_trip(b: Seq<u8>)
    ensures
        hex_from_text(hex_text(b)) == Some(b),
{
    lemma_hex_digits(b);
    assert(hex_text(b).skip(2) == hex_digits(b));
}

/// The text of a sequence of bytes holds no comma and no quote.
pub proof fn lemma_hex_text_bare(b: Seq<u8>)
    ensures
        !hex_text(b).contains(','),
        !hex_text(b).contains('"'),
{
    lemma_hex_digits(b);
    let s = hex_text(b);
    let d = hex_digits(b);
    assert forall|i: int| 0 <= i < s.len() implies s[i] != ',' && s[i] != '"' by {
        if i >= 2 {
            assert(s[i] == d[i - 2]);
            assert(is_hex_digit(d[i - 2]));
        }
    }
}

} // verus!
