//! Bytes written as lower-case hexadecimal text, two digits for each byte,
//! and read back.

use vstd::prelude::*;

verus! {

/// The digit that stands for `n`, for `n` from 0 to 15: `0` to `9`, whose
/// codes begin at 48, then `a` to `f`, whose codes begin at 97.
pub open spec fn hex_digit(n: int) -> char {
    if n < 10 {
        (n + 48) as u8 as char
    } else {
        (n + 87) as u8 as char
    }
}

/// The number that `c` stands for, where `c` is one of `0` to `9` and `a` to
/// `f`.
pub open spec fn digit_value(c: char) -> Option<int> {
    let u = c as u32;
    if 48 <= u <= 57 {
        Some(u - 48)
    } else if 97 <= u <= 102 {
        Some(u - 87)
    } else {
        None
    }
}

/// `bytes` in hexadecimal: the high half of each byte, then its low half.
#[verifier::opaque]
pub open spec fn hex_of(bytes: Seq<u8>) -> Seq<char> {
    Seq::new(
        2 * bytes.len(),
        |i: int|
            if i % 2 == 0 {
                hex_digit(bytes[i / 2] as int / 16)
            } else {
                hex_digit(bytes[i / 2] as int % 16)
            },
    )
}

/// Whether `s` is the hexadecimal form of some bytes: an even number of
/// digits.
pub open spec fn is_hex(s: Seq<char>) -> bool {
    &&& s.len() % 2 == 0
    &&& forall|i: int| 0 <= i < s.len() ==> digit_value(#[trigger] s[i]) is Some
}

/// The bytes that the digits of `s` stand for, pair by pair.
#[verifier::opaque]
pub open spec fn bytes_of_hex(s: Seq<char>) -> Seq<u8> {
    Seq::new(
        s.len() / 2,
        |i: int| (16 * digit_value(s[2 * i]).unwrap() + digit_value(s[2 * i + 1]).unwrap()) as u8,
    )
}

/// A digit stands for the number it was written for.
pub proof fn lemma_digit_round_trip(n: int)
    requires
        0 <= n < 16,
    ensures
        digit_value(hex_digit(n)) == Some(n),
{
}

/// A number is written with the digit that stands for it.
pub proof fn lemma_value_round_trip(c: char)
    requires
        digit_value(c) is Some,
    ensures
        0 <= digit_value(c).unwrap() < 16,
        hex_digit(digit_value(c).unwrap()) == c,
{
}

/// What was written in hexadecimal reads back as the same bytes.
pub proof fn lemma_hex_round_trip(bytes: Seq<u8>)
    ensures
        hex_of(bytes).len() == 2 * bytes.len(),
        is_hex(hex_of(bytes)),
        bytes_of_hex(hex_of(bytes)) == bytes,
{
    reveal(hex_of);
    reveal(bytes_of_hex);
    let s = hex_of(bytes);
    assert forall|i: int| 0 <= i < s.len() implies digit_value(#[trigger] s[i]) is Some by {
        lemma_digit_round_trip(bytes[i / 2] as int / 16);
        lemma_digit_round_trip(bytes[i / 2] as int % 16);
    }
    assert forall|i: int| 0 <= i < bytes.len() implies bytes_of_hex(s)[i] == bytes[i] by {
        lemma_digit_round_trip(bytes[i] as int / 16);
        lemma_digit_round_trip(bytes[i] as int % 16);
        assert(s[2 * i] == hex_digit(bytes[i] as int / 16));
        assert(s[2 * i + 1] == hex_digit(bytes[i] as int % 16));
    }
    assert(bytes_of_hex(s) =~= bytes);
}

/// Hexadecimal text is the written form of the bytes it reads as, and of no
/// others.
pub proof fn lemma_hex_canonical(s: Seq<char>)
    requires
        is_hex(s),
    ensures
        bytes_of_hex(s).len() == s.len() / 2,
        hex_of(bytes_of_hex(s)) == s,
{
    reveal(hex_of);
    reveal(bytes_of_hex);
    let b = bytes_of_hex(s);
    assert forall|i: int| 0 <= i < s.len() implies hex_of(b)[i] == s[i] by {
        let k = i / 2;
        lemma_value_round_trip(s[2 * k]);
        lemma_value_round_trip(s[2 * k + 1]);
        let hi = digit_value(s[2 * k]).unwrap();
        let lo = digit_value(s[2 * k + 1]).unwrap();
        assert(b[k] == 16 * hi + lo);
        assert((16 * hi + lo) / 16 == hi);
        assert((16 * hi + lo) % 16 == lo);
    }
    assert(hex_of(b) =~= s);
}

/// The text of the one digit that stands for `n`.
fn digit_text(n: u8) -> (t: &'static str)
    requires
        n < 16,
    ensures
        t@ == seq![hex_digit(n as int)],
{
    let digits: &'static str = "0123456789abcdef";
    proof {
        reveal_strlit("0123456789abcdef");
    }
    let t = digits.substring_ascii(n as usize, n as usize + 1);
    assert(t@ =~= seq![hex_digit(n as int)]);
    t
}

/// The number that the digit `c` stands for, if it is a digit.
fn digit_of(c: char) -> (v: Option<u8>)
    ensures
        match v {
            Some(n) => digit_value(c) == Some(n as int),
            None => digit_value(c) is None,
        },
{
    let u: u32 = c as u32;
    if 48 <= u && u <= 57 {
        Some((u - 48) as u8)
    } else if 97 <= u && u <= 102 {
        Some((u - 87) as u8)
    } else {
        None
    }
}

/// Writes `bytes` in hexadecimal.
pub fn to_hex(bytes: &[u8]) -> (out: String)
    ensures
        out@ == hex_of(bytes@),
{
    let mut out = String::new();
    let mut i: usize = 0;
    proof {
        reveal(hex_of);
        assert(out@ =~= hex_of(bytes@.take(0)));
    }
    while i < bytes.len()
        invariant
            i <= bytes@.len(),
            out@ == hex_of(bytes@.take(i as int)),
        decreases bytes@.len() - i,
    {
        let b = bytes[i];
        out.append(digit_text(b / 16));
        out.append(digit_text(b % 16));
        proof {
            reveal(hex_of);
            assert(out@ =~= hex_of(bytes@.take(i + 1)));
        }
        i = i + 1;
    }
    assert(bytes@.take(i as int) == bytes@);
    out
}

/// Reads hexadecimal text back into bytes; `None` where `s` is not an even
/// number of lower-case hexadecimal digits.
pub fn from_hex(s: &str) -> (r: Option<Vec<u8>>)
    ensures
        r is Some <==> is_hex(s@),
        r matches Some(b) ==> b@ == bytes_of_hex(s@),
{
    let mut out: Vec<u8> = Vec::new();
    let mut high: Option<u8> = None;
    proof {
        reveal(bytes_of_hex);
        assert(out@ =~= bytes_of_hex(s@.take(0)));
    }
    for c in it: s.chars()
        invariant
            it.seq() == s@,
            forall|j: int| 0 <= j < it.index() ==> digit_value(#[trigger] s@[j]) is Some,
            high is None <==> it.index() % 2 == 0,
            out@ == bytes_of_hex(s@.take(it.index() - it.index() % 2)),
            high matches Some(h) ==> digit_value(s@[it.index() - 1]) == Some(h as int),
    {
        match digit_of(c) {
            None => {
                return None;
            },
            Some(v) => {
                match high {
                    None => {
                        high = Some(v);
                    },
                    Some(h) => {
                        out.push(h * 16 + v);
                        high = None;
                        proof {
                            reveal(bytes_of_hex);
                            assert(out@ =~= bytes_of_hex(s@.take(it.index() + 1)));
                        }
                    },
                }
            },
        }
    }
    if high.is_some() {
        return None;
    }
    assert(s@.take(s@.len() as int) == s@);
    Some(out)
}

} // verus!
