//! Expected memory contents in a sample, and the hexadecimal notation of
//! their address and bytes (with or without `0x` in front).
use vstd::prelude::*;
use vstd::string::StringSliceAdditionalSpecFns;

use super::address::Address;

verus! {

/// Expected memory contents of a program: bytes at an address.
#[derive(Debug, PartialEq)]
pub struct Memory {
    pub program_id: Address,
    pub address: usize,
    pub bytes: Vec<u8>,
}

/// Why a number could not be read.
#[derive(Debug, Clone, Copy, PartialEq, Eq, Structural)]
pub enum IntErrorKind {
    /// Nothing to read.
    Empty,
    /// A character that is not a digit.
    InvalidDigit,
    /// The number does not fit.
    PosOverflow,
}

/// Why bytes could not be read.
#[derive(Debug, Clone, Copy, PartialEq, Eq)]
pub enum HexError {
    /// A character that is not a hexadecimal digit, and its position.
    InvalidHexCharacter { c: char, index: usize },
    /// An odd number of digits.
    OddLength,
    /// A length that does not fit the output.
    InvalidStringLength,
}

/// The value of a hexadecimal digit (either case).
pub open spec fn hex_digit_value(c: u8) -> Option<int> {
    if 48 <= c <= 57 {
        Some(c - 48)
    } else if 97 <= c <= 102 {
        Some(c - 97 + 10)
    } else if 65 <= c <= 70 {
        Some(c - 65 + 10)
    } else {
        None
    }
}

/// The text with every leading `0x` removed.
pub open spec fn strip_hex_prefix(s: Seq<u8>) -> Seq<u8>
    decreases s.len(),
{
    if s.len() >= 2 && s[0] == 48u8 && s[1] == 120u8 {
        strip_hex_prefix(s.skip(2))
    } else {
        s
    }
}

/// Reading hexadecimal digits onto `acc`, left to right: a non-digit is an
/// invalid digit, and a value above `usize::MAX` an overflow, whichever
/// comes first.
pub open spec fn parse_hex_digits(s: Seq<u8>, acc: int) -> Result<int, IntErrorKind>
    decreases s.len(),
{
    if s.len() == 0 {
        Ok(acc)
    } else {
        match hex_digit_value(s[0]) {
            None => Err(IntErrorKind::InvalidDigit),
            Some(d) => if acc * 16 + d > usize::MAX {
                Err(IntErrorKind::PosOverflow)
            } else {
                parse_hex_digits(s.drop_first(), acc * 16 + d)
            },
        }
    }
}

/// Reading an unsigned hexadecimal number: an optional `+` sign, then at
/// least one digit.
pub open spec fn parse_hex_usize(s: Seq<u8>) -> Result<usize, IntErrorKind> {
    if s.len() == 0 {
        Err(IntErrorKind::Empty)
    } else if s.len() == 1 && (s[0] == 43u8 || s[0] == 45u8) {
        Err(IntErrorKind::InvalidDigit)
    } else {
        let digits = if s[0] == 43u8 {
            s.drop_first()
        } else {
            s
        };
        match parse_hex_digits(digits, 0) {
            Ok(v) => Ok(v as usize),
            Err(e) => Err(e),
        }
    }
}

/// The bytes that pairs of hexadecimal digits stand for.
pub open spec fn hex_pairs(s: Seq<u8>) -> Seq<u8> {
    Seq::new(
        s.len() / 2,
        |i: int|
            (hex_digit_value(s[2 * i]).unwrap() * 16 + hex_digit_value(s[2 * i + 1]).unwrap()) as u8,
    )
}

/// Whether the byte is a hexadecimal digit: `0`-`9`, `a`-`f` or `A`-`F`.
pub open spec fn is_hex_digit(c: u8) -> bool {
    ||| 48 <= c <= 57
    ||| 97 <= c <= 102
    ||| 65 <= c <= 70
}

/// What a hexadecimal digit counts: `0`-`9` their value, `a`-`f` and
/// `A`-`F` ten to fifteen.
pub open spec fn digit_worth(c: u8) -> int {
    if c <= 57 {
        c - 48
    } else if c >= 97 {
        c - 87
    } else {
        c - 55
    }
}

/// The number that hexadecimal digits stand for, most significant first.
pub open spec fn hex_number(s: Seq<u8>) -> int
    decreases s.len(),
{
    if s.len() == 0 {
        0
    } else {
        16 * hex_number(s.drop_last()) + digit_worth(s.last())
    }
}

/// Reading digits after more digits goes on from where those left off.
proof fn lemma_parse_hex_digits_push(t: Seq<u8>, c: u8, acc: int)
    ensures
        parse_hex_digits(t.push(c), acc) == match parse_hex_digits(t, acc) {
            Err(e) => Err(e),
            Ok(v) => match hex_digit_value(c) {
                None => Err(IntErrorKind::InvalidDigit),
                Some(d) => if v * 16 + d > usize::MAX {
                    Err(IntErrorKind::PosOverflow)
                } else {
                    Ok(v * 16 + d)
                },
            },
        },
    decreases t.len(),
{
    if t.len() == 0 {
        assert(t.push(c).drop_first() =~= Seq::<u8>::empty());
        assert(t.push(c)[0] == c);
        if let Some(d) = hex_digit_value(c) {
            assert(parse_hex_digits(Seq::<u8>::empty(), acc * 16 + d) == Ok::<int, IntErrorKind>(acc * 16 + d));
        }
    } else {
        assert(t.push(c)[0] == t[0]);
        assert(t.push(c).drop_first() =~= t.drop_first().push(c));
        if let Some(d) = hex_digit_value(t[0]) {
            if acc * 16 + d <= usize::MAX {
                lemma_parse_hex_digits_push(t.drop_first(), c, acc * 16 + d);
            }
        }
    }
}

/// Hexadecimal digits whose number fits in `usize` read as that number.
proof fn lemma_parse_hex_digits_value(s: Seq<u8>)
    requires
        forall|j: int| 0 <= j < s.len() ==> is_hex_digit(#[trigger] s[j]),
        hex_number(s) <= usize::MAX,
    ensures
        parse_hex_digits(s, 0) == Ok::<int, IntErrorKind>(hex_number(s)),
        0 <= hex_number(s),
    decreases s.len(),
{
    if s.len() > 0 {
        let d = s.drop_last();
        assert forall|j: int| 0 <= j < d.len() implies is_hex_digit(#[trigger] d[j]) by {
            assert(d[j] == s[j]);
        }
        assert(is_hex_digit(s[s.len() - 1]));
        assert(0 <= digit_worth(s.last()) < 16);
        lemma_parse_hex_digits_value_nonneg(d);
        lemma_parse_hex_digits_value(d);
        assert(s == d.push(s.last()));
        lemma_parse_hex_digits_push(d, s.last(), 0);
    }
}

/// The number of hexadecimal digits is not negative.
proof fn lemma_parse_hex_digits_value_nonneg(s: Seq<u8>)
    requires
        forall|j: int| 0 <= j < s.len() ==> is_hex_digit(#[trigger] s[j]),
    ensures
        0 <= hex_number(s),
    decreases s.len(),
{
    if s.len() > 0 {
        let d = s.drop_last();
        assert forall|j: int| 0 <= j < d.len() implies is_hex_digit(#[trigger] d[j]) by {
            assert(d[j] == s[j]);
        }
        assert(is_hex_digit(s[s.len() - 1]));
        lemma_parse_hex_digits_value_nonneg(d);
    }
}

/// An address of one or more hexadecimal digits, with or without `0x` in
/// front, whose number fits in `usize`, reads as that number.
pub proof fn lemma_parse_address_digits(s: Seq<u8>)
    requires
        s.len() > 0,
    ensures
        (forall|j: int| 0 <= j < s.len() ==> is_hex_digit(#[trigger] s[j])) && hex_number(s)
            <= usize::MAX ==> {
            &&& parse_hex_usize(strip_hex_prefix(s)) == Ok::<usize, IntErrorKind>(
                hex_number(s) as usize,
            )
            &&& parse_hex_usize(strip_hex_prefix(seq![48u8, 120u8] + s)) == Ok::<
                usize,
                IntErrorKind,
            >(hex_number(s) as usize)
        },
{
    if forall|j: int| 0 <= j < s.len() ==> is_hex_digit(#[trigger] s[j]) {
        assert(is_hex_digit(s[0]));
        assert(s.len() >= 2 ==> is_hex_digit(s[1]));
        assert(strip_hex_prefix(s) == s);
        let p = seq![48u8, 120u8] + s;
        assert(p.skip(2) =~= s);
        assert(strip_hex_prefix(p) == strip_hex_prefix(s));
        if hex_number(s) <= usize::MAX {
            lemma_parse_hex_digits_value(s);
        }
    }
}

/// Reads the digits from `start` on (see `parse_hex_digits`).
fn read_hex_digits(b: &[u8], start: usize) -> (r: Result<usize, IntErrorKind>)
    requires
        start <= b@.len(),
    ensures
        match parse_hex_digits(b@.skip(start as int), 0) {
            Ok(v) => r == Ok::<usize, IntErrorKind>(v as usize),
            Err(e) => r == Err::<usize, IntErrorKind>(e),
        },
{
    let mut acc: usize = 0;
    let mut i = start;
    while i < b.len()
        invariant
            start <= i <= b@.len(),
            parse_hex_digits(b@.skip(start as int), 0) == parse_hex_digits(b@.skip(i as int), acc as int),
        decreases b@.len() - i,
    {
        let c = b[i];
        assert(b@.skip(i as int)[0] == c);
        assert(b@.skip(i as int).drop_first() =~= b@.skip(i + 1));
        let d: usize = if 48 <= c && c <= 57 {
            (c - 48) as usize
        } else if 97 <= c && c <= 102 {
            (c - 97 + 10) as usize
        } else if 65 <= c && c <= 70 {
            (c - 65 + 10) as usize
        } else {
            return Err(IntErrorKind::InvalidDigit);
        };
        let m = match acc.checked_mul(16) {
            Some(m) => m,
            None => return Err(IntErrorKind::PosOverflow),
        };
        acc = match m.checked_add(d) {
            Some(a) => a,
            None => return Err(IntErrorKind::PosOverflow),
        };
        i = i + 1;
    }
    assert(b@.skip(i as int) =~= Seq::<u8>::empty());
    Ok(acc)
}

/// The position after every leading `0x`.
fn hex_prefix_end(b: &[u8]) -> (k: usize)
    ensures
        k <= b@.len(),
        strip_hex_prefix(b@) == b@.skip(k as int),
{
    let mut k: usize = 0;
    assert(b@.skip(0) =~= b@);
    while b.len() - k >= 2 && b[k] == 48 && b[k + 1] == 120
        invariant
            k <= b@.len(),
            strip_hex_prefix(b@) == strip_hex_prefix(b@.skip(k as int)),
        decreases b@.len() - k,
    {
        assert(b@.skip(k as int).skip(2) =~= b@.skip(k + 2));
        k = k + 2;
    }
    k
}

/// Reads an address written in hexadecimal, with or without leading `0x`.
pub fn parse_address(s: &str) -> (r: Result<usize, IntErrorKind>)
    ensures
        r == parse_hex_usize(strip_hex_prefix(s.spec_bytes())),
{
    let b = s.as_bytes();
    let k = hex_prefix_end(b);
    let ghost t = b@.skip(k as int);
    if k == b.len() {
        return Err(IntErrorKind::Empty);
    }
    if k + 1 == b.len() && (b[k] == 43 || b[k] == 45) {
        return Err(IntErrorKind::InvalidDigit);
    }
    let start = if b[k] == 43 {
        k + 1
    } else {
        k
    };
    assert(t[0] == b@[k as int]);
    assert(t.drop_first() =~= b@.skip(k + 1));
    read_hex_digits(b, start)
}

/// Whether `r` is what reading `data` as pairs of hexadecimal digits
/// gives: an odd number of digits is `OddLength`; otherwise the first byte
/// that is not a hexadecimal digit is `InvalidHexCharacter`, with that byte
/// as a character and its index; otherwise each pair of digits gives one
/// byte.
pub open spec fn hex_decoded(data: Seq<u8>, r: Result<Vec<u8>, HexError>) -> bool {
    if data.len() % 2 == 1 {
        r matches Err(HexError::OddLength)
    } else {
        match r {
            Ok(v) => v@ == hex_pairs(data) && forall|j: int|
                0 <= j < data.len() ==> #[trigger] hex_digit_value(data[j]) is Some,
            Err(HexError::InvalidHexCharacter { c, index }) => index < data.len()
                && hex_digit_value(data[index as int]) is None && c == data[index as int] as char
                && forall|j: int| 0 <= j < index ==> #[trigger] hex_digit_value(data[j]) is Some,
            Err(_) => false,
        }
    }
}

/// Calls `<Vec<u8> as hex::FromHex>::from_hex`, whose source checks the
/// length first, then reads the digits two by two from the start, stopping
/// at the first invalid one (see `hex_decoded`).
#[verifier::external_body]
fn decode_hex(data: &[u8]) -> (r: Result<Vec<u8>, HexError>)
    ensures
        hex_decoded(data@, r),
{
    match <Vec<u8> as hex::FromHex>::from_hex(data) {
        Ok(v) => Ok(v),
        Err(hex::FromHexError::InvalidHexCharacter { c, index }) => Err(
            HexError::InvalidHexCharacter { c, index },
        ),
        Err(hex::FromHexError::OddLength) => Err(HexError::OddLength),
        Err(hex::FromHexError::InvalidStringLength) => Err(HexError::InvalidStringLength),
    }
}

/// Reads bytes written in hexadecimal, with or without leading `0x`: two
/// digits per byte.
pub fn parse_bytes(s: &str) -> (r: Result<Vec<u8>, HexError>)
    ensures
        hex_decoded(strip_hex_prefix(s.spec_bytes()), r),
{
    let b = s.as_bytes();
    let k = hex_prefix_end(b);
    let (_, digits) = b.split_at(k);
    assert(digits@ =~= b@.skip(k as int));
    decode_hex(digits)
}

} // verus!
