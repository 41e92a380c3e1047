//! Lowercase hexadecimal encoding and decoding of byte strings and 32-bit
//! words. Job identifiers, extranonce values and version masks all travel on
//! the V1 wire in this form.
use vstd::prelude::*;

use crate::textfmt::push_char;
use vstd::string::StringExecFns;

verus! {

/// The lowercase hex character for a value below 16.
pub open spec fn hex_digit(v: u8) -> char {
    if v < 10 {
        (((0x30 + v) as u8) as char)
    } else {
        (((0x57 + v) as u8) as char)
    }
}

/// The numeric value of a hex character, if it is one.
pub open spec fn hex_value(d: char) -> Option<u8> {
    if '0' <= d && d <= '9' {
        Some((d as u8 - 0x30) as u8)
    } else if 'a' <= d && d <= 'f' {
        Some((d as u8 - 0x57) as u8)
    } else {
        None
    }
}

/// The two-character lowercase hex encoding of one byte.
pub open spec fn hex_pair(b: u8) -> Seq<char> {
    seq![hex_digit(b / 16), hex_digit(b % 16)]
}

/// The lowercase hex encoding of a byte string, two characters per byte.
pub open spec fn hex_of(bytes: Seq<u8>) -> Seq<char>
    decreases bytes.len(),
{
    if bytes.len() == 0 {
        Seq::empty()
    } else {
        hex_pair(bytes[0]) + hex_of(bytes.skip(1))
    }
}

pub proof fn lemma_hex_of_len(bytes: Seq<u8>)
    ensures
        hex_of(bytes).len() == 2 * bytes.len(),
    decreases bytes.len(),
{
    if bytes.len() > 0 {
        lemma_hex_of_len(bytes.skip(1));
    }
}

fn encode_digit(v: u8) -> (r: char)
    requires
        v < 16,
    ensures
        r == hex_digit(v),
{
    if v < 10 {
        (0x30 + v) as char
    } else {
        (0x57 + v) as char
    }
}

fn decode_digit(d: char) -> (r: Option<u8>)
    ensures
        r == hex_value(d),
{
    if '0' <= d && d <= '9' {
        Some(d as u8 - 0x30)
    } else if 'a' <= d && d <= 'f' {
        Some(d as u8 - 0x57)
    } else {
        None
    }
}

/// Appends the lowercase hex encoding of `bytes`, two characters per byte.
pub fn push_hex(out: &mut String, bytes: &Vec<u8>)
    ensures
        final(out)@ == old(out)@ + hex_of(bytes@),
{
    let mut i: usize = 0;
    while i < bytes.len()
        invariant
            i <= bytes.len(),
            out@ == old(out)@ + hex_of(bytes@.take(i as int)),
        decreases bytes.len() - i,
    {
        let b = bytes[i];
        push_char(out, encode_digit(b / 16));
        push_char(out, encode_digit(b % 16));
        proof {
            lemma_hex_of_take_snoc(bytes@, i as int);
            assert((old(out)@ + hex_of(bytes@.take(i as int))).push(hex_digit(b / 16)).push(
                hex_digit(b % 16),
            ) =~= old(out)@ + hex_of(bytes@.take(i + 1)));
        }
        i = i + 1;
    }
    proof {
        assert(bytes@.take(bytes@.len() as int) =~= bytes@);
    }
}

/// Encodes a byte string as lowercase hex, two characters per byte.
pub fn encode_bytes(bytes: &Vec<u8>) -> (r: String)
    ensures
        r@ == hex_of(bytes@),
{
    let mut out = String::new();
    push_hex(&mut out, bytes);
    proof {
        assert(Seq::<char>::empty() + hex_of(bytes@) =~= hex_of(bytes@));
    }
    out
}

proof fn lemma_hex_of_take_snoc(bytes: Seq<u8>, i: int)
    requires
        0 <= i < bytes.len(),
    ensures
        hex_of(bytes.take(i + 1)) == hex_of(bytes.take(i)) + hex_pair(bytes[i]),
    decreases i,
{
    if i == 0 {
        let s = bytes.take(1);
        assert(s.len() == 1 && s[0] == bytes[0]);
        assert(s.skip(1) =~= Seq::<u8>::empty());
        assert(hex_of(s.skip(1)) =~= Seq::<char>::empty());
        assert(hex_of(s) == hex_pair(bytes[0]) + hex_of(s.skip(1)));
        assert(hex_pair(bytes[0]) + Seq::<char>::empty() =~= hex_pair(bytes[0]));
        assert(hex_of(bytes.take(0)) =~= Seq::<char>::empty());
        assert(hex_of(bytes.take(0)) + hex_pair(bytes[0]) =~= hex_pair(bytes[0]));
    } else {
        lemma_hex_of_take_snoc(bytes.skip(1), i - 1);
        assert(bytes.take(i + 1).skip(1) =~= bytes.skip(1).take(i));
        assert(bytes.take(i).skip(1) =~= bytes.skip(1).take(i - 1));
        assert(bytes.take(i + 1)[0] == bytes[0]);
        assert(bytes.take(i)[0] == bytes[0]);
        assert(bytes.skip(1)[i - 1] == bytes[i]);
        assert(hex_of(bytes.take(i + 1)) == hex_pair(bytes[0]) + hex_of(bytes.skip(1).take(i)));
        assert(hex_of(bytes.take(i)) == hex_pair(bytes[0]) + hex_of(bytes.skip(1).take(i - 1)));
        assert(hex_pair(bytes[0]) + (hex_of(bytes.skip(1).take(i - 1)) + hex_pair(bytes[i]))
            =~= (hex_pair(bytes[0]) + hex_of(bytes.skip(1).take(i - 1))) + hex_pair(bytes[i]));
    }
}

/// Decodes a lowercase hex string back into bytes. Returns `None` when the
/// length is odd or a character is not a lowercase hex digit.
pub fn decode_str(digits: &str) -> (r: Option<Vec<u8>>)
    ensures
        match r {
            Some(bytes) => digits@ == hex_of(bytes@),
            None => forall|bytes: Seq<u8>| digits@ != hex_of(bytes),
        },
{
    let n = digits.unicode_len();
    if n % 2 != 0 {
        proof {
            assert forall|bytes: Seq<u8>| digits@ != hex_of(bytes) by {
                lemma_hex_of_len(bytes);
            }
        }
        return None;
    }
    let mut out: Vec<u8> = Vec::new();
    let mut i: usize = 0;
    while i < n
        invariant
            n == digits@.len(),
            i <= n,
            i % 2 == 0,
            n % 2 == 0,
            out@.len() == i / 2,
            digits@.take(i as int) == hex_of(out@),
        decreases n - i,
    {
        let hi = decode_digit(digits.get_char(i));
        let lo = decode_digit(digits.get_char(i + 1));
        match (hi, lo) {
            (Some(h), Some(l)) => {
                let b: u8 = h * 16 + l;
                proof {
                    lemma_digit_round_trip(b);
                    lemma_hex_of_snoc(out@, b);
                    assert(hex_digit(b / 16) == digits@[i as int]);
                    assert(hex_digit(b % 16) == digits@[i + 1]);
                    assert(digits@.take(i as int) + hex_pair(b) =~= digits@.take(i + 2));
                }
                out.push(b);
                i = i + 2;
            },
            _ => {
                proof {
                    let bad = if hi is None {
                        i as int
                    } else {
                        i + 1
                    };
                    assert(hex_value(digits@[bad]) is None);
                    assert forall|bytes: Seq<u8>| digits@ != hex_of(bytes) by {
                        if digits@ == hex_of(bytes) {
                            lemma_hex_of_digits(bytes, bad);
                        }
                    }
                }
                return None;
            },
        }
    }
    proof {
        assert(digits@.take(n as int) =~= digits@);
    }
    Some(out)
}

proof fn lemma_digit_round_trip(b: u8)
    ensures
        hex_value(hex_digit(b / 16)) == Some(b / 16),
        hex_value(hex_digit(b % 16)) == Some(b % 16),
{
}

pub proof fn lemma_hex_of_snoc(bytes: Seq<u8>, b: u8)
    ensures
        hex_of(bytes.push(b)) == hex_of(bytes) + hex_pair(b),
    decreases bytes.len(),
{
    if bytes.len() == 0 {
        let s = bytes.push(b);
        assert(s.len() == 1 && s[0] == b);
        assert(s.skip(1) =~= Seq::<u8>::empty());
        assert(hex_of(s.skip(1)) =~= Seq::<char>::empty());
        assert(hex_of(s) == hex_pair(b) + hex_of(s.skip(1)));
        assert(hex_pair(b) + Seq::<char>::empty() =~= hex_pair(b));
        assert(hex_of(bytes) =~= Seq::<char>::empty());
        assert(hex_of(bytes) + hex_pair(b) =~= hex_pair(b));
    } else {
        lemma_hex_of_snoc(bytes.skip(1), b);
        assert(bytes.push(b).skip(1) =~= bytes.skip(1).push(b));
        assert(bytes.push(b)[0] == bytes[0]);
        assert(hex_pair(bytes[0]) + (hex_of(bytes.skip(1)) + hex_pair(b)) =~= (hex_pair(bytes[0])
            + hex_of(bytes.skip(1))) + hex_pair(b));
    }
}

/// Every position of a hex encoding holds a valid hex character.
pub proof fn lemma_hex_of_digits_pub(bytes: Seq<u8>, pos: int)
    requires
        0 <= pos < hex_of(bytes).len(),
    ensures
        hex_value(hex_of(bytes)[pos]) is Some,
{
    lemma_hex_of_digits(bytes, pos);
}

proof fn lemma_hex_of_digits(bytes: Seq<u8>, pos: int)
    requires
        0 <= pos < hex_of(bytes).len(),
    ensures
        hex_value(hex_of(bytes)[pos]) is Some,
    decreases bytes.len(),
{
    lemma_hex_of_len(bytes);
    if pos < 2 {
        assert(hex_of(bytes)[pos] == hex_pair(bytes[0])[pos]);
    } else {
        lemma_hex_of_digits(bytes.skip(1), pos - 2);
    }
}

/// The eight-character lowercase hex encoding of a 32-bit word, most
/// significant digit first.
pub open spec fn hex_of_u32(v: u32) -> Seq<char> {
    hex_of(
        seq![
            (v >> 24) as u8,
            ((v >> 16) & 0xff) as u8,
            ((v >> 8) & 0xff) as u8,
            (v & 0xff) as u8,
        ],
    )
}

/// Encodes a 32-bit word as eight lowercase hex characters.
pub fn encode_u32(v: u32) -> (r: String)
    ensures
        r@ == hex_of_u32(v),
{
    let mut bytes: Vec<u8> = Vec::new();
    bytes.push((v >> 24) as u8);
    bytes.push(((v >> 16) & 0xff) as u8);
    bytes.push(((v >> 8) & 0xff) as u8);
    bytes.push((v & 0xff) as u8);
    proof {
        assert(bytes@ =~= seq![
            (v >> 24) as u8,
            ((v >> 16) & 0xff) as u8,
            ((v >> 8) & 0xff) as u8,
            (v & 0xff) as u8,
        ]);
    }
    encode_bytes(&bytes)
}

/// The sixteen-character lowercase hex encoding of a 64-bit word.
pub open spec fn hex_of_u64(v: u64) -> Seq<char> {
    hex_of_u32((v >> 32) as u32) + hex_of_u32((v & 0xffff_ffff) as u32)
}

/// Encodes a 64-bit word as sixteen lowercase hex characters.
pub fn encode_u64(v: u64) -> (r: String)
    ensures
        r@ == hex_of_u64(v),
{
    let hi = encode_u32((v >> 32) as u32);
    let lo = encode_u32((v & 0xffff_ffff) as u32);
    let r = hi.concat(lo.as_str());
    r
}

/// Round trip: two byte strings with the same encoding are the same.
pub proof fn lemma_hex_round_trip(a: Seq<u8>, b: Seq<u8>)
    requires
        hex_of(a) == hex_of(b),
    ensures
        a == b,
    decreases a.len(),
{
    lemma_hex_of_len(a);
    lemma_hex_of_len(b);
    if a.len() == 0 {
        assert(a =~= b);
    } else {
        assert(hex_of(a)[0] == hex_digit(a[0] / 16));
        assert(hex_of(a)[1] == hex_digit(a[0] % 16));
        assert(hex_of(b)[0] == hex_digit(b[0] / 16));
        assert(hex_of(b)[1] == hex_digit(b[0] % 16));
        lemma_digit_round_trip(a[0]);
        lemma_digit_round_trip(b[0]);
        assert(a[0] / 16 == b[0] / 16 && a[0] % 16 == b[0] % 16);
        assert(a[0] == b[0]);
        assert(hex_of(a).skip(2) =~= hex_of(a.skip(1)));
        assert(hex_of(b).skip(2) =~= hex_of(b.skip(1)));
        lemma_hex_round_trip(a.skip(1), b.skip(1));
        assert(a =~= seq![a[0]] + a.skip(1));
        assert(b =~= seq![b[0]] + b.skip(1));
    }
}

/// The hex encoding of four bytes, pair by pair.
pub proof fn lemma_hex_of_4(a: u8, b: u8, c: u8, d: u8)
    ensures
        hex_of(seq![a, b, c, d]) == hex_pair(a) + hex_pair(b) + hex_pair(c) + hex_pair(d),
{
    let s0 = seq![a, b, c, d];
    let s1 = seq![b, c, d];
    let s2 = seq![c, d];
    let s3 = seq![d];
    assert(s0.skip(1) =~= s1);
    assert(s1.skip(1) =~= s2);
    assert(s2.skip(1) =~= s3);
    assert(s3.skip(1) =~= Seq::<u8>::empty());
    assert(hex_of(s3.skip(1)) =~= Seq::<char>::empty());
    assert(hex_of(s3) == hex_pair(d) + hex_of(s3.skip(1)));
    assert(hex_of(s3) =~= hex_pair(d));
    assert(hex_of(s2) == hex_pair(c) + hex_of(s3));
    assert(hex_of(s1) == hex_pair(b) + hex_of(s2));
    assert(hex_of(s0) == hex_pair(a) + hex_of(s1));
    assert(hex_of(s0) =~= hex_pair(a) + hex_pair(b) + hex_pair(c) + hex_pair(d));
}

} // verus!
