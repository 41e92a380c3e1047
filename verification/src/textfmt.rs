//! Decimal rendering of integers into strings, and the one string-building
//! primitive the renderers share.
use vstd::prelude::*;

verus! {

/// The character for a decimal digit value below ten.
pub open spec fn dec_char(d: int) -> char {
    (((0x30 + d) as u8) as char)
}

/// The decimal rendering of a natural number, most significant digit first,
/// with no leading zeros (a lone `0` for zero).
pub open spec fn dec_str(n: nat) -> Seq<char>
    decreases n,
{
    if n < 10 {
        seq![dec_char(n as int)]
    } else {
        dec_str(n / 10).push(dec_char((n % 10) as int))
    }
}

/// The decimal rendering of a signed number: a minus sign before the
/// magnitude when negative.
pub open spec fn dec_str_i64(n: int) -> Seq<char> {
    if n >= 0 {
        dec_str(n as nat)
    } else {
        seq!['-'] + dec_str((-n) as nat)
    }
}

/// Relies on String::push: appends the given character to the end of the
/// string.
#[verifier::external_body]
pub(crate) fn push_char(s: &mut String, c: char)
    ensures
        final(s)@ == old(s)@.push(c),
{
    s.push(c);
}

/// Appends the decimal rendering of `n`.
pub fn push_u64(s: &mut String, n: u64)
    ensures
        final(s)@ == old(s)@ + dec_str(n as nat),
    decreases n,
{
    if n < 10 {
        push_char(s, (0x30 + n as u8) as char);
        proof {
            assert(old(s)@ + dec_str(n as nat) =~= old(s)@.push(dec_char(n as int)));
        }
    } else {
        push_u64(s, n / 10);
        push_char(s, (0x30 + (n % 10) as u8) as char);
        proof {
            assert(old(s)@ + dec_str(n as nat) =~= (old(s)@ + dec_str((n as nat) / 10)).push(
                dec_char((n % 10) as int),
            ));
        }
    }
}

/// The decimal rendering of a `u64`.
pub fn u64_to_string(n: u64) -> (r: String)
    ensures
        r@ == dec_str(n as nat),
{
    let mut s = String::new();
    push_u64(&mut s, n);
    proof {
        assert(Seq::<char>::empty() + dec_str(n as nat) =~= dec_str(n as nat));
    }
    s
}

/// The decimal rendering of an `i64`, minus sign included.
pub fn i64_to_string(n: i64) -> (r: String)
    ensures
        r@ == dec_str_i64(n as int),
{
    if n >= 0 {
        u64_to_string(n as u64)
    } else {
        let mut s = String::new();
        push_char(&mut s, '-');
        let mag: u64 = ((-(n + 1)) as u64) + 1;
        proof {
            assert(mag == -(n as int));
            assert(Seq::<char>::empty().push('-') =~= seq!['-']);
        }
        push_u64(&mut s, mag);
        proof {
            assert(seq!['-'] + dec_str(mag as nat) == dec_str_i64(n as int));
        }
        s
    }
}

} // verus!
