//! The V1 wire messages and their canonical line form. Every supported
//! request can be rendered to its canonical JSON-RPC line and parsed back;
//! the parser accepts exactly the canonical form, and whatever it accepts
//! re-renders to the very bytes it read.
use vstd::prelude::*;

use crate::config::{all_dec_digits, dec_digit_val, digits_val, is_dec_digit, is_space};
use crate::hex::{hex_of, hex_of_u32, hex_value};
use crate::textfmt::{dec_str, push_char};

verus! {

/// The params of `mining.configure` as they cross the wire.
pub struct ConfigureParams {
    pub version_rolling: Vec<String>,
    pub version_rolling_mask: String,
}

/// The params of `mining.subscribe` as they cross the wire.
pub struct SubscribeParams {
    pub subscription: String,
}

/// The params of `mining.authorize` as they cross the wire.
pub struct AuthorizeParams {
    pub user: String,
    pub password: String,
}

/// One supported inbound request.
pub enum Request {
    Configure { id: u64, mask: u32, min_bits: u64 },
    Subscribe { id: u64, agent: String },
    Authorize { id: u64, user: String, password: String },
    Submit {
        id: u64,
        worker: String,
        job_id: u32,
        extranonce2: Vec<u8>,
        ntime: u32,
        nonce: u32,
        version_bits: Option<u32>,
    },
    ExtranonceSubscribe { id: u64 },
}

/// A string that can sit inside a canonical quoted literal: no quote and no
/// backslash.
pub open spec fn plain_str(s: Seq<char>) -> bool {
    forall|i: int| 0 <= i < s.len() ==> (#[trigger] s[i]) != '"' && s[i] != '\\'
}

// The fixed segments of the canonical line forms.
pub open spec fn lit_id() -> Seq<char> {
    "{\"id\":"@
}

pub open spec fn lit_cfg() -> Seq<char> {
    ",\"method\":\"mining.configure\",\"params\":[[\"version-rolling\"],{\"version-rolling.mask\":\""@
}

pub open spec fn lit_minbits() -> Seq<char> {
    "\",\"version-rolling.min-bit-count\":"@
}

pub open spec fn lit_obj_end() -> Seq<char> {
    "}]}"@
}

pub open spec fn lit_sub() -> Seq<char> {
    ",\"method\":\"mining.subscribe\",\"params\":[\""@
}

pub open spec fn lit_auth() -> Seq<char> {
    ",\"method\":\"mining.authorize\",\"params\":[\""@
}

pub open spec fn lit_submit() -> Seq<char> {
    ",\"method\":\"mining.submit\",\"params\":[\""@
}

pub open spec fn lit_extr() -> Seq<char> {
    ",\"method\":\"mining.extranonce.subscribe\",\"params\":[]}"@
}

pub open spec fn lit_sep() -> Seq<char> {
    "\",\""@
}

pub open spec fn lit_arr_end() -> Seq<char> {
    "\"]}"@
}

/// The request id, whichever kind the request is.
pub open spec fn req_id(m: Request) -> u64 {
    match m {
        Request::Configure { id, .. } => id,
        Request::Subscribe { id, .. } => id,
        Request::Authorize { id, .. } => id,
        Request::Submit { id, .. } => id,
        Request::ExtranonceSubscribe { id } => id,
    }
}

/// The method segment that follows the id, by kind.
pub open spec fn method_lit(m: Request) -> Seq<char> {
    match m {
        Request::Configure { .. } => lit_cfg(),
        Request::Subscribe { .. } => lit_sub(),
        Request::Authorize { .. } => lit_auth(),
        Request::Submit { .. } => lit_submit(),
        Request::ExtranonceSubscribe { .. } => lit_extr(),
    }
}

/// The canonical line of each request, without the trailing newline.
pub open spec fn render_request(m: Request) -> Seq<char> {
    match m {
        Request::Configure { id, mask, min_bits } => lit_id() + dec_str(id as nat) + lit_cfg()
            + hex_of_u32(mask) + lit_minbits() + dec_str(min_bits as nat) + lit_obj_end(),
        Request::Subscribe { id, agent } => lit_id() + dec_str(id as nat) + lit_sub() + agent@
            + lit_arr_end(),
        Request::Authorize { id, user, password } => lit_id() + dec_str(id as nat) + lit_auth()
            + user@ + lit_sep() + password@ + lit_arr_end(),
        Request::Submit { id, worker, job_id, extranonce2, ntime, nonce, version_bits } => lit_id()
            + dec_str(id as nat) + lit_submit() + worker@ + lit_sep() + hex_of_u32(job_id)
            + lit_sep() + hex_of(extranonce2@) + lit_sep() + hex_of_u32(ntime) + lit_sep()
            + hex_of_u32(nonce) + (match version_bits {
            Some(vb) => lit_sep() + hex_of_u32(vb) + lit_arr_end(),
            None => lit_arr_end(),
        }),
        Request::ExtranonceSubscribe { id } => lit_id() + dec_str(id as nat) + lit_extr(),
    }
}

/// Whether a request's strings fit the canonical quoted form.
pub open spec fn wf_request(m: Request) -> bool {
    match m {
        Request::Subscribe { agent, .. } => plain_str(agent@),
        Request::Authorize { user, password, .. } => plain_str(user@) && plain_str(password@),
        Request::Submit { worker, .. } => plain_str(worker@),
        _ => true,
    }
}

/// Why a line was refused.
#[derive(Debug, Clone, Copy, PartialEq, Eq, Structural)]
pub enum ParseError {
    /// Not the canonical form of any supported request.
    Malformed,
    /// A submit whose job-id field is not eight lowercase hex characters:
    /// refused with the request id, so the miner gets a reject rather than
    /// a closed session.
    BadSubmitJobId { id: u64 },
}

// ---------------------------------------------------------------------------
// Token parsers. Each consumes an exact region and says which characters it
// consumed.
// ---------------------------------------------------------------------------
/// Consumes the literal `lit` at `i`: `Some` exactly when it stands there.
fn eat_lit(s: &str, i: usize, lit: &str) -> (r: Option<usize>)
    requires
        i <= s@.len(),
    ensures
        match r {
            Some(j) => i + lit@.len() == j && j <= s@.len() && s@.subrange(i as int, j as int)
                == lit@,
            None => s@.len() < i + lit@.len() || s@.subrange(
                i as int,
                i + lit@.len(),
            ) != lit@,
        },
{
    let n = s.unicode_len();
    let m = lit.unicode_len();
    if m > n - i {
        return None;
    }
    let ghost whole = s@.subrange(i as int, i + m);
    let mut k: usize = 0;
    while k < m
        invariant
            n == s@.len(),
            m == lit@.len(),
            i + m <= n,
            k <= m,
            whole == s@.subrange(i as int, i + m),
            forall|t: int| 0 <= t < k ==> #[trigger] s@[i + t] == lit@[t],
        decreases m - k,
    {
        if s.get_char(i + k) != lit.get_char(k) {
            proof {
                assert(whole[k as int] == s@[i + k]);
                assert(whole != lit@);
            }
            return None;
        }
        k = k + 1;
    }
    proof {
        assert forall|t: int| 0 <= t < m implies s@.subrange(i as int, (i + m) as int)[t]
            == lit@[t] by {
            assert(s@.subrange(i as int, (i + m) as int)[t] == s@[i + t]);
        }
        assert(s@.subrange(i as int, (i + m) as int) =~= lit@);
    }
    Some(i + m)
}

/// Whether the canonical decimal rendering of `v` sits at `i`, ending at a
/// non-digit or the end of the string.
pub open spec fn dec_at(s: Seq<char>, i: int, v: u64) -> bool {
    let e = i + dec_str(v as nat).len();
    &&& e <= s.len()
    &&& s.subrange(i, e) == dec_str(v as nat)
    &&& (e == s.len() || !is_dec_digit(s[e]))
}

/// Consumes a canonical decimal number at `i`: digits without a leading
/// zero (a single zero stands alone), fitting a `u64`, ending at the first
/// non-digit. `None` exactly when no `u64` renders there that way.
fn parse_u64_at(s: &str, i: usize) -> (r: Option<(u64, usize)>)
    requires
        i <= s@.len(),
    ensures
        match r {
            Some((v, j)) => i < j <= s@.len() && s@.subrange(i as int, j as int) == dec_str(
                v as nat,
            ) && (j == s@.len() || !is_dec_digit(s@[j as int])),
            None => forall|v: u64| !dec_at(s@, i as int, v),
        },
{
    let n = s.unicode_len();
    let mut j: usize = i;
    let mut acc: u64 = 0;
    while j < n && at_digit(s, j)
        invariant
            n == s@.len(),
            i <= j <= n,
            all_dec_digits(s@.subrange(i as int, j as int)),
            acc == digits_val(s@.subrange(i as int, j as int)),
        decreases n - j,
    {
        let c = s.get_char(j);
        let d: u64 = (c as u8 - 0x30) as u64;
        if acc > (u64::MAX - d) / 10 {
            proof {
                let cur = s@.subrange(i as int, j + 1);
                assert(cur.drop_last() =~= s@.subrange(i as int, j as int));
                assert(cur.last() == s@[j as int]);
                assert(digits_val(cur) == acc * 10 + d);
                assert(acc * 10 + d > u64::MAX);
                assert forall|v: u64| !dec_at(s@, i as int, v) by {
                    if dec_at(s@, i as int, v) {
                        lemma_dec_str_shape(v as nat);
                        lemma_dec_str_val(v as nat);
                        let e = i + dec_str(v as nat).len();
                        assert forall|k: int| i <= k < e implies is_dec_digit(#[trigger] s@[k]) by {
                            assert(s@[k] == dec_str(v as nat)[k - i]);
                        }
                        // The failing position is still inside the digit run.
                        assert(is_dec_digit(s@[j as int]));
                        assert forall|k2: int| i <= k2 < j implies is_dec_digit(
                            #[trigger] s@[k2],
                        ) by {
                            assert(s@.subrange(i as int, j as int)[k2 - i] == s@[k2]);
                        }
                        assert(e > j);
                        assert(cur =~= dec_str(v as nat).take(j + 1 - i));
                        crate::config::lemma_digits_val_lower(dec_str(v as nat), j + 1 - i);
                    }
                }
            }
            return None;
        }
        acc = acc * 10 + d;
        proof {
            let cur = s@.subrange(i as int, j + 1);
            assert(cur.drop_last() =~= s@.subrange(i as int, j as int));
            assert(cur.last() == s@[j as int]);
            assert(forall|t: int|
                0 <= t < j - i ==> is_dec_digit(#[trigger] s@.subrange(i as int, j + 1)[t]));
        }
        j = j + 1;
    }
    if j == i {
        proof {
            assert forall|v: u64| !dec_at(s@, i as int, v) by {
                if dec_at(s@, i as int, v) {
                    lemma_dec_str_shape(v as nat);
                    assert(s@.subrange(i as int, i + dec_str(v as nat).len())[0] == s@[i as int]);
                    assert(is_dec_digit(s@[i as int]));
                }
            }
        }
        return None;
    }
    // Reject a leading zero unless the number is exactly zero.
    let first = s.get_char(i);
    if first == '0' && j > i + 1 {
        proof {
            assert(s@.subrange(i as int, j as int)[1] == s@[i + 1]);
            assert(is_dec_digit(s@[i + 1]));
            assert forall|v: u64| !dec_at(s@, i as int, v) by {
                if dec_at(s@, i as int, v) {
                    lemma_dec_str_shape(v as nat);
                    assert(s@.subrange(i as int, i + dec_str(v as nat).len())[0] == s@[i as int]);
                    lemma_dec_str_head_zero(v as nat);
                    assert(v == 0);
                    assert(dec_str(0nat).len() == 1);
                    assert(!is_dec_digit(s@[i + 1]));
                }
            }
        }
        return None;
    }
    proof {
        let t = s@.subrange(i as int, j as int);
        assert(t[0] == s@[i as int]);
        lemma_canonical_digits(t);
    }
    Some((acc, j))
}

/// The decimal rendering is never empty and holds digits only.
proof fn lemma_dec_str_shape(n: nat)
    ensures
        dec_str(n).len() >= 1,
        all_dec_digits(dec_str(n)),
    decreases n,
{
    if n < 10 {
        assert(dec_str(n) =~= seq![crate::textfmt::dec_char(n as int)]);
        assert(is_dec_digit(dec_str(n)[0]));
    } else {
        lemma_dec_str_shape(n / 10);
        assert forall|k: int| 0 <= k < dec_str(n).len() implies is_dec_digit(
            #[trigger] dec_str(n)[k],
        ) by {
            if k < dec_str(n).len() - 1 {
                assert(dec_str(n)[k] == dec_str(n / 10)[k]);
            } else {
                assert(dec_str(n)[k] == crate::textfmt::dec_char((n % 10) as int));
            }
        }
    }
}

/// The decimal rendering denotes its value.
proof fn lemma_dec_str_val(n: nat)
    ensures
        digits_val(dec_str(n)) == n,
    decreases n,
{
    if n < 10 {
        let t = dec_str(n);
        assert(t =~= seq![crate::textfmt::dec_char(n as int)]);
        assert(t.drop_last().len() == 0);
        assert(digits_val(t.drop_last()) == 0);
        assert(t.last() == crate::textfmt::dec_char(n as int));
    } else {
        lemma_dec_str_val(n / 10);
        let t = dec_str(n);
        assert(t.drop_last() =~= dec_str(n / 10));
        assert(t.last() == crate::textfmt::dec_char((n % 10) as int));
        assert(dec_digit_val(crate::textfmt::dec_char((n % 10) as int)) == n % 10);
    }
}

/// Only zero renders with a leading zero.
proof fn lemma_dec_str_head_zero(n: nat)
    requires
        dec_str(n)[0] == '0',
    ensures
        n == 0,
    decreases n,
{
    if n < 10 {
        assert(dec_str(n) =~= seq![crate::textfmt::dec_char(n as int)]);
        assert(crate::textfmt::dec_char(n as int) == '0');
    } else {
        lemma_dec_str_shape(n / 10);
        assert(dec_str(n)[0] == dec_str(n / 10)[0]);
        lemma_dec_str_head_zero(n / 10);
        assert(n / 10 >= 1);
    }
}

fn at_digit(s: &str, j: usize) -> (b: bool)
    requires
        j < s@.len(),
    ensures
        b == is_dec_digit(s@[j as int]),
{
    let c = s.get_char(j);
    '0' <= c && c <= '9'
}

/// A digit string without a leading zero is the decimal rendering of its
/// value.
proof fn lemma_canonical_digits(t: Seq<char>)
    requires
        t.len() >= 1,
        all_dec_digits(t),
        t[0] == '0' ==> t.len() == 1,
    ensures
        dec_str(digits_val(t) as nat) == t,
    decreases t.len(),
{
    crate::config::lemma_digits_val_nonneg(t);
    if t.len() == 1 {
        assert(t.drop_last().len() == 0);
        assert(digits_val(t.drop_last()) == 0);
        assert(t.last() == t[0]);
        assert(digits_val(t) == dec_digit_val(t[0]));
        assert(dec_digit_val(t[0]) < 10);
        assert(dec_str(digits_val(t) as nat) =~= seq![crate::textfmt::dec_char(digits_val(t))]);
        assert(crate::textfmt::dec_char(dec_digit_val(t[0])) == t[0]);
    } else {
        let front = t.drop_last();
        assert(forall|i: int| 0 <= i < front.len() ==> is_dec_digit(#[trigger] front[i]));
        assert(front[0] == t[0]);
        assert(front[0] != '0');
        lemma_canonical_digits(front);
        crate::config::lemma_digits_val_nonneg(front);
        lemma_nonzero_lead_val(front);
        let v = digits_val(t);
        assert(v == digits_val(front) * 10 + dec_digit_val(t.last()));
        assert(v / 10 == digits_val(front) && v % 10 == dec_digit_val(t.last())) by (nonlinear_arith)
            requires
                v == digits_val(front) * 10 + dec_digit_val(t.last()) && 0 <= dec_digit_val(
                    t.last(),
                ) < 10 && digits_val(front) >= 0,
        ;
        assert(v >= 10) by (nonlinear_arith)
            requires
                v == digits_val(front) * 10 + dec_digit_val(t.last()) && digits_val(front) >= 1
                    && dec_digit_val(t.last()) >= 0,
        ;
        assert(dec_str(v as nat) == dec_str((v as nat) / 10).push(
            crate::textfmt::dec_char((v % 10) as int),
        ));
        assert(crate::textfmt::dec_char(dec_digit_val(t.last())) == t.last());
        assert(dec_str(v as nat) =~= t);
    }
}

/// A digit string that does not start with zero is worth at least one.
proof fn lemma_nonzero_lead_val(t: Seq<char>)
    requires
        t.len() >= 1,
        all_dec_digits(t),
        t[0] != '0',
    ensures
        digits_val(t) >= 1,
    decreases t.len(),
{
    if t.len() == 1 {
        assert(t.drop_last().len() == 0);
        assert(digits_val(t.drop_last()) == 0);
        assert(t.last() == t[0]);
        assert(dec_digit_val(t[0]) >= 1);
    } else {
        let front = t.drop_last();
        assert(forall|i: int| 0 <= i < front.len() ==> is_dec_digit(#[trigger] front[i]));
        lemma_nonzero_lead_val(front);
        assert(digits_val(t) == digits_val(front) * 10 + dec_digit_val(t.last()));
        assert(digits_val(front) * 10 >= 10) by (nonlinear_arith)
            requires
                digits_val(front) >= 1,
        ;
    }
}

/// Consumes the longest run of plain characters at `i`: everything up to
/// the first quote or backslash.
fn parse_plain_at(s: &str, i: usize) -> (r: (String, usize))
    requires
        i <= s@.len(),
    ensures
        ({
            let (v, j) = r;
            &&& i <= j <= s@.len()
            &&& s@.subrange(i as int, j as int) == v@
            &&& plain_str(v@)
            &&& (j == s@.len() || s@[j as int] == '"' || s@[j as int] == '\\')
        }),
{
    let n = s.unicode_len();
    let mut j: usize = i;
    let mut out = String::new();
    proof {
        assert(s@.subrange(i as int, i as int) =~= out@);
    }
    while j < n && not_quote_or_backslash(s, j)
        invariant
            n == s@.len(),
            i <= j <= n,
            out@ == s@.subrange(i as int, j as int),
            plain_str(out@),
        decreases n - j,
    {
        push_char(&mut out, s.get_char(j));
        proof {
            assert(s@.subrange(i as int, j + 1) =~= s@.subrange(i as int, j as int).push(
                s@[j as int],
            ));
        }
        j = j + 1;
    }
    (out, j)
}

fn not_quote_or_backslash(s: &str, j: usize) -> (b: bool)
    requires
        j < s@.len(),
    ensures
        b == (s@[j as int] != '"' && s@[j as int] != '\\'),
{
    let c = s.get_char(j);
    c != '"' && c != '\\'
}

/// Whether the eight-character hex rendering of some 32-bit word sits at
/// `i`.
pub open spec fn hex32_at(s: Seq<char>, i: int, v: u32) -> bool {
    i + 8 <= s.len() && s.subrange(i, i + 8) == hex_of_u32(v)
}

/// Consumes exactly eight lowercase hex characters at `i` as one 32-bit
/// word, most significant digit first. `None` exactly when no word renders
/// there.
fn parse_hex_u32_at(s: &str, i: usize) -> (r: Option<(u32, usize)>)
    requires
        i <= s@.len(),
    ensures
        match r {
            Some((v, j)) => j == i + 8 && j <= s@.len() && s@.subrange(i as int, j as int)
                == hex_of_u32(v),
            None => forall|v: u32| !hex32_at(s@, i as int, v),
        },
{
    let n = s.unicode_len();
    if n - i < 8 {
        return None;
    }
    let b0 = match hex_byte_at(s, i) {
        Some(b) => b,
        None => {
            proof {
                lemma_no_hex32(s@, i as int, i as int);
            }
            return None;
        },
    };
    let b1 = match hex_byte_at(s, i + 2) {
        Some(b) => b,
        None => {
            proof {
                lemma_no_hex32(s@, i as int, i + 2);
            }
            return None;
        },
    };
    let b2 = match hex_byte_at(s, i + 4) {
        Some(b) => b,
        None => {
            proof {
                lemma_no_hex32(s@, i as int, i + 4);
            }
            return None;
        },
    };
    let b3 = match hex_byte_at(s, i + 6) {
        Some(b) => b,
        None => {
            proof {
                lemma_no_hex32(s@, i as int, i + 6);
            }
            return None;
        },
    };
    let v: u32 = ((b0 as u32) << 24) | ((b1 as u32) << 16) | ((b2 as u32) << 8) | (b3 as u32);
    proof {
        let vv = v;
        let c0 = b0;
        let c1 = b1;
        let c2 = b2;
        let c3 = b3;
        assert((vv >> 24) as u8 == c0 && ((vv >> 16) & 0xff) as u8 == c1 && ((vv >> 8) & 0xff) as u8
            == c2 && (vv & 0xff) as u8 == c3) by (bit_vector)
            requires
                vv == ((c0 as u32) << 24) | ((c1 as u32) << 16) | ((c2 as u32) << 8) | (c3 as u32),
        ;
        crate::hex::lemma_hex_of_4(c0, c1, c2, c3);
        assert(seq![c0, c1, c2, c3] =~= seq![
            (v >> 24) as u8,
            ((v >> 16) & 0xff) as u8,
            ((v >> 8) & 0xff) as u8,
            (v & 0xff) as u8,
        ]);
        assert(s@.subrange(i as int, i + 8) =~= s@.subrange(i as int, i + 2) + s@.subrange(
            i + 2,
            i + 4,
        ) + s@.subrange(i + 4, i + 6) + s@.subrange(i + 6, i + 8));
        assert(hex_of_u32(v) =~= s@.subrange(i as int, i + 8));
    }
    Some((v, i + 8))
}

/// Consumes two lowercase hex characters at `i` as one byte: `Some`
/// exactly when both characters are hex digits.
fn hex_byte_at(s: &str, i: usize) -> (r: Option<u8>)
    requires
        i + 2 <= s@.len(),
    ensures
        match r {
            Some(b) => s@.subrange(i as int, i + 2) == crate::hex::hex_pair(b),
            None => hex_value(s@[i as int]) is None || hex_value(s@[i + 1]) is None,
        },
{
    let n = s.unicode_len();
    let hi = hex_val_of(s.get_char(i));
    let lo = hex_val_of(s.get_char(i + 1));
    match (hi, lo) {
        (Some(h), Some(l)) => {
            let b: u8 = h * 16 + l;
            proof {
                assert(crate::hex::hex_digit(b / 16) == s@[i as int]);
                assert(crate::hex::hex_digit(b % 16) == s@[i + 1]);
                assert(s@.subrange(i as int, i + 2) =~= crate::hex::hex_pair(b));
            }
            Some(b)
        },
        _ => None,
    }
}

/// When one of the two characters at `p` is not a hex digit, no 32-bit
/// word renders at `i` covering it.
proof fn lemma_no_hex32(s: Seq<char>, i: int, p: int)
    requires
        0 <= i <= p,
        p + 2 <= i + 8,
        p + 2 <= s.len(),
        hex_value(s[p]) is None || hex_value(s[p + 1]) is None,
    ensures
        forall|v: u32| !hex32_at(s, i, v),
{
    assert forall|v: u32| !hex32_at(s, i, v) by {
        if hex32_at(s, i, v) {
            let bytes = seq![
                (v >> 24) as u8,
                ((v >> 16) & 0xff) as u8,
                ((v >> 8) & 0xff) as u8,
                (v & 0xff) as u8,
            ];
            crate::hex::lemma_hex_of_len(bytes);
            let bad = if hex_value(s[p]) is None {
                p
            } else {
                p + 1
            };
            assert(s.subrange(i, i + 8)[bad - i] == s[bad]);
            crate::hex::lemma_hex_of_digits_pub(bytes, bad - i);
        }
    }
}

fn hex_val_of(c: char) -> (r: Option<u8>)
    ensures
        r == hex_value(c),
        r matches Some(v) ==> crate::hex::hex_digit(v) == c && v < 16,
{
    if '0' <= c && c <= '9' {
        Some(c as u8 - 0x30)
    } else if 'a' <= c && c <= 'f' {
        Some(c as u8 - 0x57)
    } else {
        None
    }
}

/// Consumes the longest run of hex pairs at `i`, up to the first position
/// where fewer than two characters remain or one of the next two is not a
/// lowercase hex digit.
fn parse_hex_bytes_at(s: &str, i: usize) -> (r: (Vec<u8>, usize))
    requires
        i <= s@.len(),
    ensures
        ({
            let (bytes, j) = r;
            &&& i <= j <= s@.len()
            &&& s@.subrange(i as int, j as int) == hex_of(bytes@)
            &&& (j - i) % 2 == 0
            &&& (s@.len() - j < 2 || hex_value(s@[j as int]) is None || hex_value(s@[j + 1])
                is None)
        }),
{
    let n = s.unicode_len();
    let mut j: usize = i;
    let mut out: Vec<u8> = Vec::new();
    while n - j >= 2 && at_hex(s, j) && at_hex(s, j + 1)
        invariant
            n == s@.len(),
            i <= j <= n,
            (j - i) % 2 == 0,
            s@.subrange(i as int, j as int) == hex_of(out@),
        decreases n - j,
    {
        match hex_byte_at(s, j) {
            Some(b) => {
                proof {
                    lemma_hex_snoc(out@, b, s@, i as int, j as int);
                }
                out.push(b);
                j = j + 2;
            },
            None => {
                // Both characters were just checked to be hex digits.
                proof {
                    assert(false);
                }
                return (out, j);
            },
        }
    }
    (out, j)
}

fn at_hex(s: &str, j: usize) -> (b: bool)
    requires
        j < s@.len(),
    ensures
        b == (hex_value(s@[j as int]) is Some),
{
    let c = s.get_char(j);
    ('0' <= c && c <= '9') || ('a' <= c && c <= 'f')
}

proof fn lemma_hex_snoc(bytes: Seq<u8>, b: u8, s: Seq<char>, i: int, j: int)
    requires
        0 <= i <= j,
        j + 2 <= s.len(),
        s.subrange(i, j) == hex_of(bytes),
        s.subrange(j, j + 2) == crate::hex::hex_pair(b),
    ensures
        s.subrange(i, j + 2) == hex_of(bytes.push(b)),
{
    crate::hex::lemma_hex_of_snoc(bytes, b);
    assert(s.subrange(i, j + 2) =~= s.subrange(i, j) + s.subrange(j, j + 2));
}

// ---------------------------------------------------------------------------
// Whitespace normalisation
// ---------------------------------------------------------------------------
/// The string with JSON whitespace outside quoted strings removed; spacing
/// inside a quoted string is payload and stays.
pub open spec fn strip_from(s: Seq<char>, in_string: bool) -> Seq<char>
    decreases s.len(),
{
    if s.len() == 0 {
        Seq::empty()
    } else {
        let next_in = if s[0] == '"' {
            !in_string
        } else {
            in_string
        };
        if !in_string && s[0] != '"' && is_space(s[0]) {
            strip_from(s.skip(1), next_in)
        } else {
            seq![s[0]] + strip_from(s.skip(1), next_in)
        }
    }
}

/// A line normalised for parsing: whitespace between tokens removed.
pub open spec fn strip_json_ws(s: Seq<char>) -> Seq<char> {
    strip_from(s, false)
}

/// Removes the whitespace between tokens, keeping every quoted character.
pub fn strip_json_ws_line(s: &str) -> (r: String)
    ensures
        r@ == strip_json_ws(s@),
{
    let n = s.unicode_len();
    let mut out = String::new();
    let mut in_string = false;
    let mut i: usize = 0;
    proof {
        assert(s@.skip(0) =~= s@);
        assert(Seq::<char>::empty() + strip_from(s@, false) =~= strip_from(s@, false));
    }
    while i < n
        invariant
            n == s@.len(),
            i <= n,
            strip_json_ws(s@) == out@ + strip_from(s@.skip(i as int), in_string),
        decreases n - i,
    {
        let c = s.get_char(i);
        proof {
            assert(s@.skip(i as int)[0] == s@[i as int]);
            assert(s@.skip(i as int).skip(1) =~= s@.skip(i + 1));
        }
        let next_in = if c == '"' {
            !in_string
        } else {
            in_string
        };
        if !in_string && c != '"' && (c == ' ' || c == '\t' || c == '\r' || c == '\n') {
        } else {
            let ghost before = out@;
            push_char(&mut out, c);
            proof {
                assert(before + (seq![c] + strip_from(s@.skip(i + 1), next_in)) =~= before.push(c)
                    + strip_from(s@.skip(i + 1), next_in));
            }
        }
        in_string = next_in;
        i = i + 1;
    }
    proof {
        assert(s@.skip(n as int).len() == 0);
        assert(out@ + strip_from(s@.skip(n as int), in_string) =~= out@);
    }
    out
}

// ---------------------------------------------------------------------------
// Completeness machinery: a canonical line determines the request shape, so
// every refusal can point at the exact position no request renders to.
// ---------------------------------------------------------------------------
/// Two maximal digit runs from the same start end at the same place.
proof fn lemma_digit_boundary(s: Seq<char>, a: int, b1: int, b2: int)
    requires
        0 <= a,
        a <= b1 <= s.len(),
        a <= b2 <= s.len(),
        forall|k: int| a <= k < b1 ==> is_dec_digit(#[trigger] s[k]),
        b1 == s.len() || !is_dec_digit(s[b1]),
        forall|k: int| a <= k < b2 ==> is_dec_digit(#[trigger] s[k]),
        b2 == s.len() || !is_dec_digit(s[b2]),
    ensures
        b1 == b2,
{
    if b1 < b2 {
        assert(is_dec_digit(s[b1]));
    } else if b2 < b1 {
        assert(is_dec_digit(s[b2]));
    }
}

/// How a rendered line opens: the id segment, its maximal digit run, and
/// the method segment right after.
proof fn lemma_prologue(s: Seq<char>, m: Request)
    requires
        s == render_request(m),
    ensures
        ({
            let b = 6 + dec_str(req_id(m) as nat).len();
            &&& lit_id().len() == 6
            &&& b + method_lit(m).len() <= s.len()
            &&& s.subrange(0, 6) == lit_id()
            &&& s.subrange(6, b as int) == dec_str(req_id(m) as nat)
            &&& (forall|k: int| 6 <= k < b ==> is_dec_digit(#[trigger] s[k]))
            &&& b < s.len()
            &&& !is_dec_digit(s[b as int])
            &&& s.subrange(b as int, (b + method_lit(m).len()) as int) == method_lit(m)
        }),
{
    reveal_strlit("{\"id\":");
    reveal_strlit(",\"method\":\"mining.configure\",\"params\":[[\"version-rolling\"],{\"version-rolling.mask\":\"");
    reveal_strlit(",\"method\":\"mining.subscribe\",\"params\":[\"");
    reveal_strlit(",\"method\":\"mining.authorize\",\"params\":[\"");
    reveal_strlit(",\"method\":\"mining.submit\",\"params\":[\"");
    reveal_strlit(",\"method\":\"mining.extranonce.subscribe\",\"params\":[]}");
    let d = dec_str(req_id(m) as nat);
    let b = 6 + d.len();
    lemma_dec_str_shape(req_id(m) as nat);
    let ml = method_lit(m);
    match m {
        Request::Configure { id, mask, min_bits } => {
            assert(s.subrange(0, 6) =~= lit_id());
            assert(s.subrange(6, b as int) =~= d);
            assert(s.subrange(b as int, (b + ml.len()) as int) =~= ml);
        },
        Request::Subscribe { id, agent } => {
            assert(s.subrange(0, 6) =~= lit_id());
            assert(s.subrange(6, b as int) =~= d);
            assert(s.subrange(b as int, (b + ml.len()) as int) =~= ml);
        },
        Request::Authorize { id, user, password } => {
            assert(s.subrange(0, 6) =~= lit_id());
            assert(s.subrange(6, b as int) =~= d);
            assert(s.subrange(b as int, (b + ml.len()) as int) =~= ml);
        },
        Request::Submit { id, worker, job_id, extranonce2, ntime, nonce, version_bits } => {
            assert(s.subrange(0, 6) =~= lit_id());
            assert(s.subrange(6, b as int) =~= d);
            assert(s.subrange(b as int, (b + ml.len()) as int) =~= ml);
        },
        Request::ExtranonceSubscribe { id } => {
            assert(s.subrange(0, 6) =~= lit_id());
            assert(s.subrange(6, b as int) =~= d);
            assert(s.subrange(b as int, (b + ml.len()) as int) =~= ml);
        },
    }
    assert forall|k: int| 6 <= k < b implies is_dec_digit(#[trigger] s[k]) by {
        assert(s.subrange(6, b as int)[k - 6] == s[k]);
    }
    assert(ml[0] == ',');
    assert(s.subrange(b as int, (b + ml.len()) as int)[0] == s[b as int]);
}

/// What the parser established up to the method position: the id segment,
/// some maximal digit run ending at `j2`.
pub open spec fn prologue_facts(s: Seq<char>, j2: int, idp: u64) -> bool {
    &&& 6 <= j2 <= s.len()
    &&& s.subrange(0, 6) == lit_id()
    &&& s.subrange(6, j2) == dec_str(idp as nat)
    &&& (j2 == s.len() || !is_dec_digit(s[j2]))
}

/// With the parser's prologue in hand, a matched method segment pins the
/// request's kind and the id boundary.
proof fn lemma_pin(s: Seq<char>, j2: int, idp: u64, m: Request, ml: Seq<char>)
    requires
        s == render_request(m),
        prologue_facts(s, j2, idp),
        j2 + ml.len() <= s.len(),
        s.subrange(j2, j2 + ml.len()) == ml,
        ml == lit_cfg() || ml == lit_sub() || ml == lit_auth() || ml == lit_submit() || ml
            == lit_extr(),
    ensures
        method_lit(m) == ml,
        j2 == 6 + dec_str(req_id(m) as nat).len(),
        req_id(m) == idp,
        ml == lit_cfg() ==> m is Configure,
        ml == lit_sub() ==> m is Subscribe,
        ml == lit_auth() ==> m is Authorize,
        ml == lit_submit() ==> m is Submit,
        ml == lit_extr() ==> m is ExtranonceSubscribe,
{
    reveal_strlit(",\"method\":\"mining.configure\",\"params\":[[\"version-rolling\"],{\"version-rolling.mask\":\"");
    reveal_strlit(",\"method\":\"mining.subscribe\",\"params\":[\"");
    reveal_strlit(",\"method\":\"mining.authorize\",\"params\":[\"");
    reveal_strlit(",\"method\":\"mining.submit\",\"params\":[\"");
    reveal_strlit(",\"method\":\"mining.extranonce.subscribe\",\"params\":[]}");
    lemma_prologue(s, m);
    let b = 6 + dec_str(req_id(m) as nat).len();
    lemma_dec_str_shape(idp as nat);
    assert forall|k: int| 6 <= k < j2 implies is_dec_digit(#[trigger] s[k]) by {
        assert(s.subrange(6, j2)[k - 6] == s[k]);
        assert(dec_str(idp as nat)[k - 6] == s[k]);
    }
    lemma_digit_boundary(s, 6, j2, b as int);
    // The same position carries both the parsed segment and the request's
    // method segment; the distinguishing characters decide the kind.
    let rl = method_lit(m);
    assert forall|k: int| 0 <= k < ml.len() && k < rl.len() implies s[j2 + k] == ml[k] && s[j2 + k]
        == rl[k] by {
        assert(s.subrange(j2, j2 + ml.len())[k] == s[j2 + k]);
        assert(s.subrange(b as int, (b + rl.len()) as int)[k] == s[(b + k) as int]);
    }
    if ml != rl {
        assert(ml[18] == rl[18] && ml[21] == rl[21]);
        assert(false);
    }
    // The distinguishing characters of the five method segments.
    assert(lit_cfg()[18] == 'c' && lit_sub()[18] == 's' && lit_auth()[18] == 'a' && lit_submit()[18]
        == 's' && lit_extr()[18] == 'e');
    assert(lit_sub()[21] == 's' && lit_submit()[21] == 'm');
    // Equal renderings at the same position carry equal ids.
    lemma_dec_str_val(idp as nat);
    lemma_dec_str_val(req_id(m) as nat);
    assert(s.subrange(6, j2) == dec_str(req_id(m) as nat));
}

/// Two maximal plain runs from the same start end at the same place.
proof fn lemma_plain_boundary(s: Seq<char>, a: int, b1: int, b2: int)
    requires
        0 <= a,
        a <= b1 <= s.len(),
        a <= b2 <= s.len(),
        forall|k: int| a <= k < b1 ==> #[trigger] s[k] != '"' && s[k] != '\\',
        b1 == s.len() || s[b1] == '"' || s[b1] == '\\',
        forall|k: int| a <= k < b2 ==> #[trigger] s[k] != '"' && s[k] != '\\',
        b2 == s.len() || s[b2] == '"' || s[b2] == '\\',
    ensures
        b1 == b2,
{
    if b1 < b2 {
        assert(s[b1] != '"' && s[b1] != '\\');
    } else if b2 < b1 {
        assert(s[b2] != '"' && s[b2] != '\\');
    }
}

/// Two maximal hex-pair runs from the same start end at the same place.
proof fn lemma_hexrun_boundary(s: Seq<char>, a: int, b1: int, b2: int)
    requires
        0 <= a,
        a <= b1 <= s.len(),
        a <= b2 <= s.len(),
        (b1 - a) % 2 == 0,
        (b2 - a) % 2 == 0,
        forall|k: int| a <= k < b1 ==> hex_value(#[trigger] s[k]) is Some,
        s.len() - b1 < 2 || hex_value(s[b1]) is None || hex_value(s[b1 + 1]) is None,
        forall|k: int| a <= k < b2 ==> hex_value(#[trigger] s[k]) is Some,
        b2 == s.len() || hex_value(s[b2]) is None,
    ensures
        b1 == b2,
{
    if b1 < b2 {
        assert(b2 - b1 >= 2);
        assert(hex_value(s[b1]) is Some);
        assert(hex_value(s[b1 + 1]) is Some);
    } else if b2 < b1 {
        assert(hex_value(s[b2]) is Some);
    }
}

/// The tail layout of a configure line, from the method position on.
proof fn lemma_layout_configure(s: Seq<char>, m: Request)
    requires
        s == render_request(m),
        m is Configure,
    ensures
        ({
            match m {
                Request::Configure { id, mask, min_bits } => {
                    let j3 = 6 + dec_str(id as nat).len() + lit_cfg().len();
                    let j4 = j3 + 8;
                    let j5 = j4 + lit_minbits().len();
                    let j6 = j5 + dec_str(min_bits as nat).len();
                    &&& j6 + lit_obj_end().len() == s.len()
                    &&& hex32_at(s, j3 as int, mask)
                    &&& s.subrange(j4 as int, j5 as int) == lit_minbits()
                    &&& s.subrange(j5 as int, j6 as int) == dec_str(min_bits as nat)
                    &&& (forall|k: int| j5 <= k < j6 ==> is_dec_digit(#[trigger] s[k]))
                    &&& j6 < s.len()
                    &&& !is_dec_digit(s[j6 as int])
                    &&& s.subrange(j6 as int, s.len() as int) == lit_obj_end()
                },
                _ => true,
            }
        }),
{
    reveal_strlit("{\"id\":");
    reveal_strlit("}]}");
    match m {
        Request::Configure { id, mask, min_bits } => {
            let bytes = seq![
                (mask >> 24) as u8,
                ((mask >> 16) & 0xff) as u8,
                ((mask >> 8) & 0xff) as u8,
                (mask & 0xff) as u8,
            ];
            crate::hex::lemma_hex_of_len(bytes);
            lemma_dec_str_shape(min_bits as nat);
            let j3 = 6 + dec_str(id as nat).len() + lit_cfg().len();
            let j4 = j3 + 8;
            let j5 = j4 + lit_minbits().len();
            let j6 = j5 + dec_str(min_bits as nat).len();
            assert(s.subrange(j3 as int, j4 as int) =~= hex_of_u32(mask));
            assert(s.subrange(j4 as int, j5 as int) =~= lit_minbits());
            assert(s.subrange(j5 as int, j6 as int) =~= dec_str(min_bits as nat));
            assert(s.subrange(j6 as int, s.len() as int) =~= lit_obj_end());
            assert forall|k: int| j5 <= k < j6 implies is_dec_digit(#[trigger] s[k]) by {
                assert(s.subrange(j5 as int, j6 as int)[k - j5] == s[k]);
            }
            assert(s.subrange(j6 as int, s.len() as int)[0] == s[j6 as int]);
            assert(lit_obj_end()[0] == '}');
        },
        _ => {},
    }
}

/// The tail layout of a subscribe line.
proof fn lemma_layout_subscribe(s: Seq<char>, m: Request)
    requires
        s == render_request(m),
        wf_request(m),
        m is Subscribe,
    ensures
        ({
            match m {
                Request::Subscribe { id, agent } => {
                    let j3 = 6 + dec_str(id as nat).len() + lit_sub().len();
                    let j4 = j3 + agent@.len();
                    &&& j4 + lit_arr_end().len() == s.len()
                    &&& s.subrange(j3 as int, j4 as int) == agent@
                    &&& (forall|k: int| j3 <= k < j4 ==> #[trigger] s[k] != '"' && s[k] != '\\')
                    &&& j4 < s.len()
                    &&& s[j4 as int] == '"'
                    &&& s.subrange(j4 as int, s.len() as int) == lit_arr_end()
                },
                _ => true,
            }
        }),
{
    reveal_strlit("{\"id\":");
    reveal_strlit("\"]}");
    match m {
        Request::Subscribe { id, agent } => {
            let j3 = 6 + dec_str(id as nat).len() + lit_sub().len();
            let j4 = j3 + agent@.len();
            assert(s.subrange(j3 as int, j4 as int) =~= agent@);
            assert(s.subrange(j4 as int, s.len() as int) =~= lit_arr_end());
            assert forall|k: int| j3 <= k < j4 implies #[trigger] s[k] != '"' && s[k] != '\\' by {
                assert(s.subrange(j3 as int, j4 as int)[k - j3] == s[k]);
                assert(agent@[k - j3] == s[k]);
            }
            assert(s.subrange(j4 as int, s.len() as int)[0] == s[j4 as int]);
            assert(lit_arr_end()[0] == '"');
        },
        _ => {},
    }
}

/// The tail layout of an authorize line.
proof fn lemma_layout_authorize(s: Seq<char>, m: Request)
    requires
        s == render_request(m),
        wf_request(m),
        m is Authorize,
    ensures
        ({
            match m {
                Request::Authorize { id, user, password } => {
                    let j3 = 6 + dec_str(id as nat).len() + lit_auth().len();
                    let j4 = j3 + user@.len();
                    let j5 = j4 + lit_sep().len();
                    let j6 = j5 + password@.len();
                    &&& j6 + lit_arr_end().len() == s.len()
                    &&& s.subrange(j3 as int, j4 as int) == user@
                    &&& (forall|k: int| j3 <= k < j4 ==> #[trigger] s[k] != '"' && s[k] != '\\')
                    &&& j4 + lit_sep().len() <= s.len()
                    &&& s[j4 as int] == '"'
                    &&& s.subrange(j4 as int, j5 as int) == lit_sep()
                    &&& s.subrange(j5 as int, j6 as int) == password@
                    &&& (forall|k: int| j5 <= k < j6 ==> #[trigger] s[k] != '"' && s[k] != '\\')
                    &&& j6 < s.len()
                    &&& s[j6 as int] == '"'
                    &&& s.subrange(j6 as int, s.len() as int) == lit_arr_end()
                },
                _ => true,
            }
        }),
{
    reveal_strlit("{\"id\":");
    reveal_strlit("\",\"");
    reveal_strlit("\"]}");
    match m {
        Request::Authorize { id, user, password } => {
            let j3 = 6 + dec_str(id as nat).len() + lit_auth().len();
            let j4 = j3 + user@.len();
            let j5 = j4 + lit_sep().len();
            let j6 = j5 + password@.len();
            assert(s.subrange(j3 as int, j4 as int) =~= user@);
            assert(s.subrange(j4 as int, j5 as int) =~= lit_sep());
            assert(s.subrange(j5 as int, j6 as int) =~= password@);
            assert(s.subrange(j6 as int, s.len() as int) =~= lit_arr_end());
            assert forall|k: int| j3 <= k < j4 implies #[trigger] s[k] != '"' && s[k] != '\\' by {
                assert(user@[k - j3] == s[k]);
            }
            assert forall|k: int| j5 <= k < j6 implies #[trigger] s[k] != '"' && s[k] != '\\' by {
                assert(password@[k - j5] == s[k]);
            }
            assert(s.subrange(j4 as int, j5 as int)[0] == s[j4 as int]);
            assert(lit_sep()[0] == '"');
            assert(s.subrange(j6 as int, s.len() as int)[0] == s[j6 as int]);
            assert(lit_arr_end()[0] == '"');
        },
        _ => {},
    }
}

/// The tail layout of a submit line.
proof fn lemma_layout_submit(s: Seq<char>, m: Request)
    requires
        s == render_request(m),
        wf_request(m),
        m is Submit,
    ensures
        ({
            match m {
                Request::Submit { id, worker, job_id, extranonce2, ntime, nonce, version_bits } => {
                    let j3 = 6 + dec_str(id as nat).len() + lit_submit().len();
                    let j4 = j3 + worker@.len();
                    let j5 = j4 + lit_sep().len();
                    let j6 = j5 + 8;
                    let j7 = j6 + lit_sep().len();
                    let j8 = j7 + 2 * extranonce2@.len();
                    let j9 = j8 + lit_sep().len();
                    let j10 = j9 + 8;
                    let j11 = j10 + lit_sep().len();
                    let j12 = j11 + 8;
                    &&& s.subrange(j3 as int, j4 as int) == worker@
                    &&& (forall|k: int| j3 <= k < j4 ==> #[trigger] s[k] != '"' && s[k] != '\\')
                    &&& j4 + lit_sep().len() <= s.len()
                    &&& s[j4 as int] == '"'
                    &&& s.subrange(j4 as int, j5 as int) == lit_sep()
                    &&& hex32_at(s, j5 as int, job_id)
                    &&& s.subrange(j6 as int, j7 as int) == lit_sep()
                    &&& s.subrange(j7 as int, j8 as int) == hex_of(extranonce2@)
                    &&& (forall|k: int| j7 <= k < j8 ==> hex_value(#[trigger] s[k]) is Some)
                    &&& j8 < s.len()
                    &&& hex_value(s[j8 as int]) is None
                    &&& s.subrange(j8 as int, j9 as int) == lit_sep()
                    &&& hex32_at(s, j9 as int, ntime)
                    &&& s.subrange(j10 as int, j11 as int) == lit_sep()
                    &&& hex32_at(s, j11 as int, nonce)
                    &&& (match version_bits {
                        Some(vb) => {
                            let j13 = j12 + lit_sep().len();
                            let j14 = j13 + 8;
                            &&& j12 + lit_sep().len() <= s.len()
                            &&& s.subrange(j12 as int, j13 as int) == lit_sep()
                            &&& hex32_at(s, j13 as int, vb)
                            &&& j14 + lit_arr_end().len() == s.len()
                            &&& s.subrange(j14 as int, s.len() as int) == lit_arr_end()
                        },
                        None => {
                            &&& j12 + lit_arr_end().len() == s.len()
                            &&& s.subrange(j12 as int, s.len() as int) == lit_arr_end()
                        },
                    })
                },
                _ => true,
            }
        }),
{
    reveal_strlit("{\"id\":");
    reveal_strlit("\",\"");
    reveal_strlit("\"]}");
    match m {
        Request::Submit { id, worker, job_id, extranonce2, ntime, nonce, version_bits } => {
            let jb = seq![
                (job_id >> 24) as u8,
                ((job_id >> 16) & 0xff) as u8,
                ((job_id >> 8) & 0xff) as u8,
                (job_id & 0xff) as u8,
            ];
            let tb = seq![
                (ntime >> 24) as u8,
                ((ntime >> 16) & 0xff) as u8,
                ((ntime >> 8) & 0xff) as u8,
                (ntime & 0xff) as u8,
            ];
            let nb = seq![
                (nonce >> 24) as u8,
                ((nonce >> 16) & 0xff) as u8,
                ((nonce >> 8) & 0xff) as u8,
                (nonce & 0xff) as u8,
            ];
            crate::hex::lemma_hex_of_len(jb);
            crate::hex::lemma_hex_of_len(tb);
            crate::hex::lemma_hex_of_len(nb);
            crate::hex::lemma_hex_of_len(extranonce2@);
            let j3 = 6 + dec_str(id as nat).len() + lit_submit().len();
            let j4 = j3 + worker@.len();
            let j5 = j4 + lit_sep().len();
            let j6 = j5 + 8;
            let j7 = j6 + lit_sep().len();
            let j8 = j7 + 2 * extranonce2@.len();
            let j9 = j8 + lit_sep().len();
            let j10 = j9 + 8;
            let j11 = j10 + lit_sep().len();
            let j12 = j11 + 8;
            assert(s.subrange(j3 as int, j4 as int) =~= worker@);
            assert(s.subrange(j4 as int, j5 as int) =~= lit_sep());
            assert(s.subrange(j5 as int, j6 as int) =~= hex_of_u32(job_id));
            assert(s.subrange(j6 as int, j7 as int) =~= lit_sep());
            assert(s.subrange(j7 as int, j8 as int) =~= hex_of(extranonce2@));
            assert(s.subrange(j8 as int, j9 as int) =~= lit_sep());
            assert(s.subrange(j9 as int, j10 as int) =~= hex_of_u32(ntime));
            assert(s.subrange(j10 as int, j11 as int) =~= lit_sep());
            assert(s.subrange(j11 as int, j12 as int) =~= hex_of_u32(nonce));
            assert forall|k: int| j3 <= k < j4 implies #[trigger] s[k] != '"' && s[k] != '\\' by {
                assert(worker@[k - j3] == s[k]);
            }
            assert forall|k: int| j7 <= k < j8 implies hex_value(#[trigger] s[k]) is Some by {
                assert(hex_of(extranonce2@)[k - j7] == s[k]);
                crate::hex::lemma_hex_of_digits_pub(extranonce2@, k - j7);
            }
            assert(s.subrange(j4 as int, j5 as int)[0] == s[j4 as int]);
            assert(lit_sep()[0] == '"');
            assert(s.subrange(j8 as int, j9 as int)[0] == s[j8 as int]);
            match version_bits {
                Some(vb) => {
                    let vb4 = seq![
                        (vb >> 24) as u8,
                        ((vb >> 16) & 0xff) as u8,
                        ((vb >> 8) & 0xff) as u8,
                        (vb & 0xff) as u8,
                    ];
                    crate::hex::lemma_hex_of_len(vb4);
                    let j13 = j12 + lit_sep().len();
                    let j14 = j13 + 8;
                    assert(s.subrange(j12 as int, j13 as int) =~= lit_sep());
                    assert(s.subrange(j13 as int, j14 as int) =~= hex_of_u32(vb));
                    assert(s.subrange(j14 as int, s.len() as int) =~= lit_arr_end());
                },
                None => {
                    assert(s.subrange(j12 as int, s.len() as int) =~= lit_arr_end());
                },
            }
        },
        _ => {},
    }
}

/// The tail layout of an extranonce-subscribe line: the method segment ends
/// it.
proof fn lemma_layout_extranonce(s: Seq<char>, m: Request)
    requires
        s == render_request(m),
        m is ExtranonceSubscribe,
    ensures
        ({
            match m {
                Request::ExtranonceSubscribe { id } => 6 + dec_str(id as nat).len()
                    + lit_extr().len() == s.len(),
                _ => true,
            }
        }),
{
    reveal_strlit("{\"id\":");
}

// ---------------------------------------------------------------------------
// The request codec
// ---------------------------------------------------------------------------
/// Extends a proven prefix decomposition one segment to the right.
proof fn lemma_chain(s: Seq<char>, a: int, b: int, c: int)
    requires
        0 <= a <= b <= c <= s.len(),
    ensures
        s.subrange(a, c) == s.subrange(a, b) + s.subrange(b, c),
{
    assert(s.subrange(a, c) =~= s.subrange(a, b) + s.subrange(b, c));
}

/// No well-formed request renders to `s`.
pub open spec fn no_request_renders(s: Seq<char>) -> bool {
    forall|m: Request| wf_request(m) ==> s != #[trigger] render_request(m)
}

/// Parses one canonical request line. When it accepts, the line is exactly
/// the canonical rendering of the returned request: parsing then
/// serialising gives back the very characters that were read. When it
/// refuses, no well-formed request renders to the line: every canonical
/// line is accepted.
pub fn parse_request(s: &str) -> (r: Result<Request, ParseError>)
    ensures
        match r {
            Ok(m) => s@ == render_request(m) && wf_request(m),
            Err(_) => no_request_renders(s@),
        },
{
    let n = s.unicode_len();
    let j1 = match eat_lit(s, 0, "{\"id\":") {
        Some(j) => j,
        None => {
            proof {
                assert forall|mm: Request| wf_request(mm) implies s@ != render_request(mm) by {
                    if s@ == render_request(mm) {
                        lemma_prologue(s@, mm);
                    }
                }
            }
            return Err(ParseError::Malformed);
        },
    };
    let (id, j2) = match parse_u64_at(s, j1) {
        Some(p) => p,
        None => {
            proof {
                assert forall|mm: Request| wf_request(mm) implies s@ != render_request(mm) by {
                    if s@ == render_request(mm) {
                        lemma_prologue(s@, mm);
                        assert(dec_at(s@, 6, req_id(mm)));
                    }
                }
            }
            return Err(ParseError::Malformed);
        },
    };
    proof {
        reveal_strlit("{\"id\":");
        lemma_chain(s@, 0, j1 as int, j2 as int);
        assert(prologue_facts(s@, j2 as int, id));
    }
    if let Some(j3) = eat_lit(
        s,
        j2,
        ",\"method\":\"mining.configure\",\"params\":[[\"version-rolling\"],{\"version-rolling.mask\":\"",
    ) {
        return parse_configure_tail(s, id, j2, j3);
    }
    if let Some(j3) = eat_lit(s, j2, ",\"method\":\"mining.subscribe\",\"params\":[\"") {
        return parse_subscribe_tail(s, id, j2, j3);
    }
    if let Some(j3) = eat_lit(s, j2, ",\"method\":\"mining.authorize\",\"params\":[\"") {
        return parse_authorize_tail(s, id, j2, j3);
    }
    if let Some(j3) = eat_lit(s, j2, ",\"method\":\"mining.submit\",\"params\":[\"") {
        return parse_submit_tail(s, id, j2, j3);
    }
    // mining.extranonce.subscribe
    if let Some(j3) = eat_lit(s, j2, ",\"method\":\"mining.extranonce.subscribe\",\"params\":[]}") {
        if j3 != n {
            proof {
                refute_extranonce(s@, id, j2 as int, j3 as int);
            }
            return Err(ParseError::Malformed);
        }
        proof {
            lemma_chain(s@, 0, j2 as int, j3 as int);
            assert(s@.subrange(0, n as int) =~= s@);
        }
        let m = Request::ExtranonceSubscribe { id };
        proof {
            assert(s@ == render_request(m));
        }
        return Ok(m);
    }
    proof {
        assert forall|mm: Request| wf_request(mm) implies s@ != render_request(mm) by {
            if s@ == render_request(mm) {
                lemma_prologue(s@, mm);
                lemma_dec_str_shape(id as nat);
                assert forall|k: int| 6 <= k < j2 implies is_dec_digit(#[trigger] s@[k]) by {
                    assert(s@.subrange(6, j2 as int)[k - 6] == s@[k]);
                }
                let b = 6 + dec_str(req_id(mm) as nat).len();
                lemma_digit_boundary(s@, 6, j2 as int, b as int);
                match mm {
                    Request::Configure { .. } => {},
                    Request::Subscribe { .. } => {},
                    Request::Authorize { .. } => {},
                    Request::Submit { .. } => {},
                    Request::ExtranonceSubscribe { .. } => {},
                }
            }
        }
    }
    Err(ParseError::Malformed)
}

/// The extranonce line ends with its method segment: a longer line is no
/// request.
proof fn refute_extranonce(s: Seq<char>, id: u64, j2: int, j3: int)
    requires
        prologue_facts(s, j2, id),
        j3 == j2 + lit_extr().len(),
        j3 <= s.len(),
        s.subrange(j2, j3) == lit_extr(),
        j3 != s.len(),
    ensures
        no_request_renders(s),
{
    assert forall|mm: Request| wf_request(mm) implies s != render_request(mm) by {
        if s == render_request(mm) {
            lemma_pin(s, j2, id, mm, lit_extr());
            lemma_layout_extranonce(s, mm);
        }
    }
}

/// The configure branch after its method segment matched.
#[verifier::rlimit(100)]
fn parse_configure_tail(s: &str, id: u64, j2: usize, j3: usize) -> (r: Result<Request, ParseError>)
    requires
        prologue_facts(s@, j2 as int, id),
        j3 == j2 + lit_cfg().len(),
        j3 <= s@.len(),
        s@.subrange(j2 as int, j3 as int) == lit_cfg(),
    ensures
        match r {
            Ok(m) => s@ == render_request(m) && wf_request(m),
            Err(_) => no_request_renders(s@),
        },
{
    let n = s.unicode_len();
    let (mask, j4) = match parse_hex_u32_at(s, j3) {
        Some(p) => p,
        None => {
            proof {
                assert forall|mm: Request| wf_request(mm) implies s@ != render_request(mm) by {
                    if s@ == render_request(mm) {
                        lemma_pin(s@, j2 as int, id, mm, lit_cfg());
                        lemma_layout_configure(s@, mm);
                    }
                }
            }
            return Err(ParseError::Malformed);
        },
    };
    let j5 = match eat_lit(s, j4, "\",\"version-rolling.min-bit-count\":") {
        Some(j) => j,
        None => {
            proof {
                assert forall|mm: Request| wf_request(mm) implies s@ != render_request(mm) by {
                    if s@ == render_request(mm) {
                        lemma_pin(s@, j2 as int, id, mm, lit_cfg());
                        lemma_layout_configure(s@, mm);
                    }
                }
            }
            return Err(ParseError::Malformed);
        },
    };
    let (min_bits, j6) = match parse_u64_at(s, j5) {
        Some(p) => p,
        None => {
            proof {
                assert forall|mm: Request| wf_request(mm) implies s@ != render_request(mm) by {
                    if s@ == render_request(mm) {
                        lemma_pin(s@, j2 as int, id, mm, lit_cfg());
                        lemma_layout_configure(s@, mm);
                        match mm {
                            Request::Configure { min_bits: mb, .. } => {
                                assert(dec_at(s@, j5 as int, mb));
                            },
                            _ => {},
                        }
                    }
                }
            }
            return Err(ParseError::Malformed);
        },
    };
    let j7 = match eat_lit(s, j6, "}]}") {
        Some(j) => j,
        None => {
            proof {
                refute_configure_end(s@, id, j2 as int, j5 as int, min_bits, j6 as int);
            }
            return Err(ParseError::Malformed);
        },
    };
    if j7 != n {
        proof {
            refute_configure_end(s@, id, j2 as int, j5 as int, min_bits, j6 as int);
        }
        return Err(ParseError::Malformed);
    }
    let m = Request::Configure { id, mask, min_bits };
    proof {
        lemma_chain(s@, 0, j2 as int, j3 as int);
        lemma_chain(s@, 0, j3 as int, j4 as int);
        lemma_chain(s@, 0, j4 as int, j5 as int);
        lemma_chain(s@, 0, j5 as int, j6 as int);
        lemma_chain(s@, 0, j6 as int, j7 as int);
        assert(s@.subrange(0, n as int) =~= s@);
        assert(s@ == render_request(m));
    }
    Ok(m)
}

/// After a parsed minimum-bit-count, only the closing segment can follow,
/// and it ends the line.
#[verifier::rlimit(100)]
#[verifier::spinoff_prover]
proof fn refute_configure_end(s: Seq<char>, id: u64, j2: int, j5: int, min_bits: u64, j6: int)
    requires
        prologue_facts(s, j2, id),
        j2 + lit_cfg().len() + 8 + lit_minbits().len() == j5,
        s.subrange(j2, j2 + lit_cfg().len()) == lit_cfg(),
        j5 <= j6 <= s.len(),
        s.subrange(j5, j6) == dec_str(min_bits as nat),
        j6 == s.len() || !is_dec_digit(s[j6]),
        s.len() < j6 + lit_obj_end().len() || s.subrange(j6, j6 + lit_obj_end().len())
            != lit_obj_end() || j6 + lit_obj_end().len() != s.len(),
    ensures
        no_request_renders(s),
{
    assert forall|mm: Request| wf_request(mm) implies s != render_request(mm) by {
        if s == render_request(mm) {
            lemma_pin(s, j2, id, mm, lit_cfg());
            lemma_layout_configure(s, mm);
            match mm {
                Request::Configure { min_bits: mb, .. } => {
                    let jj5 = j2 + lit_cfg().len() + 8 + lit_minbits().len();
                    let jj6 = jj5 + dec_str(mb as nat).len();
                    lemma_dec_str_shape(mb as nat);
                    lemma_dec_str_shape(min_bits as nat);
                    assert forall|k: int| j5 <= k < j6 implies is_dec_digit(#[trigger] s[k]) by {
                        assert(s.subrange(j5, j6)[k - j5] == s[k]);
                    }
                    assert forall|k: int| j5 <= k < jj6 implies is_dec_digit(#[trigger] s[k]) by {
                        assert(s.subrange(jj5 as int, jj6 as int)[k - j5] == s[k]);
                    }
                    lemma_digit_boundary(s, j5, j6, jj6 as int);
                },
                _ => {},
            }
        }
    }
}

/// The subscribe branch after its method segment matched.
#[verifier::rlimit(100)]
fn parse_subscribe_tail(s: &str, id: u64, j2: usize, j3: usize) -> (r: Result<Request, ParseError>)
    requires
        prologue_facts(s@, j2 as int, id),
        j3 == j2 + lit_sub().len(),
        j3 <= s@.len(),
        s@.subrange(j2 as int, j3 as int) == lit_sub(),
    ensures
        match r {
            Ok(m) => s@ == render_request(m) && wf_request(m),
            Err(_) => no_request_renders(s@),
        },
{
    let n = s.unicode_len();
    let (agent, j4) = parse_plain_at(s, j3);
    proof {
        assert forall|k: int| j3 <= k < j4 implies #[trigger] s@[k] != '"' && s@[k]
            != '\\' by {
            assert(s@.subrange(j3 as int, j4 as int)[k - j3] == s@[k]);
        }
    }
    let j5 = match eat_lit(s, j4, "\"]}") {
        Some(j) => j,
        None => {
            proof {
                refute_subscribe_end(s@, id, j2 as int, j3 as int, j4 as int);
            }
            return Err(ParseError::Malformed);
        },
    };
    if j5 != n {
        proof {
            refute_subscribe_end(s@, id, j2 as int, j3 as int, j4 as int);
        }
        return Err(ParseError::Malformed);
    }
    proof {
        lemma_chain(s@, 0, j2 as int, j3 as int);
        lemma_chain(s@, 0, j3 as int, j4 as int);
        lemma_chain(s@, 0, j4 as int, j5 as int);
        assert(s@.subrange(0, n as int) =~= s@);
    }
    let m = Request::Subscribe { id, agent };
    proof {
        assert(s@ == render_request(m));
    }
    Ok(m)
}

/// After the agent's maximal plain run, only the closing segment can
/// follow, and it ends the line.
#[verifier::rlimit(100)]
#[verifier::spinoff_prover]
proof fn refute_subscribe_end(s: Seq<char>, id: u64, j2: int, j3: int, j4: int)
    requires
        prologue_facts(s, j2, id),
        j3 == j2 + lit_sub().len(),
        s.subrange(j2, j3) == lit_sub(),
        j3 <= j4 <= s.len(),
        forall|k: int| j3 <= k < j4 ==> #[trigger] s[k] != '"' && s[k] != '\\',
        j4 == s.len() || s[j4] == '"' || s[j4] == '\\',
        s.len() < j4 + lit_arr_end().len() || s.subrange(j4, j4 + lit_arr_end().len())
            != lit_arr_end() || j4 + lit_arr_end().len() != s.len(),
    ensures
        no_request_renders(s),
{
    assert forall|mm: Request| wf_request(mm) implies s != render_request(mm) by {
        refute_subscribe_end_one(s, id, j2, j3, j4, mm);
    }
}

/// The contradiction behind `refute_subscribe_end`, one request at a time.
#[verifier::rlimit(100)]
#[verifier::spinoff_prover]
proof fn refute_subscribe_end_one(s: Seq<char>, id: u64, j2: int, j3: int, j4: int, mm: Request)
    requires
        prologue_facts(s, j2, id),
        j3 == j2 + lit_sub().len(),
        s.subrange(j2, j3) == lit_sub(),
        j3 <= j4 <= s.len(),
        forall|k: int| j3 <= k < j4 ==> #[trigger] s[k] != '"' && s[k] != '\\',
        j4 == s.len() || s[j4] == '"' || s[j4] == '\\',
        s.len() < j4 + lit_arr_end().len() || s.subrange(j4, j4 + lit_arr_end().len())
            != lit_arr_end() || j4 + lit_arr_end().len() != s.len(),
        wf_request(mm),
    ensures
        s != render_request(mm),
{
    if s == render_request(mm) {
        lemma_pin(s, j2, id, mm, lit_sub());
        lemma_layout_subscribe(s, mm);
        match mm {
            Request::Subscribe { agent, .. } => {
                let jj4 = j3 + agent@.len();
                lemma_plain_boundary(s, j3, j4, jj4 as int);
            },
            _ => {},
        }
    }
}

/// The authorize branch after its method segment matched.
#[verifier::rlimit(100)]
fn parse_authorize_tail(s: &str, id: u64, j2: usize, j3: usize) -> (r: Result<Request, ParseError>)
    requires
        prologue_facts(s@, j2 as int, id),
        j3 == j2 + lit_auth().len(),
        j3 <= s@.len(),
        s@.subrange(j2 as int, j3 as int) == lit_auth(),
    ensures
        match r {
            Ok(m) => s@ == render_request(m) && wf_request(m),
            Err(_) => no_request_renders(s@),
        },
{
    let n = s.unicode_len();
    let (user, j4) = parse_plain_at(s, j3);
    proof {
        assert forall|k: int| j3 <= k < j4 implies #[trigger] s@[k] != '"' && s@[k]
            != '\\' by {
            assert(s@.subrange(j3 as int, j4 as int)[k - j3] == s@[k]);
        }
    }
    let j5 = match eat_lit(s, j4, "\",\"") {
        Some(j) => j,
        None => {
            proof {
                refute_authorize_sep(s@, id, j2 as int, j3 as int, j4 as int);
            }
            return Err(ParseError::Malformed);
        },
    };
    let (password, j6) = parse_plain_at(s, j5);
    proof {
        assert forall|k: int| j5 <= k < j6 implies #[trigger] s@[k] != '"' && s@[k]
            != '\\' by {
            assert(s@.subrange(j5 as int, j6 as int)[k - j5] == s@[k]);
        }
    }
    let j7 = match eat_lit(s, j6, "\"]}") {
        Some(j) => j,
        None => {
            proof {
                refute_authorize_end(s@, id, j2 as int, j3 as int, j4 as int, j5 as int, j6 as int);
            }
            return Err(ParseError::Malformed);
        },
    };
    if j7 != n {
        proof {
            refute_authorize_end(s@, id, j2 as int, j3 as int, j4 as int, j5 as int, j6 as int);
        }
        return Err(ParseError::Malformed);
    }
    proof {
        lemma_chain(s@, 0, j2 as int, j3 as int);
        lemma_chain(s@, 0, j3 as int, j4 as int);
        lemma_chain(s@, 0, j4 as int, j5 as int);
        lemma_chain(s@, 0, j5 as int, j6 as int);
        lemma_chain(s@, 0, j6 as int, j7 as int);
        assert(s@.subrange(0, n as int) =~= s@);
    }
    let m = Request::Authorize { id, user, password };
    proof {
        assert(s@ == render_request(m));
    }
    Ok(m)
}

/// After the user's maximal plain run, the separator must follow.
#[verifier::rlimit(100)]
#[verifier::spinoff_prover]
proof fn refute_authorize_sep(s: Seq<char>, id: u64, j2: int, j3: int, j4: int)
    requires
        prologue_facts(s, j2, id),
        j3 == j2 + lit_auth().len(),
        s.subrange(j2, j3) == lit_auth(),
        j3 <= j4 <= s.len(),
        forall|k: int| j3 <= k < j4 ==> #[trigger] s[k] != '"' && s[k] != '\\',
        j4 == s.len() || s[j4] == '"' || s[j4] == '\\',
        s.len() < j4 + lit_sep().len() || s.subrange(j4, j4 + lit_sep().len()) != lit_sep(),
    ensures
        no_request_renders(s),
{
    assert forall|mm: Request| wf_request(mm) implies s != render_request(mm) by {
        if s == render_request(mm) {
            lemma_pin(s, j2, id, mm, lit_auth());
            lemma_layout_authorize(s, mm);
            match mm {
                Request::Authorize { user, .. } => {
                    let jj4 = j3 + user@.len();
                    lemma_plain_boundary(s, j3, j4, jj4 as int);
                },
                _ => {},
            }
        }
    }
}

/// After the password's maximal plain run, only the closing segment can
/// follow, and it ends the line.
#[verifier::rlimit(100)]
#[verifier::spinoff_prover]
proof fn refute_authorize_end(s: Seq<char>, id: u64, j2: int, j3: int, j4: int, j5: int, j6: int)
    requires
        prologue_facts(s, j2, id),
        j3 == j2 + lit_auth().len(),
        s.subrange(j2, j3) == lit_auth(),
        j3 <= j4 <= s.len(),
        forall|k: int| j3 <= k < j4 ==> #[trigger] s[k] != '"' && s[k] != '\\',
        j4 == s.len() || s[j4] == '"' || s[j4] == '\\',
        j5 == j4 + lit_sep().len(),
        j5 <= s.len(),
        s.subrange(j4, j5) == lit_sep(),
        j5 <= j6 <= s.len(),
        forall|k: int| j5 <= k < j6 ==> #[trigger] s[k] != '"' && s[k] != '\\',
        j6 == s.len() || s[j6] == '"' || s[j6] == '\\',
        s.len() < j6 + lit_arr_end().len() || s.subrange(j6, j6 + lit_arr_end().len())
            != lit_arr_end() || j6 + lit_arr_end().len() != s.len(),
    ensures
        no_request_renders(s),
{
    assert forall|mm: Request| wf_request(mm) implies s != render_request(mm) by {
        if s == render_request(mm) {
            lemma_pin(s, j2, id, mm, lit_auth());
            lemma_layout_authorize(s, mm);
            match mm {
                Request::Authorize { user, password, .. } => {
                    let jj4 = j3 + user@.len();
                    lemma_plain_boundary(s, j3, j4, jj4 as int);
                    let jj6 = j5 + password@.len();
                    lemma_plain_boundary(s, j5, j6, jj6 as int);
                },
                _ => {},
            }
        }
    }
}

/// What the parser knows about a submit line once the worker's plain run
/// ended at `j4`.
pub open spec fn submit_head_facts(s: Seq<char>, id: u64, j2: int, j3: int, j4: int) -> bool {
    &&& prologue_facts(s, j2, id)
    &&& j3 == j2 + lit_submit().len()
    &&& s.subrange(j2, j3) == lit_submit()
    &&& j3 <= j4 <= s.len()
    &&& (forall|k: int| j3 <= k < j4 ==> #[trigger] s[k] != '"' && s[k] != '\\')
    &&& (j4 == s.len() || s[j4] == '"' || s[j4] == '\\')
}

/// The submit branch after its method segment matched.
#[verifier::rlimit(100)]
fn parse_submit_tail(s: &str, id: u64, j2: usize, j3: usize) -> (r: Result<Request, ParseError>)
    requires
        prologue_facts(s@, j2 as int, id),
        j3 == j2 + lit_submit().len(),
        j3 <= s@.len(),
        s@.subrange(j2 as int, j3 as int) == lit_submit(),
    ensures
        match r {
            Ok(m) => s@ == render_request(m) && wf_request(m),
            Err(_) => no_request_renders(s@),
        },
{
    let (worker, j4) = parse_plain_at(s, j3);
    proof {
        assert forall|k: int| j3 <= k < j4 implies #[trigger] s@[k] != '"' && s@[k]
            != '\\' by {
            assert(s@.subrange(j3 as int, j4 as int)[k - j3] == s@[k]);
        }
    }
    let j5 = match eat_lit(s, j4, "\",\"") {
        Some(j) => j,
        None => {
            proof {
                assert forall|mm: Request| wf_request(mm) implies s@ != render_request(mm) by {
                    if s@ == render_request(mm) {
                        lemma_pin(s@, j2 as int, id, mm, lit_submit());
                        lemma_layout_submit(s@, mm);
                        match mm {
                            Request::Submit { worker: w, .. } => {
                                lemma_plain_boundary(
                                    s@,
                                    j3 as int,
                                    j4 as int,
                                    j3 + w@.len(),
                                );
                            },
                            _ => {},
                        }
                    }
                }
            }
            return Err(ParseError::Malformed);
        },
    };
    match parse_hex_u32_at(s, j5) {
        Some((job_id, j6)) => {
            parse_submit_rest(s, id, j2, j3, j4, j5, worker, job_id, j6)
        },
        None => {
            proof {
                assert forall|mm: Request| wf_request(mm) implies s@ != render_request(mm) by {
                    if s@ == render_request(mm) {
                        lemma_pin(s@, j2 as int, id, mm, lit_submit());
                        lemma_layout_submit(s@, mm);
                        match mm {
                            Request::Submit { worker: w, job_id: jid, .. } => {
                                lemma_plain_boundary(
                                    s@,
                                    j3 as int,
                                    j4 as int,
                                    j3 + w@.len(),
                                );
                                assert(hex32_at(s@, j5 as int, jid));
                            },
                            _ => {},
                        }
                    }
                }
            }
            // The job-id field is not eight hex characters. When the line
            // still has the submit shape, refuse only the job id, so the
            // session survives with a format reject.
            let (_bad_id, j6b) = parse_plain_at(s, j5);
            if eat_lit(s, j6b, "\",\"").is_some() {
                return Err(ParseError::BadSubmitJobId { id });
            }
            Err(ParseError::Malformed)
        },
    }
}

/// The submit branch after a well-formed job id ended at `j6`.
#[verifier::rlimit(100)]
fn parse_submit_rest(
    s: &str,
    id: u64,
    j2: usize,
    j3: usize,
    j4: usize,
    j5: usize,
    worker: String,
    job_id: u32,
    j6: usize,
) -> (r: Result<Request, ParseError>)
    requires
        submit_head_facts(s@, id, j2 as int, j3 as int, j4 as int),
        s@.subrange(j3 as int, j4 as int) == worker@,
        plain_str(worker@),
        j5 == j4 + lit_sep().len(),
        j5 <= s@.len(),
        s@.subrange(j4 as int, j5 as int) == lit_sep(),
        j6 == j5 + 8,
        j6 <= s@.len(),
        s@.subrange(j5 as int, j6 as int) == hex_of_u32(job_id),
    ensures
        match r {
            Ok(m) => s@ == render_request(m) && wf_request(m),
            Err(_) => no_request_renders(s@),
        },
{
    let n = s.unicode_len();
    let j7 = match eat_lit(s, j6, "\",\"") {
        Some(j) => j,
        None => {
            proof {
                refute_submit_after_job(s@, id, j2 as int, j3 as int, j4 as int);
            }
            return Err(ParseError::Malformed);
        },
    };
    let (extranonce2, j8) = parse_hex_bytes_at(s, j7);
    proof {
        crate::hex::lemma_hex_of_len(extranonce2@);
        assert forall|k: int| j7 <= k < j8 implies hex_value(#[trigger] s@[k]) is Some by {
            assert(s@.subrange(j7 as int, j8 as int)[k - j7] == s@[k]);
            crate::hex::lemma_hex_of_digits_pub(extranonce2@, k - j7);
        }
    }
    let j9 = match eat_lit(s, j8, "\",\"") {
        Some(j) => j,
        None => {
            proof {
                refute_submit_after_ex2(s@, id, j2 as int, j3 as int, j4 as int, j8 as int);
            }
            return Err(ParseError::Malformed);
        },
    };
    let (ntime, j10) = match parse_hex_u32_at(s, j9) {
        Some(p) => p,
        None => {
            proof {
                refute_submit_after_ex2(s@, id, j2 as int, j3 as int, j4 as int, j8 as int);
            }
            return Err(ParseError::Malformed);
        },
    };
    let j11 = match eat_lit(s, j10, "\",\"") {
        Some(j) => j,
        None => {
            proof {
                refute_submit_after_ex2(s@, id, j2 as int, j3 as int, j4 as int, j8 as int);
            }
            return Err(ParseError::Malformed);
        },
    };
    let (nonce, j12) = match parse_hex_u32_at(s, j11) {
        Some(p) => p,
        None => {
            proof {
                refute_submit_after_ex2(s@, id, j2 as int, j3 as int, j4 as int, j8 as int);
            }
            return Err(ParseError::Malformed);
        },
    };
    proof {
        lemma_chain(s@, 0, j2 as int, j3 as int);
        lemma_chain(s@, 0, j3 as int, j4 as int);
        lemma_chain(s@, 0, j4 as int, j5 as int);
        lemma_chain(s@, 0, j5 as int, j6 as int);
        lemma_chain(s@, 0, j6 as int, j7 as int);
        lemma_chain(s@, 0, j7 as int, j8 as int);
        lemma_chain(s@, 0, j8 as int, j9 as int);
        lemma_chain(s@, 0, j9 as int, j10 as int);
        lemma_chain(s@, 0, j10 as int, j11 as int);
        lemma_chain(s@, 0, j11 as int, j12 as int);
    }
    if let Some(j13) = eat_lit(s, j12, "\",\"") {
        let (vb, j14) = match parse_hex_u32_at(s, j13) {
            Some(p) => p,
            None => {
                proof {
                    refute_submit_tail_some(
                        s@,
                        id,
                        j2 as int,
                        j3 as int,
                        j4 as int,
                        j8 as int,
                        j12 as int,
                    );
                }
                return Err(ParseError::Malformed);
            },
        };
        let j15 = match eat_lit(s, j14, "\"]}") {
            Some(j) => j,
            None => {
                proof {
                    refute_submit_tail_some(
                        s@,
                        id,
                        j2 as int,
                        j3 as int,
                        j4 as int,
                        j8 as int,
                        j12 as int,
                    );
                }
                return Err(ParseError::Malformed);
            },
        };
        if j15 != n {
            proof {
                refute_submit_tail_some(
                    s@,
                    id,
                    j2 as int,
                    j3 as int,
                    j4 as int,
                    j8 as int,
                    j12 as int,
                );
            }
            return Err(ParseError::Malformed);
        }
        proof {
            lemma_chain(s@, 0, j12 as int, j13 as int);
            lemma_chain(s@, 0, j13 as int, j14 as int);
            lemma_chain(s@, 0, j14 as int, j15 as int);
            assert(s@.subrange(0, n as int) =~= s@);
        }
        let m = Request::Submit {
            id,
            worker,
            job_id,
            extranonce2,
            ntime,
            nonce,
            version_bits: Some(vb),
        };
        proof {
            assert(s@ == render_request(m));
        }
        return Ok(m);
    }
    let j13 = match eat_lit(s, j12, "\"]}") {
        Some(j) => j,
        None => {
            proof {
                refute_submit_tail_none(
                    s@,
                    id,
                    j2 as int,
                    j3 as int,
                    j4 as int,
                    j8 as int,
                    j12 as int,
                );
            }
            return Err(ParseError::Malformed);
        },
    };
    if j13 != n {
        proof {
            refute_submit_tail_none(
                s@,
                id,
                j2 as int,
                j3 as int,
                j4 as int,
                j8 as int,
                j12 as int,
            );
        }
        return Err(ParseError::Malformed);
    }
    proof {
        lemma_chain(s@, 0, j12 as int, j13 as int);
        assert(s@.subrange(0, n as int) =~= s@);
    }
    let m = Request::Submit { id, worker, job_id, extranonce2, ntime, nonce, version_bits: None };
    proof {
        assert(s@ == render_request(m));
    }
    Ok(m)
}

/// After a well-formed job id, the separator must follow.
#[verifier::rlimit(100)]
#[verifier::spinoff_prover]
proof fn refute_submit_after_job(s: Seq<char>, id: u64, j2: int, j3: int, j4: int)
    requires
        submit_head_facts(s, id, j2, j3, j4),
        ({
            let j6 = j4 + lit_sep().len() + 8;
            s.len() < j6 + lit_sep().len() || s.subrange(j6, j6 + lit_sep().len()) != lit_sep()
        }),
    ensures
        no_request_renders(s),
{
    assert forall|mm: Request| wf_request(mm) implies s != render_request(mm) by {
        if s == render_request(mm) {
            lemma_pin(s, j2, id, mm, lit_submit());
            lemma_layout_submit(s, mm);
            match mm {
                Request::Submit { worker: w, .. } => {
                    lemma_plain_boundary(s, j3, j4, j3 + w@.len());
                },
                _ => {},
            }
        }
    }
}

/// The facts at the end of the extranonce2 hex run, and the refutation of
/// any failure between there and the version-bits fork.
#[verifier::rlimit(100)]
#[verifier::spinoff_prover]
proof fn refute_submit_after_ex2(s: Seq<char>, id: u64, j2: int, j3: int, j4: int, j8: int)
    requires
        submit_head_facts(s, id, j2, j3, j4),
        ({
            let j7 = j4 + lit_sep().len() + 8 + lit_sep().len();
            &&& j7 <= j8 <= s.len()
            &&& (j8 - j7) % 2 == 0
            &&& (forall|k: int| j7 <= k < j8 ==> hex_value(#[trigger] s[k]) is Some)
            &&& (s.len() - j8 < 2 || hex_value(s[j8]) is None || hex_value(s[j8 + 1]) is None)
            &&& ({
                let j9 = j8 + lit_sep().len();
                let j10 = j9 + 8;
                let j11 = j10 + lit_sep().len();
                ||| s.len() < j9 || s.subrange(j8, j9) != lit_sep()
                ||| (forall|v: u32| !hex32_at(s, j9, v))
                ||| s.len() < j11 || s.subrange(j10, j11) != lit_sep()
                ||| (forall|v: u32| !hex32_at(s, j11, v))
            })
        }),
    ensures
        no_request_renders(s),
{
    assert forall|mm: Request| wf_request(mm) implies s != render_request(mm) by {
        if s == render_request(mm) {
            lemma_pin(s, j2, id, mm, lit_submit());
            lemma_layout_submit(s, mm);
            match mm {
                Request::Submit { worker: w, extranonce2: e2, ntime: nt, nonce: nc, .. } => {
                    lemma_plain_boundary(s, j3, j4, j3 + w@.len());
                    let j7 = j4 + lit_sep().len() + 8 + lit_sep().len();
                    assert forall|k: int| j7 <= k < j7 + 2 * e2@.len() implies hex_value(
                        #[trigger] s[k],
                    ) is Some by {
                        crate::hex::lemma_hex_of_len(e2@);
                        assert(s.subrange(j7, j7 + 2 * e2@.len())[k - j7] == s[k]);
                        crate::hex::lemma_hex_of_digits_pub(e2@, k - j7);
                    }
                    crate::hex::lemma_hex_of_len(e2@);
                    lemma_hexrun_boundary(s, j7, j8, j7 + 2 * e2@.len());
                    let j9 = j8 + lit_sep().len();
                    let j11 = j9 + 8 + lit_sep().len();
                    assert(hex32_at(s, j9, nt));
                    assert(hex32_at(s, j11, nc));
                },
                _ => {},
            }
        }
    }
}

/// In the version-bits fork, when the separator matched: the rolled bits
/// and the closing segment must follow and end the line.
#[verifier::rlimit(100)]
#[verifier::spinoff_prover]
proof fn refute_submit_tail_some(
    s: Seq<char>,
    id: u64,
    j2: int,
    j3: int,
    j4: int,
    j8: int,
    j12: int,
)
    requires
        submit_head_facts(s, id, j2, j3, j4),
        ({
            let j7 = j4 + lit_sep().len() + 8 + lit_sep().len();
            &&& j7 <= j8 <= s.len()
            &&& (j8 - j7) % 2 == 0
            &&& (forall|k: int| j7 <= k < j8 ==> hex_value(#[trigger] s[k]) is Some)
            &&& (s.len() - j8 < 2 || hex_value(s[j8]) is None || hex_value(s[j8 + 1]) is None)
            &&& j12 == j8 + lit_sep().len() + 8 + lit_sep().len() + 8
        }),
        j12 + lit_sep().len() <= s.len(),
        s.subrange(j12, j12 + lit_sep().len()) == lit_sep(),
        ({
            let j13 = j12 + lit_sep().len();
            let j14 = j13 + 8;
            ||| (forall|v: u32| !hex32_at(s, j13, v))
            ||| s.len() < j14 + lit_arr_end().len() || s.subrange(j14, j14 + lit_arr_end().len())
                != lit_arr_end() || j14 + lit_arr_end().len() != s.len()
        }),
    ensures
        no_request_renders(s),
{
    reveal_strlit("\",\"");
    reveal_strlit("\"]}");
    assert forall|mm: Request| wf_request(mm) implies s != render_request(mm) by {
        if s == render_request(mm) {
            lemma_pin(s, j2, id, mm, lit_submit());
            lemma_layout_submit(s, mm);
            match mm {
                Request::Submit { worker: w, extranonce2: e2, version_bits: vbits, .. } => {
                    lemma_plain_boundary(s, j3, j4, j3 + w@.len());
                    let j7 = j4 + lit_sep().len() + 8 + lit_sep().len();
                    assert forall|k: int| j7 <= k < j7 + 2 * e2@.len() implies hex_value(
                        #[trigger] s[k],
                    ) is Some by {
                        crate::hex::lemma_hex_of_len(e2@);
                        assert(s.subrange(j7, j7 + 2 * e2@.len())[k - j7] == s[k]);
                        crate::hex::lemma_hex_of_digits_pub(e2@, k - j7);
                    }
                    crate::hex::lemma_hex_of_len(e2@);
                    lemma_hexrun_boundary(s, j7, j8, j7 + 2 * e2@.len());
                    match vbits {
                        Some(vb) => {
                            assert(hex32_at(s, j12 + lit_sep().len(), vb));
                        },
                        None => {
                            // The line closes at j12, yet the separator
                            // matched there: the characters disagree.
                            assert(s.subrange(j12, j12 + lit_arr_end().len())[1] == s[j12 + 1]);
                            assert(s.subrange(j12, j12 + lit_sep().len())[1] == s[j12 + 1]);
                        },
                    }
                },
                _ => {},
            }
        }
    }
}

/// In the version-bits fork, when the separator did not match: the closing
/// segment must stand at the fork and end the line.
#[verifier::rlimit(100)]
#[verifier::spinoff_prover]
proof fn refute_submit_tail_none(
    s: Seq<char>,
    id: u64,
    j2: int,
    j3: int,
    j4: int,
    j8: int,
    j12: int,
)
    requires
        submit_head_facts(s, id, j2, j3, j4),
        ({
            let j7 = j4 + lit_sep().len() + 8 + lit_sep().len();
            &&& j7 <= j8 <= s.len()
            &&& (j8 - j7) % 2 == 0
            &&& (forall|k: int| j7 <= k < j8 ==> hex_value(#[trigger] s[k]) is Some)
            &&& (s.len() - j8 < 2 || hex_value(s[j8]) is None || hex_value(s[j8 + 1]) is None)
            &&& j12 == j8 + lit_sep().len() + 8 + lit_sep().len() + 8
        }),
        s.len() < j12 + lit_sep().len() || s.subrange(j12, j12 + lit_sep().len()) != lit_sep(),
        s.len() < j12 + lit_arr_end().len() || s.subrange(j12, j12 + lit_arr_end().len())
            != lit_arr_end() || j12 + lit_arr_end().len() != s.len(),
    ensures
        no_request_renders(s),
{
    reveal_strlit("\",\"");
    reveal_strlit("\"]}");
    assert forall|mm: Request| wf_request(mm) implies s != render_request(mm) by {
        if s == render_request(mm) {
            lemma_pin(s, j2, id, mm, lit_submit());
            lemma_layout_submit(s, mm);
            match mm {
                Request::Submit { worker: w, extranonce2: e2, version_bits: vbits, .. } => {
                    lemma_plain_boundary(s, j3, j4, j3 + w@.len());
                    let j7 = j4 + lit_sep().len() + 8 + lit_sep().len();
                    assert forall|k: int| j7 <= k < j7 + 2 * e2@.len() implies hex_value(
                        #[trigger] s[k],
                    ) is Some by {
                        crate::hex::lemma_hex_of_len(e2@);
                        assert(s.subrange(j7, j7 + 2 * e2@.len())[k - j7] == s[k]);
                        crate::hex::lemma_hex_of_digits_pub(e2@, k - j7);
                    }
                    crate::hex::lemma_hex_of_len(e2@);
                    lemma_hexrun_boundary(s, j7, j8, j7 + 2 * e2@.len());
                },
                _ => {},
            }
        }
    }
}

// ---------------------------------------------------------------------------
// Rendering
// ---------------------------------------------------------------------------
/// Appends the eight hex characters of a 32-bit word.
fn push_hex_u32(out: &mut String, v: u32)
    ensures
        final(out)@ == old(out)@ + hex_of_u32(v),
{
    let mut bytes: Vec<u8> = Vec::new();
    bytes.push((v >> 24) as u8);
    bytes.push(((v >> 16) & 0xff) as u8);
    bytes.push(((v >> 8) & 0xff) as u8);
    bytes.push((v & 0xff) as u8);
    proof {
        assert(bytes@ =~= seq![
            (v >> 24) as u8,
            ((v >> 16) & 0xff) as u8,
            ((v >> 8) & 0xff) as u8,
            (v & 0xff) as u8,
        ]);
    }
    crate::hex::push_hex(out, &bytes);
}

/// Renders a request to its canonical line.
pub fn render_request_line(m: &Request) -> (r: String)
    ensures
        r@ == render_request(*m),
{
    let mut out = String::new();
    out.append("{\"id\":");
    proof {
        assert(Seq::<char>::empty() + "{\"id\":"@ =~= "{\"id\":"@);
    }
    match m {
        Request::Configure { id, mask, min_bits } => {
            crate::textfmt::push_u64(&mut out, *id);
            out.append(
                ",\"method\":\"mining.configure\",\"params\":[[\"version-rolling\"],{\"version-rolling.mask\":\"",
            );
            push_hex_u32(&mut out, *mask);
            out.append("\",\"version-rolling.min-bit-count\":");
            crate::textfmt::push_u64(&mut out, *min_bits);
            out.append("}]}");
            proof {
                assert(out@ =~= render_request(*m));
            }
        },
        Request::Subscribe { id, agent } => {
            crate::textfmt::push_u64(&mut out, *id);
            out.append(",\"method\":\"mining.subscribe\",\"params\":[\"");
            out.append(agent.as_str());
            out.append("\"]}");
            proof {
                assert(out@ =~= render_request(*m));
            }
        },
        Request::Authorize { id, user, password } => {
            crate::textfmt::push_u64(&mut out, *id);
            out.append(",\"method\":\"mining.authorize\",\"params\":[\"");
            out.append(user.as_str());
            out.append("\",\"");
            out.append(password.as_str());
            out.append("\"]}");
            proof {
                assert(out@ =~= render_request(*m));
            }
        },
        Request::Submit { id, worker, job_id, extranonce2, ntime, nonce, version_bits } => {
            crate::textfmt::push_u64(&mut out, *id);
            out.append(",\"method\":\"mining.submit\",\"params\":[\"");
            out.append(worker.as_str());
            out.append("\",\"");
            push_hex_u32(&mut out, *job_id);
            out.append("\",\"");
            crate::hex::push_hex(&mut out, extranonce2);
            out.append("\",\"");
            push_hex_u32(&mut out, *ntime);
            out.append("\",\"");
            push_hex_u32(&mut out, *nonce);
            match version_bits {
                Some(vb) => {
                    out.append("\",\"");
                    push_hex_u32(&mut out, *vb);
                    out.append("\"]}");
                },
                None => {
                    out.append("\"]}");
                },
            }
            proof {
                assert(out@ =~= render_request(*m));
            }
        },
        Request::ExtranonceSubscribe { id } => {
            crate::textfmt::push_u64(&mut out, *id);
            out.append(",\"method\":\"mining.extranonce.subscribe\",\"params\":[]}");
            proof {
                assert(out@ =~= render_request(*m));
            }
        },
    }
    out
}

// ---------------------------------------------------------------------------
// Server-to-miner messages (rendered, never parsed here)
// ---------------------------------------------------------------------------
/// One `mining.notify` as it goes to the miner.
pub struct Notify {
    pub job_id: u32,
    pub prev_hash: Vec<u8>,
    pub coinbase1: Vec<u8>,
    pub coinbase2: Vec<u8>,
    pub merkle_branches: Vec<Vec<u8>>,
    pub version: u32,
    pub nbits: u32,
    pub ntime: u32,
    pub clean_jobs: bool,
}

/// The comma-separated quoted hex list of merkle branches.
pub open spec fn render_branches(bs: Seq<Vec<u8>>) -> Seq<char>
    decreases bs.len(),
{
    if bs.len() == 0 {
        Seq::empty()
    } else if bs.len() == 1 {
        "\""@ + hex_of(bs[0]@) + "\""@
    } else {
        render_branches(bs.drop_last()) + ",\""@ + hex_of(bs.last()@) + "\""@
    }
}

/// The canonical `mining.notify` line for a job.
pub open spec fn render_notify(j: &Notify) -> Seq<char> {
    "{\"id\":null,\"method\":\"mining.notify\",\"params\":[\""@ + hex_of_u32(j.job_id) + "\",\""@
        + hex_of(j.prev_hash@) + "\",\""@ + hex_of(j.coinbase1@) + "\",\""@ + hex_of(j.coinbase2@)
        + "\",["@ + render_branches(j.merkle_branches@) + "],\""@ + hex_of_u32(j.version) + "\",\""@
        + hex_of_u32(j.nbits) + "\",\""@ + hex_of_u32(j.ntime) + "\","@ + (if j.clean_jobs {
        "true"@
    } else {
        "false"@
    }) + "]}"@
}

/// Renders a job notification.
pub fn render_notify_line(j: &Notify) -> (r: String)
    ensures
        r@ == render_notify(j),
{
    let mut out = String::new();
    out.append("{\"id\":null,\"method\":\"mining.notify\",\"params\":[\"");
    proof {
        assert(Seq::<char>::empty() + "{\"id\":null,\"method\":\"mining.notify\",\"params\":[\""@
            =~= "{\"id\":null,\"method\":\"mining.notify\",\"params\":[\""@);
    }
    push_hex_u32(&mut out, j.job_id);
    out.append("\",\"");
    crate::hex::push_hex(&mut out, &j.prev_hash);
    out.append("\",\"");
    crate::hex::push_hex(&mut out, &j.coinbase1);
    out.append("\",\"");
    crate::hex::push_hex(&mut out, &j.coinbase2);
    out.append("\",[");
    let ghost before_branches = out@;
    let nb = j.merkle_branches.len();
    let mut i: usize = 0;
    while i < nb
        invariant
            nb == j.merkle_branches@.len(),
            i <= nb,
            out@ == before_branches + render_branches(j.merkle_branches@.take(i as int)),
        decreases nb - i,
    {
        if i > 0 {
            out.append(",\"");
        } else {
            out.append("\"");
        }
        crate::hex::push_hex(&mut out, &j.merkle_branches[i]);
        out.append("\"");
        proof {
            let bs = j.merkle_branches@;
            let cur = bs.take(i + 1);
            assert(cur.drop_last() =~= bs.take(i as int));
            assert(cur.last() == bs[i as int]);
            if i == 0 {
                assert(cur.len() == 1);
                assert(cur[0] == bs[0]);
                assert(render_branches(cur) == "\""@ + hex_of(bs[0]@) + "\""@);
                assert(out@ =~= before_branches + render_branches(cur));
            } else {
                assert(render_branches(cur) == render_branches(bs.take(i as int)) + ",\""@
                    + hex_of(bs[i as int]@) + "\""@);
                assert(out@ =~= before_branches + render_branches(cur));
            }
        }
        i = i + 1;
    }
    proof {
        assert(j.merkle_branches@.take(nb as int) =~= j.merkle_branches@);
    }
    out.append("],\"");
    push_hex_u32(&mut out, j.version);
    out.append("\",\"");
    push_hex_u32(&mut out, j.nbits);
    out.append("\",\"");
    push_hex_u32(&mut out, j.ntime);
    out.append("\",");
    if j.clean_jobs {
        out.append("true");
    } else {
        out.append("false");
    }
    out.append("]}");
    proof {
        assert(out@ =~= render_notify(j));
    }
    out
}

/// The canonical `mining.set_difficulty` line.
pub open spec fn render_set_difficulty(d: u64) -> Seq<char> {
    "{\"id\":null,\"method\":\"mining.set_difficulty\",\"params\":["@ + dec_str(d as nat) + "]}"@
}

/// Renders a difficulty update.
pub fn render_set_difficulty_line(d: u64) -> (r: String)
    ensures
        r@ == render_set_difficulty(d),
{
    let mut out = String::new();
    out.append("{\"id\":null,\"method\":\"mining.set_difficulty\",\"params\":[");
    crate::textfmt::push_u64(&mut out, d);
    out.append("]}");
    proof {
        assert(out@ =~= render_set_difficulty(d));
    }
    out
}

/// The canonical `mining.set_extranonce` line.
pub open spec fn render_set_extranonce(extranonce1: Seq<u8>, ex2_len: u64) -> Seq<char> {
    "{\"id\":null,\"method\":\"mining.set_extranonce\",\"params\":[\""@ + hex_of(extranonce1) + "\","@
        + dec_str(ex2_len as nat) + "]}"@
}

/// Renders an extranonce change.
pub fn render_set_extranonce_line(extranonce1: &Vec<u8>, ex2_len: u64) -> (r: String)
    ensures
        r@ == render_set_extranonce(extranonce1@, ex2_len),
{
    let mut out = String::new();
    out.append("{\"id\":null,\"method\":\"mining.set_extranonce\",\"params\":[\"");
    crate::hex::push_hex(&mut out, extranonce1);
    out.append("\",");
    crate::textfmt::push_u64(&mut out, ex2_len);
    out.append("]}");
    proof {
        assert(out@ =~= render_set_extranonce(extranonce1@, ex2_len));
    }
    out
}

/// The canonical plain boolean response.
pub open spec fn render_response_bool(id: u64, result: bool) -> Seq<char> {
    "{\"id\":"@ + dec_str(id as nat) + ",\"result\":"@ + (if result {
        "true"@
    } else {
        "false"@
    }) + ",\"error\":null}"@
}

/// Renders a plain boolean response.
pub fn render_response_bool_line(id: u64, result: bool) -> (r: String)
    ensures
        r@ == render_response_bool(id, result),
{
    let mut out = String::new();
    out.append("{\"id\":");
    crate::textfmt::push_u64(&mut out, id);
    out.append(",\"result\":");
    if result {
        out.append("true");
    } else {
        out.append("false");
    }
    out.append(",\"error\":null}");
    proof {
        assert(out@ =~= render_response_bool(id, result));
    }
    out
}

/// The canonical failure response with a domain error.
pub open spec fn render_response_error(id: u64, code: u64, message: Seq<char>) -> Seq<char> {
    "{\"id\":"@ + dec_str(id as nat) + ",\"result\":null,\"error\":["@ + dec_str(code as nat)
        + ",\""@ + message + "\",null]}"@
}

/// Renders a failure response.
pub fn render_response_error_line(id: u64, code: u64, message: &str) -> (r: String)
    ensures
        r@ == render_response_error(id, code, message@),
{
    let mut out = String::new();
    out.append("{\"id\":");
    crate::textfmt::push_u64(&mut out, id);
    out.append(",\"result\":null,\"error\":[");
    crate::textfmt::push_u64(&mut out, code);
    out.append(",\"");
    out.append(message);
    out.append("\",null]}");
    proof {
        assert(out@ =~= render_response_error(id, code, message@));
    }
    out
}

/// The canonical `mining.configure` success response: the granted
/// version-rolling parameters and a non-mandatory mask.
pub open spec fn render_configure_result(id: u64, mask: u32, min_bits: u64) -> Seq<char> {
    "{\"id\":"@ + dec_str(id as nat)
        + ",\"result\":[[[\"version-rolling\",{\"version-rolling.mask\":\""@ + hex_of_u32(mask)
        + "\",\"version-rolling.min-bit-count\":"@ + dec_str(min_bits as nat)
        + "}]],false],\"error\":null}"@
}

/// Renders the `mining.configure` success response.
pub fn render_configure_result_line(id: u64, mask: u32, min_bits: u64) -> (r: String)
    ensures
        r@ == render_configure_result(id, mask, min_bits),
{
    let mut out = String::new();
    out.append("{\"id\":");
    crate::textfmt::push_u64(&mut out, id);
    out.append(",\"result\":[[[\"version-rolling\",{\"version-rolling.mask\":\"");
    push_hex_u32(&mut out, mask);
    out.append("\",\"version-rolling.min-bit-count\":");
    crate::textfmt::push_u64(&mut out, min_bits);
    out.append("}]],false],\"error\":null}");
    proof {
        assert(out@ =~= render_configure_result(id, mask, min_bits));
    }
    out
}

/// The fixed subscription identifier reported for `mining.notify`.
pub open spec fn notify_subscription_id() -> Seq<char> {
    "ae6812eb4cd7735a302a8a9dd95cf71f"@
}

/// The canonical `mining.subscribe` success response: the two subscription
/// tuples, then the extranonce pair.
pub open spec fn render_subscribe_result(
    id: u64,
    sub_id: Seq<char>,
    extranonce1: Seq<u8>,
    ex2_len: u64,
) -> Seq<char> {
    "{\"id\":"@ + dec_str(id as nat) + ",\"result\":[[[\"mining.set_difficulty\",\""@ + sub_id
        + "\"],[\"mining.notify\",\""@ + notify_subscription_id() + "\"]],\""@ + hex_of(extranonce1)
        + "\","@ + dec_str(ex2_len as nat) + "],\"error\":null}"@
}

/// Renders the `mining.subscribe` success response. The difficulty
/// subscription id comes from the caller (it carries the session's
/// entropy); the notify id is the fixed constant.
pub fn render_subscribe_result_line(id: u64, sub_id: &str, extranonce1: &Vec<u8>, ex2_len: u64)
    -> (r: String)
    ensures
        r@ == render_subscribe_result(id, sub_id@, extranonce1@, ex2_len),
{
    let mut out = String::new();
    out.append("{\"id\":");
    crate::textfmt::push_u64(&mut out, id);
    out.append(",\"result\":[[[\"mining.set_difficulty\",\"");
    out.append(sub_id);
    out.append("\"],[\"mining.notify\",\"");
    out.append("ae6812eb4cd7735a302a8a9dd95cf71f");
    out.append("\"]],\"");
    crate::hex::push_hex(&mut out, extranonce1);
    out.append("\",");
    crate::textfmt::push_u64(&mut out, ex2_len);
    out.append("],\"error\":null}");
    proof {
        assert(out@ =~= render_subscribe_result(id, sub_id@, extranonce1@, ex2_len));
    }
    out
}

// ---------------------------------------------------------------------------
// The intermediate dispatcher
// ---------------------------------------------------------------------------
/// What the intermediate dispatcher recognised in one line.
pub enum ParsedParams {
    Configure(ConfigureParams),
    Subscribe(SubscribeParams),
    Authorize(AuthorizeParams),
    Other,
}

/// A line-level dispatcher that only recognises the handshake methods; the
/// receive loop around it lives outside the library.
pub struct IntermediateDownstream_ {
}

impl IntermediateDownstream_ {
    /// Classifies one inbound line, taken modulo whitespace between tokens:
    /// the handshake methods come back as their wire-level params, anything
    /// else that parses as `Other`, and a non-canonical line as the parse
    /// error.
    pub fn classify_line(line: &str) -> (r: Result<ParsedParams, ParseError>)
        ensures
            match r {
                Ok(p) => exists|m: Request|
                    strip_json_ws(line@) == render_request(m) && #[trigger] wf_request(m),
                Err(_) => no_request_renders(strip_json_ws(line@)),
            },
            match r {
                Ok(ParsedParams::Configure(c)) => c.version_rolling_mask@.len() == 8,
                _ => true,
            },
    {
        let normalised = strip_json_ws_line(line);
        let m = match parse_request(normalised.as_str()) {
            Ok(m) => m,
            Err(e) => {
                return Err(e);
            },
        };
        proof {
            assert(strip_json_ws(line@) == render_request(m) && wf_request(m));
        }
        match m {
            Request::Configure { id, mask, min_bits } => {
                let mut version_rolling: Vec<String> = Vec::new();
                version_rolling.push("version-rolling".to_owned());
                let mask_hex = crate::hex::encode_u32(mask);
                proof {
                    crate::hex::lemma_hex_of_len(
                        seq![
                            (mask >> 24) as u8,
                            ((mask >> 16) & 0xff) as u8,
                            ((mask >> 8) & 0xff) as u8,
                            (mask & 0xff) as u8,
                        ],
                    );
                }
                Ok(
                    ParsedParams::Configure(
                        ConfigureParams { version_rolling, version_rolling_mask: mask_hex },
                    ),
                )
            },
            Request::Subscribe { id, agent } => {
                Ok(ParsedParams::Subscribe(SubscribeParams { subscription: agent }))
            },
            Request::Authorize { id, user, password } => {
                Ok(ParsedParams::Authorize(AuthorizeParams { user, password }))
            },
            _ => Ok(ParsedParams::Other),
        }
    }
}

} // verus!
