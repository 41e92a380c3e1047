//! Proxy configuration: the raw option sets read from the command line, a
//! configuration file and the process environment, and the precedence rules
//! (command line over environment over file) that merge them into one
//! `Configuration`. Reading the three sources is I/O and happens outside the
//! library; every decision about the values happens here.
use vstd::prelude::*;

verus! {

/// Vardiff adjustment interval applied when no source sets one, in
/// milliseconds.
pub const DEFAULT_INTERVAL_MS: u64 = 120_000;

/// Aggregate downstream hashrate assumed when no source declares one, in
/// hashes per second.
pub const DEFAULT_SV1_HASHPOWER: u128 = 100_000_000_000_000;

/// Options as an optional configuration file provides them; `None` stands for
/// an absent key, and for an absent or unreadable file every field is `None`.
pub struct ConfigFile {
    pub token: Option<String>,
    pub tp_address: Option<String>,
    pub interval: Option<u64>,
    pub delay: Option<u64>,
    pub downstream_hashrate: Option<String>,
    pub loglevel: Option<String>,
    pub nc_loglevel: Option<String>,
    pub sv1_log: Option<bool>,
    pub staging: Option<bool>,
    pub local: Option<bool>,
    pub listening_addr: Option<String>,
    pub api_server_port: Option<String>,
    pub monitor: Option<bool>,
    pub auto_update: Option<bool>,
}

impl ConfigFile {
    /// The file contents assumed when no configuration file can be read:
    /// every key absent.
    pub fn default() -> (r: Self)
        ensures
            r.token is None,
            r.tp_address is None,
            r.interval is None,
            r.delay is None,
            r.downstream_hashrate is None,
            r.loglevel is None,
            r.nc_loglevel is None,
            r.sv1_log is None,
            r.staging is None,
            r.local is None,
            r.listening_addr is None,
            r.api_server_port is None,
            r.monitor is None,
            r.auto_update is None,
    {
        ConfigFile {
            token: None,
            tp_address: None,
            interval: None,
            delay: None,
            downstream_hashrate: None,
            loglevel: None,
            nc_loglevel: None,
            sv1_log: None,
            staging: None,
            local: None,
            listening_addr: None,
            api_server_port: None,
            monitor: None,
            auto_update: None,
        }
    }
}

/// Options as the command line provides them. The hashrate arrives already
/// parsed, since the command-line parser outside the library validates it
/// with `parse_hashrate` before the program proceeds.
pub struct CliArgs {
    pub staging: bool,
    pub local: bool,
    pub downstream_hashrate: Option<u128>,
    pub loglevel: Option<String>,
    pub noise_connection_log: Option<String>,
    pub sv1_loglevel: bool,
    pub delay: Option<u64>,
    pub adjustment_interval: Option<u64>,
    pub token: Option<String>,
    pub tp_address: Option<String>,
    pub listening_addr: Option<String>,
    pub api_server_port: Option<String>,
    pub monitor: bool,
    pub auto_update: bool,
}

/// Options as the process environment provides them: raw variable values,
/// with `is Some` meaning the variable is set. Numeric variables are parsed
/// here, and a malformed value counts as unset.
pub struct EnvOptions {
    pub token: Option<String>,
    pub tp_address: Option<String>,
    pub interval: Option<String>,
    pub delay: Option<String>,
    pub downstream_hashrate: Option<String>,
    pub listening_addr: Option<String>,
    pub api_server_port: Option<String>,
    pub loglevel: Option<String>,
    pub nc_loglevel: Option<String>,
    pub sv1_log_set: bool,
    pub staging_set: bool,
    pub local_set: bool,
    pub monitor_set: bool,
    pub auto_update_set: bool,
}

/// The merged configuration the rest of the proxy runs on.
pub struct Configuration {
    pub token: Option<String>,
    pub tp_address: Option<String>,
    pub interval: u64,
    pub delay: u64,
    pub downstream_hashrate: u128,
    pub loglevel: String,
    pub nc_loglevel: String,
    pub sv1_log: bool,
    pub staging: bool,
    pub local: bool,
    pub listening_addr: Option<String>,
    pub api_server_port: String,
    pub monitor: bool,
    pub auto_update: bool,
}

// ---------------------------------------------------------------------------
// Decimal digits
// ---------------------------------------------------------------------------
pub open spec fn is_dec_digit(c: char) -> bool {
    '0' <= c && c <= '9'
}

pub open spec fn dec_digit_val(c: char) -> int {
    c as int - 0x30
}

pub open spec fn all_dec_digits(s: Seq<char>) -> bool {
    forall|i: int| 0 <= i < s.len() ==> is_dec_digit(#[trigger] s[i])
}

/// The value of a digit string read left to right.
pub open spec fn digits_val(s: Seq<char>) -> int
    decreases s.len(),
{
    if s.len() == 0 {
        0
    } else {
        digits_val(s.drop_last()) * 10 + dec_digit_val(s.last())
    }
}

pub open spec fn pow10(e: nat) -> int
    decreases e,
{
    if e == 0 {
        1
    } else {
        10 * pow10((e - 1) as nat)
    }
}

/// What a decimal digit string denotes as a `u64`: `None` when it is empty,
/// holds a non-digit, or overflows.
pub open spec fn spec_parse_u64(s: Seq<char>) -> Option<u64> {
    if s.len() > 0 && all_dec_digits(s) && digits_val(s) <= u64::MAX {
        Some(digits_val(s) as u64)
    } else {
        None
    }
}

/// Parses a decimal digit string into a `u64`; `None` when the string is
/// empty, holds a non-digit, or overflows.
pub fn parse_u64_digits(s: &str) -> (r: Option<u64>)
    ensures
        r == spec_parse_u64(s@),
{
    proof {
        if s@.len() > 0 && all_dec_digits(s@) {
            lemma_digits_val_nonneg(s@);
        }
    }
    let n = s.unicode_len();
    if n == 0 {
        return None;
    }
    let mut acc: u64 = 0;
    let mut i: usize = 0;
    while i < n
        invariant
            0 < n == s@.len(),
            i <= n,
            all_dec_digits(s@.take(i as int)),
            acc == digits_val(s@.take(i as int)),
        decreases n - i,
    {
        let c = s.get_char(i);
        if c < '0' || c > '9' {
            assert(!is_dec_digit(s@[i as int]));
            return None;
        }
        let d: u64 = (c as u8 - 0x30) as u64;
        if acc > (u64::MAX - d) / 10 {
            proof {
                assert(s@.take(i + 1).drop_last() =~= s@.take(i as int));
                assert(s@.take(i + 1).last() == s@[i as int]);
                assert(digits_val(s@.take(i + 1)) == acc * 10 + dec_digit_val(s@[i as int]));
                assert(acc * 10 + d > u64::MAX);
                if all_dec_digits(s@) {
                    lemma_digits_val_lower(s@, i + 1);
                }
            }
            return None;
        }
        acc = acc * 10 + d;
        proof {
            assert(s@.take(i + 1).drop_last() =~= s@.take(i as int));
            assert(s@.take(i + 1).last() == s@[i as int]);
            assert(forall|j: int| 0 <= j < i ==> is_dec_digit(#[trigger] s@.take(i + 1)[j]));
            assert(s@.take(i + 1)[i as int] == s@[i as int]);
        }
        i = i + 1;
    }
    proof {
        assert(s@.take(n as int) =~= s@);
    }
    Some(acc)
}

pub proof fn lemma_digits_val_nonneg(s: Seq<char>)
    requires
        all_dec_digits(s),
    ensures
        digits_val(s) >= 0,
    decreases s.len(),
{
    if s.len() > 0 {
        assert(forall|i: int| 0 <= i < s.len() - 1 ==> is_dec_digit(#[trigger] s.drop_last()[i]));
        lemma_digits_val_nonneg(s.drop_last());
    }
}

pub proof fn lemma_pow10_pos(e: nat)
    ensures
        pow10(e) >= 1,
    decreases e,
{
    if e > 0 {
        lemma_pow10_pos((e - 1) as nat);
    }
}

/// Splitting a digit string: the value of the whole is the value of a prefix
/// shifted by the length of the rest, plus the value of the rest.
pub proof fn lemma_digits_val_append(s: Seq<char>, i: int)
    requires
        0 <= i <= s.len(),
    ensures
        digits_val(s) == digits_val(s.take(i)) * pow10((s.len() - i) as nat) + digits_val(s.skip(i)),
    decreases s.len() - i,
{
    if i == s.len() {
        assert(s.take(i) =~= s);
        assert(s.skip(i) =~= Seq::<char>::empty());
    } else {
        lemma_digits_val_append(s.drop_last(), i);
        assert(s.drop_last().take(i) =~= s.take(i));
        assert(s.skip(i).drop_last() =~= s.drop_last().skip(i));
        assert(s.skip(i).last() == s.last());
        assert(s.skip(i).len() > 0);
        let n = (s.len() - i) as nat;
        let dv = digits_val(s.take(i));
        let rest = digits_val(s.drop_last().skip(i));
        assert(digits_val(s) == digits_val(s.drop_last()) * 10 + dec_digit_val(s.last()));
        assert(digits_val(s.drop_last()) == dv * pow10((n - 1) as nat) + rest);
        assert((dv * pow10((n - 1) as nat) + rest) * 10 == dv * (10 * pow10((n - 1) as nat)) + rest
            * 10) by (nonlinear_arith);
        assert(pow10(n) == 10 * pow10((n - 1) as nat));
    }
}

// ---------------------------------------------------------------------------
// Hashrate strings: `<number><T|P|E>`, e.g. `10T`, `2.5P`, `500E`
// ---------------------------------------------------------------------------
pub open spec fn is_space(c: char) -> bool {
    c == ' ' || c == '\t' || c == '\r' || c == '\n'
}

pub open spec fn spec_trim_front(s: Seq<char>) -> Seq<char>
    decreases s.len(),
{
    if s.len() > 0 && is_space(s[0]) {
        spec_trim_front(s.skip(1))
    } else {
        s
    }
}

pub open spec fn spec_trim_back(s: Seq<char>) -> Seq<char>
    decreases s.len(),
{
    if s.len() > 0 && is_space(s.last()) {
        spec_trim_back(s.drop_last())
    } else {
        s
    }
}

/// The string with leading and trailing whitespace removed.
pub open spec fn spec_trim(s: Seq<char>) -> Seq<char> {
    spec_trim_back(spec_trim_front(s))
}

/// The decimal exponent of a hash unit suffix, or -1 for anything else:
/// terahash, petahash and exahash.
pub open spec fn unit_exp(c: char) -> int {
    if c == 'T' {
        12
    } else if c == 'P' {
        15
    } else if c == 'E' {
        18
    } else {
        -1
    }
}

/// Index of the first dot, or the length when there is none.
pub open spec fn first_dot(s: Seq<char>) -> int
    decreases s.len(),
{
    if s.len() == 0 {
        0
    } else if s[0] == '.' {
        0
    } else {
        1 + first_dot(s.skip(1))
    }
}

pub proof fn lemma_first_dot_at(s: Seq<char>, k: int)
    requires
        0 <= k <= s.len(),
        forall|j: int| 0 <= j < k ==> s[j] != '.',
        k == s.len() || s[k] == '.',
    ensures
        first_dot(s) == k,
    decreases k,
{
    if k > 0 {
        assert(s[0] != '.');
        assert forall|j: int| 0 <= j < k - 1 implies s.skip(1)[j] != '.' by {
            assert(s.skip(1)[j] == s[j + 1]);
        }
        if k < s.len() {
            assert(s.skip(1)[k - 1] == s[k]);
        }
        lemma_first_dot_at(s.skip(1), k - 1);
        assert(first_dot(s) == 1 + first_dot(s.skip(1)));
    }
}

pub proof fn lemma_first_dot_le(s: Seq<char>)
    ensures
        0 <= first_dot(s) <= s.len(),
    decreases s.len(),
{
    if s.len() > 0 && s[0] != '.' {
        lemma_first_dot_le(s.skip(1));
    }
}

/// The digits before the first dot of a number string.
pub open spec fn num_int_part(num: Seq<char>) -> Seq<char> {
    num.take(first_dot(num))
}

/// The digits after the first dot of a number string; empty when there is no
/// dot.
pub open spec fn num_frac_part(num: Seq<char>) -> Seq<char> {
    if first_dot(num) < num.len() {
        num.skip(first_dot(num) + 1)
    } else {
        Seq::empty()
    }
}

/// A well-formed number: digits with at most one dot, and at least one digit.
pub open spec fn num_wf(num: Seq<char>) -> bool {
    &&& all_dec_digits(num_int_part(num))
    &&& all_dec_digits(num_frac_part(num))
    &&& num_int_part(num).len() + num_frac_part(num).len() >= 1
}

/// A well-formed hashrate string (after trimming): a number followed by a
/// unit letter.
pub open spec fn hashrate_wf(t: Seq<char>) -> bool {
    &&& t.len() >= 1
    &&& num_wf(t.drop_last())
    &&& unit_exp(t.last()) >= 0
}

/// The digit string whose value is the hashrate in hashes per second: the
/// integer part, then the fractional digits that still land above the unit
/// (the rest only contribute below one hash and are truncated), padded with
/// zeros up to the unit's exponent.
pub open spec fn hashrate_digits(t: Seq<char>) -> Seq<char> {
    let num = t.drop_last();
    let e = unit_exp(t.last());
    let frac = num_frac_part(num);
    let used = if frac.len() <= e {
        frac.len() as int
    } else {
        e
    };
    num_int_part(num) + frac.take(used) + Seq::new((e - used) as nat, |i: int| '0')
}

/// The value in hashes per second that a well-formed hashrate string denotes.
pub open spec fn hashrate_val(t: Seq<char>) -> int {
    digits_val(hashrate_digits(t))
}

/// Why a hashrate string was rejected.
#[derive(Debug, PartialEq, Eq, Structural, Clone, Copy)]
pub enum HashrateError {
    /// Nothing but whitespace.
    Empty,
    /// The part before the unit letter is not a decimal number.
    InvalidNumber,
    /// The last character is not one of the supported unit letters.
    InvalidUnit,
    /// The denoted value does not fit the hashrate range.
    TooLarge,
}

fn at_space(s: &str, i: usize) -> (b: bool)
    requires
        i < s@.len(),
    ensures
        b == is_space(s@[i as int]),
{
    let c = s.get_char(i);
    c == ' ' || c == '\t' || c == '\r' || c == '\n'
}

/// Every character in `[a, b)` of `s` is a decimal digit.
pub open spec fn digits_range(s: Seq<char>, a: int, b: int) -> bool {
    forall|j: int| a <= j < b ==> is_dec_digit(#[trigger] s[j])
}

/// No character in `[a, b)` of `s` is a dot.
pub open spec fn no_dot_range(s: Seq<char>, a: int, b: int) -> bool {
    forall|j: int| a <= j < b ==> (#[trigger] s[j]) != '.'
}

proof fn lemma_first_dot_min(s: Seq<char>, k: int)
    requires
        0 <= k <= s.len(),
        no_dot_range(s, 0, k),
    ensures
        first_dot(s) >= k,
    decreases k,
{
    lemma_first_dot_le(s);
    if k > 0 {
        assert(s.len() > 0);
        assert(s[0] != '.');
        assert forall|j: int| 0 <= j < k - 1 implies (#[trigger] s.skip(1)[j]) != '.' by {
            assert(s.skip(1)[j] == s[j + 1]);
        }
        lemma_first_dot_min(s.skip(1), k - 1);
        assert(first_dot(s) == 1 + first_dot(s.skip(1)));
    }
}

/// The string with surrounding whitespace removed.
pub fn trim_str(s: &str) -> (r: &str)
    ensures
        r@ == spec_trim(s@),
{
    let n = s.unicode_len();
    let mut start: usize = 0;
    proof {
        assert(s@.skip(0) =~= s@);
    }
    while start < n && at_space(s, start)
        invariant
            n == s@.len(),
            start <= n,
            spec_trim_front(s@) == spec_trim_front(s@.skip(start as int)),
        decreases n - start,
    {
        proof {
            assert(s@.skip(start as int)[0] == s@[start as int]);
            assert(s@.skip(start as int).skip(1) =~= s@.skip(start + 1));
        }
        start = start + 1;
    }
    proof {
        if start < n {
            assert(s@.skip(start as int)[0] == s@[start as int]);
        }
        assert(spec_trim_front(s@) == s@.skip(start as int));
    }
    let mut end: usize = n;
    proof {
        assert(s@.skip(start as int) =~= s@.subrange(start as int, n as int));
    }
    while end > start && at_space(s, end - 1)
        invariant
            n == s@.len(),
            start <= end <= n,
            spec_trim_front(s@) == s@.skip(start as int),
            spec_trim_back(s@.skip(start as int)) == spec_trim_back(
                s@.subrange(start as int, end as int),
            ),
        decreases end,
    {
        proof {
            let cur = s@.subrange(start as int, end as int);
            assert(cur.last() == s@[end - 1]);
            assert(cur.drop_last() =~= s@.subrange(start as int, end - 1));
        }
        end = end - 1;
    }
    proof {
        let cur = s@.subrange(start as int, end as int);
        if end > start {
            assert(cur.last() == s@[end - 1]);
        }
        assert(spec_trim_back(cur) == cur);
        assert(spec_trim(s@) == cur);
    }
    s.substring_char(start, end)
}

/// Parses a hashrate string such as `10T`, `2.5P` or `500E` into hashes per
/// second. Whitespace around the value is ignored. Returns exactly which part
/// was rejected otherwise.
#[verifier::rlimit(60)]
pub fn parse_hashrate(s: &str) -> (r: Result<u128, HashrateError>)
    ensures
        ({
            let t = spec_trim(s@);
            match r {
                Ok(v) => hashrate_wf(t) && hashrate_val(t) == v,
                Err(HashrateError::Empty) => t.len() == 0,
                Err(HashrateError::InvalidNumber) => t.len() >= 1 && !num_wf(t.drop_last()),
                Err(HashrateError::InvalidUnit) => t.len() >= 1 && num_wf(t.drop_last())
                    && unit_exp(t.last()) < 0,
                Err(HashrateError::TooLarge) => hashrate_wf(t) && hashrate_val(t) > u128::MAX,
            }
        }),
{
    let tstr = trim_str(s);
    let ghost t = spec_trim(s@);
    let m = tstr.unicode_len();
    if m == 0 {
        return Err(HashrateError::Empty);
    }
    proof {
        assert(tstr@ == t);
        assert(t.len() == m);
    }
    let num_len = m - 1;
    let ghost num = t.drop_last();
    proof {
        assert(num =~= t.take(num_len as int));
    }
    // Scan the number: decimal digits with at most one dot.
    let mut seen_dot = false;
    let mut dot: usize = num_len;
    let mut i: usize = 0;
    while i < num_len
        invariant
            t == spec_trim(s@),
            m == t.len(),
            num_len == m - 1,
            num == t.drop_last(),
            num.len() == num_len,
            tstr@ == t,
            i <= num_len,
            !seen_dot ==> no_dot_range(num, 0, i as int) && digits_range(num, 0, i as int),
            seen_dot ==> dot < i && num[dot as int] == '.',
            seen_dot ==> no_dot_range(num, 0, dot as int) && digits_range(num, 0, dot as int),
            seen_dot ==> digits_range(num, dot + 1, i as int),
        decreases num_len - i,
    {
        let c = tstr.get_char(i);
        proof {
            assert(num[i as int] == t[i as int]);
        }
        if '0' <= c && c <= '9' {
            proof {
                assert(is_dec_digit(num[i as int]));
                assert(num[i as int] != '.');
            }
        } else if c == '.' && !seen_dot {
            dot = i;
            seen_dot = true;
        } else {
            proof {
                assert(!is_dec_digit(num[i as int]));
                if seen_dot {
                    lemma_first_dot_at(num, dot as int);
                    assert(first_dot(num) == dot);
                    assert(num_frac_part(num) == num.skip(dot + 1));
                    assert(num_frac_part(num)[i - dot - 1] == num[i as int]);
                    assert(!all_dec_digits(num_frac_part(num)));
                } else {
                    assert(num[i as int] != '.');
                    assert(no_dot_range(num, 0, i + 1));
                    lemma_first_dot_min(num, i + 1);
                    lemma_first_dot_le(num);
                    assert(i < first_dot(num) <= num.len());
                    assert(num_int_part(num)[i as int] == num[i as int]);
                    assert(!all_dec_digits(num_int_part(num)));
                }
            }
            return Err(HashrateError::InvalidNumber);
        }
        i = i + 1;
    }
    let int_len: usize = if seen_dot {
        dot
    } else {
        num_len
    };
    let frac_len: usize = if seen_dot {
        num_len - dot - 1
    } else {
        0
    };
    proof {
        lemma_first_dot_le(num);
        lemma_first_dot_at(num, int_len as int);
        assert(first_dot(num) == int_len);
        assert(num_int_part(num) =~= num.take(int_len as int));
        if seen_dot {
            assert(num_frac_part(num) =~= num.skip(dot + 1));
        } else {
            assert(num_frac_part(num) =~= Seq::<char>::empty());
        }
        assert(num_int_part(num).len() == int_len);
        assert(num_frac_part(num).len() == frac_len);
        assert forall|j: int| 0 <= j < int_len implies is_dec_digit(
            #[trigger] num_int_part(num)[j],
        ) by {
            assert(num_int_part(num)[j] == num[j]);
        }
        assert forall|j: int| 0 <= j < frac_len implies is_dec_digit(
            #[trigger] num_frac_part(num)[j],
        ) by {
            assert(num_frac_part(num)[j] == num[int_len + 1 + j]);
        }
        assert(all_dec_digits(num_int_part(num)));
        assert(all_dec_digits(num_frac_part(num)));
    }
    if int_len == 0 && frac_len == 0 {
        return Err(HashrateError::InvalidNumber);
    }
    assert(num_wf(num));
    // The unit letter.
    let u = tstr.get_char(m - 1);
    proof {
        assert(t.last() == t[m - 1]);
    }
    let e: usize = if u == 'T' {
        12
    } else if u == 'P' {
        15
    } else if u == 'E' {
        18
    } else {
        return Err(HashrateError::InvalidUnit);
    };
    assert(unit_exp(t.last()) == e);
    assert(hashrate_wf(t));
    let used: usize = if frac_len <= e {
        frac_len
    } else {
        e
    };
    let zeros = e - used;
    let ghost padded = hashrate_digits(t);
    proof {
        assert(padded == num_int_part(num) + num_frac_part(num).take(used as int) + Seq::new(
            (e - used) as nat,
            |j: int| '0',
        ));
        assert(padded.len() == int_len + e);
        assert forall|j: int| 0 <= j < padded.len() implies is_dec_digit(#[trigger] padded[j]) by {
            if j < int_len {
                assert(padded[j] == num_int_part(num)[j]);
            } else if j < int_len + used {
                assert(padded[j] == num_frac_part(num).take(used as int)[j - int_len]);
                assert(num_frac_part(num).take(used as int)[j - int_len] == num_frac_part(num)[j
                    - int_len]);
            } else {
                assert(padded[j] == '0');
            }
        }
        assert(all_dec_digits(padded));
    }
    proof {
        assert forall|j: int| 0 <= j < int_len implies #[trigger] padded[j] == num[j] by {
            assert(padded[j] == num_int_part(num)[j]);
            assert(num_int_part(num)[j] == num[j]);
        }
        assert(padded.take(0) =~= Seq::<char>::empty());
    }
    let mut acc: u128 = 0;
    let mut pos: usize = 0;
    while pos < int_len
        invariant
            t == spec_trim(s@),
            m == t.len(),
            tstr@ == t,
            num == t.drop_last(),
            num.len() == num_len == m - 1,
            int_len <= num_len,
            hashrate_wf(t),
            padded == hashrate_digits(t),
            all_dec_digits(padded),
            padded.len() == int_len + e,
            pos <= int_len,
            acc == digits_val(padded.take(pos as int)),
            forall|j: int| 0 <= j < int_len ==> #[trigger] padded[j] == num[j],
        decreases int_len - pos,
    {
        let c = tstr.get_char(pos);
        proof {
            assert(num[pos as int] == t[pos as int]);
            assert(padded[pos as int] == num[pos as int]);
            assert(is_dec_digit(padded[pos as int]));
        }
        match push_digit(acc, c) {
            Some(next) => {
                acc = next;
                proof {
                    assert(padded.take(pos + 1).drop_last() =~= padded.take(pos as int));
                    assert(padded.take(pos + 1).last() == padded[pos as int]);
                }
                pos = pos + 1;
            },
            None => {
                proof {
                    lemma_overflow(padded, pos as int, acc as int, dec_digit_val(padded[pos as int]));
                }
                return Err(HashrateError::TooLarge);
            },
        }
    }
    proof {
        if used > 0 {
            assert(num_frac_part(num) == num.skip(int_len + 1));
        }
        assert forall|j: int| int_len <= j < int_len + used implies #[trigger] padded[j] == num[j
            + 1] by {
            assert(padded[j] == num_frac_part(num).take(used as int)[j - int_len]);
            assert(num_frac_part(num).take(used as int)[j - int_len] == num_frac_part(num)[j
                - int_len]);
            assert(num_frac_part(num)[j - int_len] == num.skip(int_len + 1)[j - int_len]);
            assert(num.skip(int_len + 1)[j - int_len] == num[j + 1]);
        }
    }
    let mut k: usize = 0;
    while k < used
        invariant
            t == spec_trim(s@),
            m == t.len(),
            tstr@ == t,
            num == t.drop_last(),
            num.len() == num_len == m - 1,
            int_len == first_dot(num),
            used > 0 ==> int_len + 1 + used <= num_len,
            used <= e,
            hashrate_wf(t),
            padded == hashrate_digits(t),
            all_dec_digits(padded),
            padded.len() == int_len + e,
            k <= used,
            acc == digits_val(padded.take(int_len + k)),
            forall|j: int|
                int_len <= j < int_len + used ==> #[trigger] padded[j] == num[j + 1],
        decreases used - k,
    {
        let c = tstr.get_char(int_len + 1 + k);
        proof {
            assert(num[int_len + 1 + k] == t[int_len + 1 + k]);
            assert(padded[int_len + k] == num[int_len + 1 + k]);
            assert(is_dec_digit(padded[int_len + k]));
        }
        match push_digit(acc, c) {
            Some(next) => {
                acc = next;
                proof {
                    assert(padded.take(int_len + k + 1).drop_last() =~= padded.take(int_len + k));
                    assert(padded.take(int_len + k + 1).last() == padded[int_len + k]);
                }
                k = k + 1;
            },
            None => {
                proof {
                    lemma_overflow(
                        padded,
                        int_len + k,
                        acc as int,
                        dec_digit_val(padded[int_len + k]),
                    );
                }
                return Err(HashrateError::TooLarge);
            },
        }
    }
    let mut z: usize = 0;
    while z < zeros
        invariant
            t == spec_trim(s@),
            hashrate_wf(t),
            padded == hashrate_digits(t),
            all_dec_digits(padded),
            padded.len() == int_len + e,
            used + zeros == e,
            z <= zeros,
            acc == digits_val(padded.take(int_len + used + z)),
            forall|j: int| int_len + used <= j < padded.len() ==> #[trigger] padded[j] == '0',
        decreases zeros - z,
    {
        proof {
            assert(padded[int_len + used + z] == '0');
            assert(dec_digit_val('0') == 0);
        }
        match push_digit(acc, '0') {
            Some(next) => {
                acc = next;
                proof {
                    assert(padded.take(int_len + used + z + 1).drop_last() =~= padded.take(
                        int_len + used + z,
                    ));
                    assert(padded.take(int_len + used + z + 1).last() == padded[int_len + used
                        + z]);
                }
                z = z + 1;
            },
            None => {
                proof {
                    lemma_overflow(padded, int_len + used + z, acc as int, 0);
                }
                return Err(HashrateError::TooLarge);
            },
        }
    }
    proof {
        assert(padded.take(padded.len() as int) =~= padded);
    }
    Ok(acc)
}

/// One decimal accumulation step `acc * 10 + c`, or `None` on overflow.
fn push_digit(acc: u128, c: char) -> (r: Option<u128>)
    requires
        is_dec_digit(c),
    ensures
        match r {
            Some(v) => v == acc * 10 + dec_digit_val(c),
            None => acc * 10 + dec_digit_val(c) > u128::MAX,
        },
{
    let d: u128 = (c as u8 - 0x30) as u128;
    proof {
        assert(c as u8 >= 0x30 && c as u8 <= 0x39);
        assert(d == dec_digit_val(c));
    }
    if acc > 34_028_236_692_093_846_346_337_460_743_176_821_145u128 {
        return None;
    }
    let shifted: u128 = acc * 10;
    if d > u128::MAX - shifted {
        return None;
    }
    Some(shifted + d)
}

/// When one accumulation step would exceed the range, the whole digit string
/// is out of range.
proof fn lemma_overflow(padded: Seq<char>, pos: int, acc: int, d: int)
    requires
        all_dec_digits(padded),
        0 <= pos < padded.len(),
        acc == digits_val(padded.take(pos)),
        dec_digit_val(padded[pos]) == d,
        acc * 10 + d > u128::MAX,
    ensures
        digits_val(padded) > u128::MAX,
{
    assert(padded.take(pos + 1).drop_last() =~= padded.take(pos));
    assert(padded.take(pos + 1).last() == padded[pos]);
    assert(digits_val(padded.take(pos + 1)) == acc * 10 + d);
    lemma_digits_val_lower(padded, pos + 1);
}


/// A digit string is worth at least any prefix of it shifted into place.
pub proof fn lemma_digits_val_lower(s: Seq<char>, i: int)
    requires
        0 <= i <= s.len(),
        all_dec_digits(s),
    ensures
        digits_val(s) >= digits_val(s.take(i)),
{
    lemma_digits_val_append(s, i);
    assert(forall|j: int| 0 <= j < s.len() - i ==> is_dec_digit(#[trigger] s.skip(i)[j]));
    assert(forall|j: int| 0 <= j < i ==> is_dec_digit(#[trigger] s.take(i)[j]));
    lemma_digits_val_nonneg(s.skip(i));
    lemma_digits_val_nonneg(s.take(i));
    lemma_pow10_pos((s.len() - i) as nat);
    let dv = digits_val(s.take(i));
    let p = pow10((s.len() - i) as nat);
    assert(dv * p >= dv * 1) by (nonlinear_arith)
        requires
            dv >= 0 && p >= 1,
    ;
}

// ---------------------------------------------------------------------------
// Log levels
// ---------------------------------------------------------------------------
/// ASCII lowercase of one character.
pub open spec fn spec_lower_char(c: char) -> char {
    if 'A' <= c && c <= 'Z' {
        (((c as u8) + 32) as char)
    } else {
        c
    }
}

/// ASCII lowercase of a string.
pub open spec fn lower_seq(s: Seq<char>) -> Seq<char> {
    Seq::new(s.len(), |i: int| spec_lower_char(s[i]))
}

/// The verbosity names the proxy recognises.
pub open spec fn is_valid_level(s: Seq<char>) -> bool {
    s == "trace"@ || s == "debug"@ || s == "info"@ || s == "warn"@ || s == "error"@ || s == "off"@
}

fn lower_char(c: char) -> (r: char)
    ensures
        r == spec_lower_char(c),
{
    if 'A' <= c && c <= 'Z' {
        ((c as u8) + 32) as char
    } else {
        c
    }
}

/// Whether the ASCII-lowercased `s` equals `w`.
fn str_eq_lower(s: &str, w: &str) -> (b: bool)
    ensures
        b == (lower_seq(s@) == w@),
{
    let n = s.unicode_len();
    let m = w.unicode_len();
    if n != m {
        proof {
            assert(lower_seq(s@).len() != w@.len());
        }
        return false;
    }
    let mut i: usize = 0;
    while i < n
        invariant
            n == s@.len() == w@.len(),
            i <= n,
            forall|j: int| 0 <= j < i ==> #[trigger] lower_seq(s@)[j] == w@[j],
        decreases n - i,
    {
        let a = lower_char(s.get_char(i));
        let b = w.get_char(i);
        if a != b {
            proof {
                assert(lower_seq(s@)[i as int] != w@[i as int]);
            }
            return false;
        }
        proof {
            assert(lower_seq(s@)[i as int] == w@[i as int]);
        }
        i = i + 1;
    }
    proof {
        assert(lower_seq(s@) =~= w@);
    }
    true
}

/// Whether `s` equals `w` character for character.
fn str_eq(s: &str, w: &str) -> (b: bool)
    ensures
        b == (s@ == w@),
{
    let n = s.unicode_len();
    let m = w.unicode_len();
    if n != m {
        return false;
    }
    let mut i: usize = 0;
    while i < n
        invariant
            n == s@.len() == w@.len(),
            i <= n,
            forall|j: int| 0 <= j < i ==> #[trigger] s@[j] == w@[j],
        decreases n - i,
    {
        let a = s.get_char(i);
        let b = w.get_char(i);
        if a != b {
            return false;
        }
        i = i + 1;
    }
    proof {
        assert(s@ =~= w@);
    }
    true
}

/// Whether `s` names a verbosity level, ignoring ASCII case.
pub fn level_valid_lower(s: &str) -> (b: bool)
    ensures
        b == is_valid_level(lower_seq(s@)),
{
    str_eq_lower(s, "trace") || str_eq_lower(s, "debug") || str_eq_lower(s, "info") || str_eq_lower(
        s,
        "warn",
    ) || str_eq_lower(s, "error") || str_eq_lower(s, "off")
}

/// Whether `s` names a verbosity level exactly.
pub fn level_valid(s: &str) -> (b: bool)
    ensures
        b == is_valid_level(s@),
{
    str_eq(s, "trace") || str_eq(s, "debug") || str_eq(s, "info") || str_eq(s, "warn") || str_eq(
        s,
        "error",
    ) || str_eq(s, "off")
}

// ---------------------------------------------------------------------------
// The merged configuration
// ---------------------------------------------------------------------------
/// What a decimal digit string denotes as a `u128`, for environment
/// variables that carry a plain number.
pub open spec fn spec_parse_u128(s: Seq<char>) -> Option<u128> {
    if s.len() > 0 && all_dec_digits(s) && digits_val(s) <= u128::MAX {
        Some(digits_val(s) as u128)
    } else {
        None
    }
}

/// Parses a decimal digit string into a `u128`.
pub fn parse_u128_digits(s: &str) -> (r: Option<u128>)
    ensures
        r == spec_parse_u128(s@),
{
    proof {
        if s@.len() > 0 && all_dec_digits(s@) {
            lemma_digits_val_nonneg(s@);
        }
    }
    let n = s.unicode_len();
    if n == 0 {
        return None;
    }
    let mut acc: u128 = 0;
    let mut i: usize = 0;
    while i < n
        invariant
            0 < n == s@.len(),
            i <= n,
            all_dec_digits(s@.take(i as int)),
            acc == digits_val(s@.take(i as int)),
        decreases n - i,
    {
        let c = s.get_char(i);
        if c < '0' || c > '9' {
            assert(!is_dec_digit(s@[i as int]));
            return None;
        }
        match push_digit(acc, c) {
            Some(next) => {
                acc = next;
                proof {
                    assert(s@.take(i + 1).drop_last() =~= s@.take(i as int));
                    assert(s@.take(i + 1).last() == s@[i as int]);
                    assert(forall|j: int|
                        0 <= j < i ==> is_dec_digit(#[trigger] s@.take(i + 1)[j]));
                    assert(s@.take(i + 1)[i as int] == s@[i as int]);
                }
                i = i + 1;
            },
            None => {
                proof {
                    assert(s@.take(i + 1).drop_last() =~= s@.take(i as int));
                    assert(s@.take(i + 1).last() == s@[i as int]);
                    assert(digits_val(s@.take(i + 1)) > u128::MAX);
                    if all_dec_digits(s@) {
                        lemma_digits_val_lower(s@, i + 1);
                    }
                }
                return None;
            },
        }
    }
    proof {
        assert(s@.take(n as int) =~= s@);
    }
    Some(acc)
}

/// The option value a setting takes: the command line wins, then the
/// environment, then the file.
pub open spec fn pick3<T>(a: Option<T>, b: Option<T>, c: Option<T>) -> Option<T> {
    if a is Some {
        a
    } else if b is Some {
        b
    } else {
        c
    }
}

impl Configuration {
    /// Merges the three option sources into the running configuration,
    /// command line first, then environment, then file, then built-in
    /// defaults. A numeric environment value that does not parse counts as
    /// unset, and so does a file hashrate that `parse_hashrate` rejects.
    pub fn load_config(args: CliArgs, file: ConfigFile, env: EnvOptions) -> (r: Configuration)
        ensures
            r.token == pick3(args.token, env.token, file.token),
            r.tp_address == pick3(args.tp_address, env.tp_address, file.tp_address),
            r.interval == ({
                let parsed = match env.interval {
                    Some(s) => spec_parse_u64(s@),
                    None => None,
                };
                match pick3(args.adjustment_interval, parsed, file.interval) {
                    Some(v) => v,
                    None => DEFAULT_INTERVAL_MS,
                }
            }),
            r.delay == ({
                let parsed = match env.delay {
                    Some(s) => spec_parse_u64(s@),
                    None => None,
                };
                match pick3(args.delay, parsed, file.delay) {
                    Some(v) => v,
                    None => 0u64,
                }
            }),
            r.downstream_hashrate == ({
                let from_file = match file.downstream_hashrate {
                    Some(s) => {
                        let t = spec_trim(s@);
                        if hashrate_wf(t) && hashrate_val(t) <= u128::MAX {
                            Some(hashrate_val(t) as u128)
                        } else {
                            None
                        }
                    },
                    None => None,
                };
                let from_env = match env.downstream_hashrate {
                    Some(s) => spec_parse_u128(s@),
                    None => None,
                };
                match pick3(args.downstream_hashrate, from_env, from_file) {
                    Some(v) => v,
                    None => DEFAULT_SV1_HASHPOWER,
                }
            }),
            r.listening_addr == pick3(args.listening_addr, env.listening_addr, file.listening_addr),
            ({
                let picked = pick3(args.api_server_port, env.api_server_port, file.api_server_port);
                match picked {
                    Some(p) => r.api_server_port == p,
                    None => r.api_server_port@ == "3001"@,
                }
            }),
            ({
                let picked = pick3(args.loglevel, env.loglevel, file.loglevel);
                match picked {
                    Some(p) => r.loglevel == p,
                    None => r.loglevel@ == "info"@,
                }
            }),
            ({
                let picked = pick3(args.noise_connection_log, env.nc_loglevel, file.nc_loglevel);
                match picked {
                    Some(p) => r.nc_loglevel == p,
                    None => r.nc_loglevel@ == "off"@,
                }
            }),
            r.sv1_log == (args.sv1_loglevel || (file.sv1_log is Some && file.sv1_log->0)
                || env.sv1_log_set),
            r.staging == (args.staging || (file.staging is Some && file.staging->0)
                || env.staging_set),
            r.local == (args.local || (file.local is Some && file.local->0) || env.local_set),
            r.monitor == (args.monitor || (file.monitor is Some && file.monitor->0)
                || env.monitor_set),
            r.auto_update == (args.auto_update || (file.auto_update is None || file.auto_update->0)
                || env.auto_update_set),
    {
        let token = or3(args.token, env.token, file.token);
        let tp_address = or3(args.tp_address, env.tp_address, file.tp_address);
        let env_interval = match env.interval {
            Some(s) => parse_u64_digits(s.as_str()),
            None => None,
        };
        let interval = match or3(args.adjustment_interval, env_interval, file.interval) {
            Some(v) => v,
            None => DEFAULT_INTERVAL_MS,
        };
        let env_delay = match env.delay {
            Some(s) => parse_u64_digits(s.as_str()),
            None => None,
        };
        let delay = match or3(args.delay, env_delay, file.delay) {
            Some(v) => v,
            None => 0,
        };
        let file_hashrate = match file.downstream_hashrate {
            Some(s) => match parse_hashrate(s.as_str()) {
                Ok(v) => Some(v),
                Err(_) => None,
            },
            None => None,
        };
        let env_hashrate = match env.downstream_hashrate {
            Some(s) => parse_u128_digits(s.as_str()),
            None => None,
        };
        let downstream_hashrate = match or3(args.downstream_hashrate, env_hashrate, file_hashrate) {
            Some(v) => v,
            None => DEFAULT_SV1_HASHPOWER,
        };
        let listening_addr = or3(args.listening_addr, env.listening_addr, file.listening_addr);
        let api_server_port = match or3(args.api_server_port, env.api_server_port, file.api_server_port) {
            Some(p) => p,
            None => "3001".to_owned(),
        };
        let loglevel = match or3(args.loglevel, env.loglevel, file.loglevel) {
            Some(p) => p,
            None => "info".to_owned(),
        };
        let nc_loglevel = match or3(args.noise_connection_log, env.nc_loglevel, file.nc_loglevel) {
            Some(p) => p,
            None => "off".to_owned(),
        };
        let sv1_log = args.sv1_loglevel || unwrap_or_false(&file.sv1_log) || env.sv1_log_set;
        let staging = args.staging || unwrap_or_false(&file.staging) || env.staging_set;
        let local = args.local || unwrap_or_false(&file.local) || env.local_set;
        let monitor = args.monitor || unwrap_or_false(&file.monitor) || env.monitor_set;
        let auto_update = args.auto_update || unwrap_or_true(&file.auto_update)
            || env.auto_update_set;
        Configuration {
            token,
            tp_address,
            interval,
            delay,
            downstream_hashrate,
            loglevel,
            nc_loglevel,
            sv1_log,
            staging,
            local,
            listening_addr,
            api_server_port,
            monitor,
            auto_update,
        }
    }

    pub fn token(&self) -> (r: &Option<String>)
        ensures
            r == &self.token,
    {
        &self.token
    }

    pub fn tp_address(&self) -> (r: &Option<String>)
        ensures
            r == &self.tp_address,
    {
        &self.tp_address
    }

    pub fn adjustment_interval(&self) -> (r: u64)
        ensures
            r == self.interval,
    {
        self.interval
    }

    pub fn delay(&self) -> (r: u64)
        ensures
            r == self.delay,
    {
        self.delay
    }

    pub fn downstream_hashrate(&self) -> (r: u128)
        ensures
            r == self.downstream_hashrate,
    {
        self.downstream_hashrate
    }

    pub fn downstream_listening_addr(&self) -> (r: &Option<String>)
        ensures
            r == &self.listening_addr,
    {
        &self.listening_addr
    }

    pub fn api_server_port(&self) -> (r: &String)
        ensures
            r == &self.api_server_port,
    {
        &self.api_server_port
    }

    /// The configured verbosity when it is one of the recognised names
    /// (ignoring case), `info` otherwise.
    pub fn loglevel(&self) -> (r: &str)
        ensures
            is_valid_level(lower_seq(self.loglevel@)) ==> r@ == self.loglevel@,
            !is_valid_level(lower_seq(self.loglevel@)) ==> r@ == "info"@,
    {
        if level_valid_lower(self.loglevel.as_str()) {
            self.loglevel.as_str()
        } else {
            "info"
        }
    }

    /// The configured transport-handshake verbosity when it is one of the
    /// recognised names exactly, `off` otherwise.
    pub fn nc_loglevel(&self) -> (r: &str)
        ensures
            is_valid_level(self.nc_loglevel@) ==> r@ == self.nc_loglevel@,
            !is_valid_level(self.nc_loglevel@) ==> r@ == "off"@,
    {
        if level_valid(self.nc_loglevel.as_str()) {
            self.nc_loglevel.as_str()
        } else {
            "off"
        }
    }

    pub fn sv1_ingress_log(&self) -> (r: bool)
        ensures
            r == self.sv1_log,
    {
        self.sv1_log
    }

    pub fn staging(&self) -> (r: bool)
        ensures
            r == self.staging,
    {
        self.staging
    }

    pub fn local(&self) -> (r: bool)
        ensures
            r == self.local,
    {
        self.local
    }

    /// The environment this proxy reports against: `staging` wins over
    /// `local`, and with neither flag the proxy runs against `production`.
    pub fn environment(&self) -> (r: String)
        ensures
            self.staging ==> r@ == "staging"@,
            !self.staging && self.local ==> r@ == "local"@,
            !self.staging && !self.local ==> r@ == "production"@,
    {
        if self.staging {
            "staging".to_owned()
        } else if self.local {
            "local".to_owned()
        } else {
            "production".to_owned()
        }
    }

    pub fn monitor(&self) -> (r: bool)
        ensures
            r == self.monitor,
    {
        self.monitor
    }

    pub fn auto_update(&self) -> (r: bool)
        ensures
            r == self.auto_update,
    {
        self.auto_update
    }
}

/// First present value of three alternatives.
fn or3<T>(a: Option<T>, b: Option<T>, c: Option<T>) -> (r: Option<T>)
    ensures
        r == pick3(a, b, c),
{
    match a {
        Some(v) => Some(v),
        None => match b {
            Some(v) => Some(v),
            None => c,
        },
    }
}

fn unwrap_or_false(v: &Option<bool>) -> (r: bool)
    ensures
        r == (v is Some && v->0),
{
    match v {
        Some(b) => *b,
        None => false,
    }
}

fn unwrap_or_true(v: &Option<bool>) -> (r: bool)
    ensures
        r == (v is None || v->0),
{
    match v {
        Some(b) => *b,
        None => true,
    }
}

} // verus!
