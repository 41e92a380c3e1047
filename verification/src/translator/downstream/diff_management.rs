//! Per-miner difficulty adaptation. The controller watches the share cadence
//! of one miner and moves its difficulty so that the observed rate meets the
//! configured target, in round powers of ten, never outside the bounds the
//! upstream channel imposes.
use vstd::prelude::*;

verus! {

/// Share rate the proxy aims for, in shares per minute per miner.
pub const SHARE_PER_MIN: u64 = 6;

/// The relative dead zone: measured rates within a fifth of the target leave
/// the difficulty alone.
pub const DEAD_ZONE_FIFTH: u64 = 5;

/// The largest power of ten not above `d` (1 for `d` below 10).
pub open spec fn floor_pow10(d: nat) -> nat
    decreases d,
{
    if d < 10 {
        1
    } else {
        10 * floor_pow10(d / 10)
    }
}

/// The power of ten nearest to `d`, downward on ties; zero snaps to one. The
/// step up is only taken when it stays representable in 64 bits — for any
/// 64-bit `d` the unrepresentable step up is also never the nearer one.
pub open spec fn snap10(d: nat) -> nat {
    let lo = floor_pow10(d);
    if 10 * lo > u64::MAX {
        lo
    } else if d <= lo || d - lo <= 10 * lo - d {
        lo
    } else {
        10 * lo
    }
}

pub proof fn lemma_floor_pow10_le(d: nat)
    requires
        d >= 1,
    ensures
        floor_pow10(d) <= d,
    decreases d,
{
    if d >= 10 {
        lemma_floor_pow10_le(d / 10);
        let f = floor_pow10(d / 10);
        assert(f <= d / 10);
        assert(10 * f <= 10 * (d / 10)) by (nonlinear_arith)
            requires
                f <= d / 10,
        ;
        assert(10 * (d / 10) <= d);
    }
}

pub proof fn lemma_floor_pow10_above(d: nat)
    ensures
        d < 10 * floor_pow10(d),
    decreases d,
{
    if d >= 10 {
        lemma_floor_pow10_above(d / 10);
        let f = floor_pow10(d / 10);
        assert(d / 10 + 1 <= 10 * f);
        assert(10 * (d / 10 + 1) <= 10 * (10 * f)) by (nonlinear_arith)
            requires
                d / 10 + 1 <= 10 * f,
        ;
        assert(d < 10 * (d / 10) + 10);
    }
}

/// Snaps a difficulty to the nearest round power of ten.
pub fn nearest_power_of_10(d: u64) -> (r: u64)
    ensures
        r == snap10(d as nat),
{
    if d == 0 {
        return 1;
    }
    let big: u128 = d as u128;
    let mut lo: u128 = 1;
    let mut x: u128 = big;
    proof {
        assert(1 * x == big);
    }
    while x >= 10
        invariant
            x >= 1,
            big == d,
            d >= 1,
            floor_pow10(d as nat) == lo * floor_pow10(x as nat),
            lo * x <= big,
            lo >= 1,
        decreases x,
    {
        proof {
            let l = lo as int;
            let xx = x as int;
            assert((10 * l) * (xx / 10) <= l * xx) by (nonlinear_arith)
                requires
                    l >= 1 && xx >= 10,
            ;
            assert(floor_pow10(x as nat) == 10 * floor_pow10((x as nat) / 10));
            assert(lo * (10 * floor_pow10((x as nat) / 10)) == (10 * lo) * floor_pow10(
                (x as nat) / 10,
            )) by (nonlinear_arith);
            assert(10 * l <= l * xx) by (nonlinear_arith)
                requires
                    l >= 1 && xx >= 10,
            ;
        }
        lo = lo * 10;
        x = x / 10;
    }
    proof {
        assert(floor_pow10(x as nat) == 1);
        assert(lo * 1 == lo);
        assert(lo == floor_pow10(d as nat));
        assert(lo <= big) by (nonlinear_arith)
            requires
                lo * x <= big && x >= 1 && lo >= 1,
        ;
        lemma_floor_pow10_above(d as nat);
    }
    let hi: u128 = lo * 10;
    let lo64: u64 = lo as u64;
    if hi > u64::MAX as u128 {
        lo64
    } else if big - lo <= hi - big {
        lo64
    } else {
        hi as u64
    }
}

/// The starting difficulty for a miner that declared `hashrate` hashes per
/// second, aiming at `share_per_min` shares per minute, snapped to a round
/// power of ten: the raw value is `hashrate / (rate_per_second * 2^32)`.
pub open spec fn spec_initial_difficulty(hashrate: nat, share_per_min: nat) -> nat {
    snap10(hashrate * 60 / (share_per_min * 0x1_0000_0000))
}

/// Computes the starting difficulty for a declared hashrate.
pub fn initial_difficulty(hashrate: u128, share_per_min: u64) -> (r: u64)
    requires
        share_per_min >= 1,
        hashrate <= 1_000_000_000_000_000_000_000_000_000u128,
    ensures
        r == spec_initial_difficulty(hashrate as nat, share_per_min as nat),
{
    let denom: u128 = (share_per_min as u128) * 0x1_0000_0000;
    proof {
        assert(denom >= 0x1_0000_0000) by (nonlinear_arith)
            requires
                share_per_min >= 1 && denom == (share_per_min as int) * 0x1_0000_0000,
        ;
        assert(hashrate * 60 <= 60_000_000_000_000_000_000_000_000_000int);
    }
    let raw: u128 = (hashrate * 60) / denom;
    proof {
        let h60 = (hashrate * 60) as int;
        let dn = denom as int;
        assert(h60 / dn <= h60 / 0x1_0000_0000) by (nonlinear_arith)
            requires
                h60 >= 0 && dn >= 0x1_0000_0000,
        ;
        assert(60_000_000_000_000_000_000_000_000_000int / 0x1_0000_0000 <= u64::MAX);
        assert(h60 / 0x1_0000_0000 <= 60_000_000_000_000_000_000_000_000_000int / 0x1_0000_0000)
            by (nonlinear_arith)
            requires
                0 <= h60 <= 60_000_000_000_000_000_000_000_000_000int,
        ;
        assert(raw <= u64::MAX as u128);
    }
    nearest_power_of_10(raw as u64)
}

/// The measured share rate in shares per minute, from `shares` submissions
/// over a window of `window_ms` milliseconds.
pub open spec fn spec_measured_rate(shares: nat, window_ms: nat) -> nat {
    shares * 60_000 / window_ms
}

/// Whether the measured rate lies outside the dead zone around the target:
/// adjustment happens only when it misses the target by a fifth or more.
pub open spec fn needs_adjustment(measured: nat, target: nat) -> bool {
    if measured >= target {
        (measured - target) * DEAD_ZONE_FIFTH >= target
    } else {
        (target - measured) * DEAD_ZONE_FIFTH >= target
    }
}

pub open spec fn spec_clamp(v: nat, lo: nat, hi: nat) -> nat {
    if v < lo {
        lo
    } else if v > hi {
        hi
    } else {
        v
    }
}

/// What one adjustment tick proposes: `None` when the rate is inside the
/// dead zone or the proposal equals the current difficulty; otherwise the
/// new difficulty, scaled by measured over target, snapped to a power of
/// ten, and held inside `[d_min, d_max]` so that the miner's target can
/// never fall outside what the upstream channel accepts.
pub open spec fn spec_adjusted(
    current: nat,
    measured: nat,
    target: nat,
    d_min: nat,
    d_max: nat,
) -> Option<u64> {
    if !needs_adjustment(measured, target) {
        None
    } else {
        let proposal = spec_clamp(
            snap10(spec_clamp(current * measured / target, d_min, d_max)),
            d_min,
            d_max,
        );
        if proposal == current {
            None
        } else {
            Some(proposal as u64)
        }
    }
}

/// One adjustment tick for a miner at difficulty `current` whose ring shows
/// `shares` submissions over `window_ms`: proposes a new difficulty, or
/// `None` to leave it alone. The bounds come from the upstream channel; the
/// proposal never leaves them.
pub fn update_difficulty(
    current: u64,
    shares: u64,
    window_ms: u64,
    target_spm: u64,
    d_min: u64,
    d_max: u64,
) -> (r: Option<u64>)
    requires
        window_ms >= 1,
        target_spm >= 1,
        1 <= d_min <= d_max,
        shares <= 0x1_0000_0000,
    ensures
        r == spec_adjusted(
            current as nat,
            spec_measured_rate(shares as nat, window_ms as nat),
            target_spm as nat,
            d_min as nat,
            d_max as nat,
        ),
        r matches Some(v) ==> d_min <= v <= d_max,
{
    let measured: u128 = ((shares as u128) * 60_000) / (window_ms as u128);
    proof {
        let s60 = ((shares as int) * 60_000) as int;
        let w = window_ms as int;
        assert(s60 / w <= s60) by (nonlinear_arith)
            requires
                s60 >= 0 && w >= 1,
        ;
        assert(measured <= 0x1_0000_0000u128 * 60_000);
    }
    let t: u128 = target_spm as u128;
    let outside = if measured >= t {
        (measured - t) * (DEAD_ZONE_FIFTH as u128) >= t
    } else {
        (t - measured) * (DEAD_ZONE_FIFTH as u128) >= t
    };
    if !outside {
        return None;
    }
    proof {
        let c = current as int;
        let m = measured as int;
        assert(c * m <= 0xffff_ffff_ffff_ffff * (0x1_0000_0000 * 60_000)) by (nonlinear_arith)
            requires
                0 <= c <= 0xffff_ffff_ffff_ffff && 0 <= m <= 0x1_0000_0000 * 60_000,
        ;
    }
    let raw: u128 = (current as u128) * measured / t;
    let clamped: u64 = if raw < d_min as u128 {
        d_min
    } else if raw > d_max as u128 {
        d_max
    } else {
        raw as u64
    };
    let snapped = nearest_power_of_10(clamped);
    let proposal: u64 = if snapped < d_min {
        d_min
    } else if snapped > d_max {
        d_max
    } else {
        snapped
    };
    if proposal == current {
        None
    } else {
        Some(proposal)
    }
}

/// How many recorded timestamps fall inside the window ending now.
pub open spec fn count_in_window(times: Seq<u64>, now_ms: nat, window_ms: nat) -> nat
    decreases times.len(),
{
    if times.len() == 0 {
        0
    } else {
        (if times.last() + window_ms > now_ms {
            1nat
        } else {
            0nat
        }) + count_in_window(times.drop_last(), now_ms, window_ms)
    }
}

/// Counts the submissions whose timestamp still lies inside the window of
/// `window_ms` milliseconds ending at `now_ms`.
pub fn shares_in_window(times: &Vec<u64>, now_ms: u64, window_ms: u64) -> (r: u64)
    requires
        times@.len() <= u64::MAX,
    ensures
        r == count_in_window(times@, now_ms as nat, window_ms as nat),
        r <= times@.len(),
{
    let n = times.len();
    let mut count: u64 = 0;
    let mut i: usize = 0;
    proof {
        assert(times@.take(0) =~= Seq::<u64>::empty());
    }
    while i < n
        invariant
            n == times@.len() <= u64::MAX,
            i <= n,
            count == count_in_window(times@.take(i as int), now_ms as nat, window_ms as nat),
            count <= i,
        decreases n - i,
    {
        let t = times[i];
        proof {
            let cur = times@.take(i + 1);
            assert(cur.drop_last() =~= times@.take(i as int));
            assert(cur.last() == times@[i as int]);
        }
        if window_ms > u64::MAX - t {
            // The window reaches past any representable clock: inside.
            count = count + 1;
        } else if t + window_ms > now_ms {
            count = count + 1;
        }
        i = i + 1;
    }
    proof {
        assert(times@.take(n as int) =~= times@);
    }
    count
}

/// The hashrate estimate published to the bridge: `shares * 2^32 * current
/// difficulty / window seconds`.
pub open spec fn spec_hashrate_estimate(shares: nat, current: nat, window_s: nat) -> nat {
    shares * 0x1_0000_0000 * current / window_s
}

/// Estimates the hashrate behind `shares` submissions at difficulty
/// `current` over `window_s` seconds.
pub fn hashrate_estimate(shares: u64, current: u64, window_s: u64) -> (r: u128)
    requires
        window_s >= 1,
        shares <= 0x1_0000_0000,
    ensures
        r == spec_hashrate_estimate(shares as nat, current as nat, window_s as nat),
{
    proof {
        let s = shares as int;
        let c = current as int;
        assert(s * 0x1_0000_0000 * c <= 0x1_0000_0000 * 0x1_0000_0000 * 0xffff_ffff_ffff_ffff)
            by (nonlinear_arith)
            requires
                0 <= s <= 0x1_0000_0000 && 0 <= c <= 0xffff_ffff_ffff_ffff,
        ;
    }
    let prod: u128 = (shares as u128) * 0x1_0000_0000 * (current as u128);
    prod / (window_s as u128)
}

} // verus!
