use translator_proxy::translator::downstream::accept_connection::open_downstream;
use translator_proxy::translator::downstream::diff_management::{
    hashrate_estimate, initial_difficulty, nearest_power_of_10, shares_in_window,
    update_difficulty, SHARE_PER_MIN,
};
use translator_proxy::translator::proxy::bridge::{
    share_meets_target, Bridge, BridgeError, PrevHashUpdate, SubmitOutcome, V2Job,
};
use translator_proxy::translator::downstream::downstream::{CachedJob, TranslatedShare};

fn ready_bridge() -> Bridge {
    let mut b = Bridge::new(vec![0xaau8, 0xbb], 6, 1, 4);
    b.set_upstream_open();
    b.on_new_job(100, 0x20000000).unwrap();
    b
}

#[test]
fn bridge_refuses_connections_before_ready() {
    let mut b = Bridge::new(vec![0xaau8], 6, 1, 4);
    assert!(!b.ready());
    assert!(matches!(
        b.on_new_sv1_connection(1000),
        Err(BridgeError::UpstreamNotReady)
    ));
    b.set_upstream_open();
    // Still no job cached.
    assert!(!b.ready());
    b.on_new_job(100, 0x20000000).unwrap();
    assert!(b.ready());
}

#[test]
fn channels_get_disjoint_extranonces_with_the_upstream_prefix() {
    let mut b = ready_bridge();
    let mut seen = Vec::new();
    for _ in 0..4 {
        let opened = b.on_new_sv1_connection(1000).expect("space available");
        assert_eq!(&opened.extranonce[0..2], &[0xaa, 0xbb]);
        assert_eq!(opened.extranonce.len(), 3);
        assert_eq!(opened.extranonce2_len, 5);
        assert!(!seen.contains(&opened.extranonce));
        seen.push(opened.extranonce);
    }
}

#[test]
fn max_channels_exhausts_extranonce_space() {
    // S6: with every index live, the next connection is refused.
    let mut b = ready_bridge();
    for _ in 0..4 {
        b.on_new_sv1_connection(1000).expect("space available");
    }
    assert!(matches!(
        b.on_new_sv1_connection(1000),
        Err(BridgeError::NoExtranonceSpace)
    ));
    // Releasing one frees its index for the next miner.
    assert!(b.release_channel(2));
    let reopened = b.on_new_sv1_connection(500).expect("index freed");
    assert_eq!(reopened.channel_id, 2);
}

#[test]
fn release_returns_the_hashrate() {
    let mut b = ready_bridge();
    let a = b.on_new_sv1_connection(1000).unwrap();
    let _b2 = b.on_new_sv1_connection(500).unwrap();
    assert_eq!(b.aggregate_hashrate(), 1500);
    assert!(b.release_channel(a.channel_id));
    assert_eq!(b.aggregate_hashrate(), 500);
    // Releasing an unknown channel changes nothing.
    assert!(!b.release_channel(99));
    assert_eq!(b.aggregate_hashrate(), 500);
}

#[test]
fn job_ids_are_monotone() {
    let mut b = ready_bridge();
    // One id was already issued to make the bridge ready.
    assert_eq!(b.on_new_job(101, 0x20000000), Some(1));
    assert_eq!(b.on_new_job(102, 0x20000000), Some(2));
    assert_eq!(b.on_new_job(103, 0x20000000), Some(3));
}

#[test]
fn new_sessions_start_on_the_cached_job() {
    let mut b = ready_bridge();
    let opened = b.on_new_sv1_connection(1000).unwrap();
    assert_eq!(
        opened.last_notify,
        Some(CachedJob { v1_id: 0, v2_job_id: 100, version: 0x20000000 })
    );
    b.on_new_job(101, 0x20000000);
    let opened2 = b.on_new_sv1_connection(1000).unwrap();
    assert_eq!(
        opened2.last_notify,
        Some(CachedJob { v1_id: 1, v2_job_id: 101, version: 0x20000000 })
    );
}

#[test]
fn submit_outcomes() {
    let mut b = ready_bridge();
    let opened = b.on_new_sv1_connection(1000).unwrap();
    let share = TranslatedShare {
        job_id_v2: 5,
        version: 0x20000000,
        extranonce: vec![0xaau8, 0xbb, 0x00, 1, 2, 3, 4],
        ntime: 0x64000000,
        nonce: 9,
    };
    match b.on_sv1_submit(opened.channel_id, share, true) {
        SubmitOutcome::ForwardedPending(frame) => {
            assert_eq!(frame.channel_id, opened.channel_id);
            assert_eq!(frame.sequence_number, 0);
            assert_eq!(frame.job_id, 5);
            assert_eq!(frame.nonce, 9);
        }
        _ => panic!("valid share must forward"),
    }
    let share2 = TranslatedShare {
        job_id_v2: 5,
        version: 0x20000000,
        extranonce: vec![],
        ntime: 0,
        nonce: 0,
    };
    assert!(matches!(
        b.on_sv1_submit(opened.channel_id, share2, false),
        SubmitOutcome::RejectedLocally(_)
    ));
    let share3 = TranslatedShare {
        job_id_v2: 5,
        version: 0,
        extranonce: vec![],
        ntime: 0,
        nonce: 0,
    };
    assert!(matches!(
        b.on_sv1_submit(77, share3, true),
        SubmitOutcome::RejectedLocally(_)
    ));
}

#[test]
fn open_downstream_sets_the_starting_difficulty() {
    let mut b = ready_bridge();
    // 100 TH/s at six shares per minute lands on a round hundred thousand.
    let mut d = open_downstream(&mut b, 100_000_000_000_000, 1, 1_000_000_000_000).expect("bridge ready");
    assert_eq!(d.current_difficulty, 100_000);
    assert_eq!(d.extranonce2_len, 5);
    assert_eq!(&d.extranonce1[0..2], &[0xaa, 0xbb]);
    // The cached job is carried in and resolves once the miner configures.
    assert_eq!(
        d.first_job,
        Some(CachedJob { v1_id: 0, v2_job_id: 100, version: 0x20000000 })
    );
    d.handle_configure(Some(0xffffffff), Some(2));
    let share = d
        .handle_submit(0, vec![0u8; 5], 0x64000000, 7, None, 0)
        .expect("the registered starting job resolves");
    assert_eq!(share.job_id_v2, 100);
}

#[test]
fn nearest_power_of_ten_snaps() {
    assert_eq!(nearest_power_of_10(0), 1);
    assert_eq!(nearest_power_of_10(1), 1);
    assert_eq!(nearest_power_of_10(5), 1);
    assert_eq!(nearest_power_of_10(6), 10);
    assert_eq!(nearest_power_of_10(10), 10);
    assert_eq!(nearest_power_of_10(94), 100);
    assert_eq!(nearest_power_of_10(549), 100);
    assert_eq!(nearest_power_of_10(551), 1000);
    assert_eq!(nearest_power_of_10(u64::MAX), 10_000_000_000_000_000_000);
}

#[test]
fn initial_difficulty_formula() {
    // 100 TH/s, 6 shares/min: 1e14 / (0.1 * 2^32) ~ 232830, snapped down.
    assert_eq!(initial_difficulty(100_000_000_000_000, SHARE_PER_MIN), 100_000);
    assert_eq!(initial_difficulty(0, SHARE_PER_MIN), 1);
}

#[test]
fn vardiff_scales_with_the_measured_rate() {
    // S3 shape: ten shares in one second against one per second moves the
    // difficulty up by ten, already a round power of ten.
    let r = update_difficulty(100, 10, 1000, 60, 1, 1_000_000_000);
    assert_eq!(r, Some(1000));
}

#[test]
fn vardiff_dead_zone_keeps_difficulty() {
    // Measured equals the target: nothing to do.
    let r = update_difficulty(100, 6, 60_000, 6, 1, 1_000_000_000);
    assert_eq!(r, None);
    // Ten percent over: still inside the dead zone.
    let r2 = update_difficulty(1000, 66, 600_000, 6, 1, 1_000_000_000);
    assert_eq!(r2, None);
}

#[test]
fn vardiff_never_leaves_the_channel_bounds() {
    // The scale factor pushes far above the cap; the proposal must hold it.
    let r = update_difficulty(1_000_000, 1000, 1000, 1, 1, 10_000_000);
    assert_eq!(r, Some(10_000_000));
    // And never below the floor.
    let r2 = update_difficulty(100, 0, 600_000, 6, 50, 5_000_000);
    assert_eq!(r2, Some(50));
}

#[test]
fn hashrate_estimate_formula() {
    // One share at difficulty one over one second is 2^32 hashes.
    assert_eq!(hashrate_estimate(1, 1, 1), 4_294_967_296);
    assert_eq!(hashrate_estimate(10, 100_000, 60), 10u128 * 4_294_967_296 * 100_000 / 60);
}

#[test]
fn window_counting_drops_old_timestamps() {
    let times = vec![1_000u64, 5_000, 9_000, 12_000];
    // A five-second window ending at t=12s keeps the last two.
    assert_eq!(shares_in_window(&times, 12_000, 5_000), 2);
    assert_eq!(shares_in_window(&times, 12_000, 60_000), 4);
    assert_eq!(shares_in_window(&vec![], 12_000, 5_000), 0);
}

#[test]
fn upstream_job_translates_to_a_notify() {
    let mut b = ready_bridge();
    let job = V2Job {
        job_id: 11,
        version: 0x20000000,
        coinbase1: vec![0x01u8, 0x02],
        coinbase2: vec![0x03u8],
        merkle_branches: vec![vec![0xaau8], vec![0xbbu8, 0xcc]],
    };
    let ph = PrevHashUpdate {
        prev_hash: vec![0x00u8, 0x11, 0x22],
        nbits: 0x1d00ffff,
        ntime: 0x64000000,
    };
    let n = b.build_notify(&job, &ph, true).expect("id space left");
    // One id was already issued to make the bridge ready.
    assert_eq!(n.job_id, 1);
    assert_eq!(n.prev_hash, vec![0x00, 0x11, 0x22]);
    assert_eq!(n.coinbase1, vec![0x01, 0x02]);
    assert_eq!(n.coinbase2, vec![0x03]);
    assert_eq!(n.merkle_branches, vec![vec![0xaa], vec![0xbb, 0xcc]]);
    assert_eq!(n.version, 0x20000000);
    assert_eq!(n.nbits, 0x1d00ffff);
    assert_eq!(n.ntime, 0x64000000);
    assert!(n.clean_jobs);
    // The next notification gets the next id; newly admitted sessions
    // start on the latest one.
    let n2 = b.build_notify(&job, &ph, false).unwrap();
    assert_eq!(n2.job_id, 2);
    assert!(!n2.clean_jobs);
    let opened = b.on_new_sv1_connection(1000).unwrap();
    assert_eq!(
        opened.last_notify,
        Some(CachedJob { v1_id: 2, v2_job_id: 11, version: 0x20000000 })
    );
}

#[test]
fn channel_hashrate_renegotiation() {
    let mut b = ready_bridge();
    let a = b.on_new_sv1_connection(1000).unwrap();
    let _b2 = b.on_new_sv1_connection(500).unwrap();
    assert_eq!(b.aggregate_hashrate(), 1500);
    // Vardiff pushed this miner's estimate up: the aggregate follows.
    assert!(b.update_channel_hashrate(a.channel_id, 4000));
    assert_eq!(b.aggregate_hashrate(), 4500);
    assert!(b.update_channel_hashrate(a.channel_id, 100));
    assert_eq!(b.aggregate_hashrate(), 600);
    // Unknown channels change nothing.
    assert!(!b.update_channel_hashrate(99, 1));
    assert_eq!(b.aggregate_hashrate(), 600);
}

#[test]
fn share_target_comparison_is_big_endian() {
    let target = vec![0x00u8, 0x00, 0xff, 0xff];
    assert!(share_meets_target(&vec![0x00u8, 0x00, 0x12, 0x34], &target));
    assert!(share_meets_target(&vec![0x00u8, 0x00, 0xff, 0xff], &target));
    assert!(!share_meets_target(&vec![0x00u8, 0x01, 0x00, 0x00], &target));
    assert!(!share_meets_target(&vec![0x01u8, 0x00, 0x00, 0x00], &target));
}
