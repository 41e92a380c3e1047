use translator_proxy::monitor::shares::RejectionReason;
use translator_proxy::monitor::worker_activity::WorkerActivityType;
use translator_proxy::translator::downstream::downstream::{
    CachedJob, Downstream, SessionState, RECENT_JOBS_CAPACITY,
};
use translator_proxy::translator::downstream::receive_from_downstream::{
    handle_incoming_line, LineOutcome,
};

fn fresh_session() -> Downstream {
    Downstream::new_downstream(7, vec![0xaau8, 0xbb, 0x01], 4, 100_000, None)
}

#[test]
fn happy_path_connect() {
    let mut d = fresh_session();
    assert!(matches!(d.state, SessionState::New));

    // S1 step 1: configure with a full mask.
    let configure = "{\"id\":1,\"method\":\"mining.configure\",\"params\":[[\"version-rolling\"],{\"version-rolling.mask\":\"ffffffff\",\"version-rolling.min-bit-count\":2}]}";
    match handle_incoming_line(&mut d, configure, 0x0123456789abcdef, 0) {
        LineOutcome::Reply(out) => assert_eq!(
            out,
            "{\"id\":1,\"result\":[[[\"version-rolling\",{\"version-rolling.mask\":\"1fffe000\",\"version-rolling.min-bit-count\":2}]],false],\"error\":null}"
        ),
        _ => panic!("configure should reply"),
    }
    assert_eq!(d.version_rolling_mask, Some(0x1fffe000));
    assert!(matches!(d.state, SessionState::Configured));

    // S1 step 2: subscribe records the agent and reports the two
    // subscription tuples and the extranonce pair.
    let subscribe = "{\"id\":2,\"method\":\"mining.subscribe\",\"params\":[\"cgminer/4.11.1\"]}";
    match handle_incoming_line(&mut d, subscribe, 0x0123456789abcdef, 0) {
        LineOutcome::Reply(out) => {
            assert_eq!(
                out,
                "{\"id\":2,\"result\":[[[\"mining.set_difficulty\",\"0123456789abcdef\"],[\"mining.notify\",\"ae6812eb4cd7735a302a8a9dd95cf71f\"]],\"aabb01\",4],\"error\":null}"
            )
        }
        _ => panic!("subscribe should reply"),
    }
    assert_eq!(d.user_agent.as_deref(), Some("cgminer/4.11.1"));
    assert!(matches!(d.state, SessionState::Subscribed));

    // S1 step 3: authorize succeeds and fires one Connected event.
    let authorize = "{\"id\":3,\"method\":\"mining.authorize\",\"params\":[\"user.w1\",\"x\"]}";
    match handle_incoming_line(&mut d, authorize, 0x0123456789abcdef, 0) {
        LineOutcome::ReplyWithEvent(out, ev) => {
            assert_eq!(out, "{\"id\":3,\"result\":true,\"error\":null}");
            assert_eq!(ev.worker_name, "user.w1");
            assert_eq!(ev.user_agent, "cgminer/4.11.1");
            assert!(matches!(ev.activity, WorkerActivityType::Connected));
        }
        _ => panic!("first authorize should reply with an event"),
    }
    assert!(matches!(d.state, SessionState::Active));
}

#[test]
fn repeated_authorize_returns_false_without_event() {
    let mut d = fresh_session();
    let (first, ev1) = d.handle_authorize("user.w1".to_string());
    assert!(first);
    assert!(ev1.is_some());
    let (second, ev2) = d.handle_authorize("user.w1".to_string());
    assert!(!second);
    assert!(ev2.is_none());
    let (third, ev3) = d.handle_authorize("user.w1".to_string());
    assert!(!third);
    assert!(ev3.is_none());
    // A different name still succeeds once.
    let (other, ev4) = d.handle_authorize("user.w2".to_string());
    assert!(other);
    assert!(ev4.is_some());
}

#[test]
fn submit_unknown_job_is_rejected_and_session_stays_open() {
    let mut d = fresh_session();
    d.handle_authorize("user.w1".to_string());
    // S2: submit against a job id that was never announced.
    let submit = "{\"id\":4,\"method\":\"mining.submit\",\"params\":[\"user.w1\",\"deadbeef\",\"00000000\",\"64000000\",\"00000000\"]}";
    match handle_incoming_line(&mut d, submit, 0, 123) {
        LineOutcome::RejectSubmit { id, reason } => {
            assert_eq!(id, 4);
            assert!(matches!(reason, RejectionReason::JobIdNotFound));
        }
        _ => panic!("unknown job must be rejected"),
    }
    assert!(matches!(d.state, SessionState::Active));
    assert_eq!(d.submission_times.len(), 1);
}

#[test]
fn submit_known_job_translates_the_share() {
    let mut d = fresh_session();
    d.handle_configure(Some(0xffffffff), Some(2));
    d.add_job(0xdeadbeef, 42, 0x20000000);
    let submit = "{\"id\":6,\"method\":\"mining.submit\",\"params\":[\"user.w1\",\"deadbeef\",\"01020304\",\"64000000\",\"00000009\",\"1fffe000\"]}";
    match handle_incoming_line(&mut d, submit, 0, 5) {
        LineOutcome::ForwardSubmit { id, translated } => {
            assert_eq!(id, 6);
            assert_eq!(translated.job_id_v2, 42);
            // extranonce = proxy prefix then the miner's extranonce2.
            assert_eq!(
                translated.extranonce,
                vec![0xaau8, 0xbb, 0x01, 0x01, 0x02, 0x03, 0x04]
            );
            assert_eq!(translated.ntime, 0x64000000);
            assert_eq!(translated.nonce, 9);
            // Version: bits inside the granted mask replaced, the rest kept.
            assert_eq!(
                translated.version,
                (0x20000000u32 & !0x1fffe000) | (0x1fffe000 & 0x1fffe000)
            );
        }
        _ => panic!("known job must forward"),
    }
}

#[test]
fn submit_with_wrong_extranonce_width_is_invalid() {
    let mut d = fresh_session();
    d.add_job(0x00000001, 1, 0x20000000);
    // Two bytes where the channel granted four.
    let r = d.handle_submit(0x00000001, vec![0x01u8, 0x02], 0, 0, None, 0);
    assert!(matches!(r, Err(RejectionReason::InvalidShare)));
}

#[test]
fn malformed_line_closes_the_session() {
    let mut d = fresh_session();
    match handle_incoming_line(&mut d, "not json at all", 0, 0) {
        LineOutcome::Close => {}
        _ => panic!("junk must close the session"),
    }
    assert!(matches!(d.state, SessionState::Closed));
}

#[test]
fn recent_jobs_window_resolves_only_while_held() {
    let mut d = fresh_session();
    // Fill the window and push one more: the oldest id falls out.
    for i in 0..(RECENT_JOBS_CAPACITY as u32 + 1) {
        d.add_job(i, i + 100, 0x20000000);
    }
    // Job 0 was evicted: unresolvable.
    assert!(matches!(
        d.handle_submit(0, vec![0u8; 4], 0, 0, None, 0),
        Err(RejectionReason::JobIdNotFound)
    ));
    // Jobs 1..=8 are still in the window.
    for i in 1..(RECENT_JOBS_CAPACITY as u32 + 1) {
        let r = d.handle_submit(i, vec![0u8; 4], 0, 0, None, 0);
        match r {
            Ok(t) => assert_eq!(t.job_id_v2, i + 100),
            Err(_) => panic!("job {} should still resolve", i),
        }
    }
}

#[test]
fn extranonce_subscribe_is_acknowledged() {
    let mut d = fresh_session();
    let line = "{\"id\":5,\"method\":\"mining.extranonce.subscribe\",\"params\":[]}";
    match handle_incoming_line(&mut d, line, 0, 0) {
        LineOutcome::Reply(out) => assert_eq!(out, "{\"id\":5,\"result\":true,\"error\":null}"),
        _ => panic!("extranonce.subscribe should be acknowledged"),
    }
}

#[test]
fn vardiff_tick_adjusts_resets_and_notifies() {
    // S3 shape: ten shares within a one-second window against a target of
    // one per second raise the difficulty tenfold, reset the ring and emit
    // the difficulty line.
    let mut d = fresh_session();
    for k in 0..10u64 {
        d.handle_submit(0, vec![0u8; 4], 0, 0, None, 11_000 + k * 100).ok();
    }
    assert_eq!(d.submission_times.len(), 10);
    match d.vardiff_tick(12_000, 1_000, 60, 1, 1_000_000_000) {
        Some((v, line)) => {
            assert_eq!(v, 1_000_000);
            assert_eq!(
                line,
                "{\"id\":null,\"method\":\"mining.set_difficulty\",\"params\":[1000000]}"
            );
        }
        None => panic!("ten times the target must adjust"),
    }
    assert_eq!(d.current_difficulty, 1_000_000);
    assert_eq!(d.submission_times.len(), 0);
    // Back on target afterwards: one share in the next one-second window
    // meets one per second, so nothing changes.
    d.handle_submit(0, vec![0u8; 4], 0, 0, None, 12_500).ok();
    assert!(d.vardiff_tick(13_000, 1_000, 60, 1, 1_000_000_000).is_none());
    assert_eq!(d.current_difficulty, 1_000_000);
}

#[test]
fn whitespace_between_tokens_is_tolerated() {
    // The same configure request with spacing as a real miner sends it.
    let mut d = fresh_session();
    let spaced = "{\"id\": 1, \"method\": \"mining.configure\", \"params\": [[\"version-rolling\"], {\"version-rolling.mask\": \"ffffffff\", \"version-rolling.min-bit-count\": 2}]}";
    match handle_incoming_line(&mut d, spaced, 0, 0) {
        LineOutcome::Reply(out) => assert_eq!(
            out,
            "{\"id\":1,\"result\":[[[\"version-rolling\",{\"version-rolling.mask\":\"1fffe000\",\"version-rolling.min-bit-count\":2}]],false],\"error\":null}"
        ),
        _ => panic!("spaced configure should be handled"),
    }
    assert_eq!(d.version_rolling_mask, Some(0x1fffe000));
    // Spacing inside a quoted value is payload and survives.
    let sub = "{\"id\":2,\"method\":\"mining.subscribe\",\"params\":[\"cg miner 4\"]}";
    handle_incoming_line(&mut d, sub, 0, 0);
    assert_eq!(d.user_agent.as_deref(), Some("cg miner 4"));
}

#[test]
fn malformed_job_id_rejects_without_closing() {
    let mut d = fresh_session();
    d.handle_authorize("user.w1".to_string());
    // Seven hex digits cannot name a job; the session must survive with a
    // format reject rather than close.
    let submit = "{\"id\":9,\"method\":\"mining.submit\",\"params\":[\"user.w1\",\"deadbee\",\"00000000\",\"64000000\",\"00000000\"]}";
    match handle_incoming_line(&mut d, submit, 0, 0) {
        LineOutcome::RejectSubmit { id, reason } => {
            assert_eq!(id, 9);
            assert!(matches!(reason, RejectionReason::InvalidJobIdFormat));
        }
        _ => panic!("a malformed job id must be a format reject"),
    }
    assert!(matches!(d.state, SessionState::Active));
}

#[test]
fn configure_registers_the_cached_job() {
    let mut d = Downstream::new_downstream(
        7,
        vec![0xaau8, 0xbb, 0x01],
        4,
        100_000,
        Some(CachedJob { v1_id: 5, v2_job_id: 77, version: 0x20000000 }),
    );
    // Before any handshake the window is empty: the job does not resolve.
    assert!(d.handle_submit(5, vec![0u8; 4], 0, 0, None, 0).is_err());
    d.handle_configure(Some(0xffffffff), Some(2));
    let share = d
        .handle_submit(5, vec![0u8; 4], 0, 0, None, 0)
        .expect("the registered job resolves");
    assert_eq!(share.job_id_v2, 77);
    // Registering is idempotent: authorize does not duplicate the entry.
    d.handle_authorize("w".to_string());
    assert!(d.handle_submit(5, vec![0u8; 4], 0, 0, None, 0).is_ok());
}
