use translator_proxy::monitor::logs::{compose_log_line, ProxyLog, Severity};
use translator_proxy::monitor::shares::{RejectionReason, ShareInfo, SharesMonitor};
use translator_proxy::monitor::worker_activity::{WorkerActivity, WorkerActivityType};
use translator_proxy::proxy_state::{DownstreamType, ProxyState, UpstreamState};
use translator_proxy::shared::error::Sv1IngressError;
use translator_proxy::shared::utils::{rolling_params, sv1_rolling, AbortOnDrop, UserId};
use translator_proxy::translator::downstream::task_manager::TaskManager;
use sv1_api::utils::HexU32Be;

#[test]
fn rolling_params_narrows_the_mask() {
    // A full requested mask comes back as the exposed field.
    assert_eq!(rolling_params(Some(0xffffffff), Some(2)), (0x1fffe000, 2));
    assert_eq!(rolling_params(Some(0x00ff0000), None), (0x00ff0000, 0));
    assert_eq!(rolling_params(None, None), (0, 0));
}

#[test]
fn sv1_rolling_reads_the_configure_request() {
    let configure =
        sv1_api::client_to_server::Configure::new(1, Some(HexU32Be(0xffffffff)), Some(HexU32Be(2)));
    assert_eq!(sv1_rolling(&configure), (0x1fffe000, 2));
}

#[test]
fn sv1_rolling_without_an_extension_grants_no_bits() {
    let configure = sv1_api::client_to_server::Configure::void(1);
    assert_eq!(sv1_rolling(&configure), (0, 0));
}

#[test]
fn user_id_displays_decimal() {
    assert_eq!(UserId(42).display(), "42");
    assert_eq!(UserId(-7).display(), "-7");
}

#[test]
fn task_manager_aborts_exactly_one_group() {
    // S5 shape: aborting connection 1 leaves connection 2 and the global
    // tasks untouched.
    let rt = tokio::runtime::Builder::new_current_thread()
        .enable_time()
        .build()
        .unwrap();
    let _guard = rt.enter();
    let mut tm = TaskManager::initialize();
    let spawn_bundle = || {
        AbortOnDrop::new(tokio::spawn(async {
            tokio::time::sleep(std::time::Duration::from_secs(3600)).await;
        }))
    };
    tm.add_receive_downstream(spawn_bundle(), 1).unwrap();
    tm.add_send_downstream(spawn_bundle(), 1).unwrap();
    tm.add_notify(spawn_bundle(), 1).unwrap();
    tm.add_receive_downstream(spawn_bundle(), 2).unwrap();
    tm.add_accept_connection(spawn_bundle()).unwrap();
    tm.add_shares_monitor(spawn_bundle()).unwrap();
    assert_eq!(tm.task_count(), 6);
    tm.abort_tasks_for_connection_id(1);
    assert_eq!(tm.task_count(), 3);
    // Aborting it again changes nothing; a new group may form later.
    tm.abort_tasks_for_connection_id(1);
    assert_eq!(tm.task_count(), 3);
    tm.add_update(spawn_bundle(), 1).unwrap();
    assert_eq!(tm.task_count(), 4);
}

#[test]
fn task_manager_hands_out_its_aborter_once() {
    let rt = tokio::runtime::Builder::new_current_thread()
        .enable_time()
        .build()
        .unwrap();
    let _guard = rt.enter();
    let mut tm = TaskManager::initialize();
    assert!(tm.get_aborter().is_none());
    tm.set_aborter(AbortOnDrop::new(tokio::spawn(async {})));
    assert!(tm.get_aborter().is_some());
    assert!(tm.get_aborter().is_none());
}

#[test]
fn abort_bundle_grows() {
    let rt = tokio::runtime::Builder::new_current_thread()
        .enable_time()
        .build()
        .unwrap();
    let _guard = rt.enter();
    let mut bundle = AbortOnDrop::new(tokio::spawn(async {}));
    bundle.add_task(tokio::spawn(async {}));
    bundle.abort_all();
    rt.block_on(async {
        tokio::time::sleep(std::time::Duration::from_millis(20)).await;
    });
    assert!(bundle.is_finished());
}

#[test]
fn shares_accumulate_until_cleared() {
    let mut m = SharesMonitor::new();
    assert!(!m.should_send());
    m.insert_share(ShareInfo::new("w".to_string(), Some(100), 1, None));
    m.insert_share(ShareInfo::new(
        "w".to_string(),
        Some(100),
        2,
        Some(RejectionReason::DifficultyMismatch),
    ));
    assert!(m.should_send());
    assert_eq!(m.get_next_shares().len(), 2);
    assert!(m.get_next_shares()[0].timestamp >= 1_600_000_000);
    m.clear_next_shares();
    assert!(!m.should_send());
}

#[test]
fn batched_shares_wait_for_a_full_batch() {
    let mut m = translator_proxy::shares_monitor::SharesMonitor::new();
    for i in 0..19 {
        m.insert_share(ShareInfo::new("w".to_string(), None, i, None));
    }
    assert!(!m.should_send());
    m.insert_share(ShareInfo::new("w".to_string(), None, 19, None));
    assert!(m.should_send());
    assert_eq!(m.get_pending_shares().len(), 20);
    m.clear_pending_shares();
    assert!(!m.should_send());
}

#[test]
fn rejection_reasons_have_messages() {
    assert_eq!(RejectionReason::JobIdNotFound.message(), "Job ID not found");
    assert_eq!(RejectionReason::InvalidShare.message(), "Invalid share");
    assert_eq!(
        RejectionReason::InvalidJobIdFormat.message(),
        "Invalid job ID format"
    );
    assert_eq!(
        RejectionReason::DifficultyMismatch.message(),
        "Difficulty mismatch"
    );
}

#[test]
fn log_line_composition_strips_field_separators() {
    assert_eq!(
        compose_log_line("proxy::upstream", "kind: io, detail: timed out, "),
        "proxy::upstream: kind: io, detail: timed out"
    );
    assert_eq!(compose_log_line("t", ""), "t: ");
}

#[test]
fn proxy_log_keeps_its_fields() {
    let log = ProxyLog::new(Severity::Error, "boom".to_string());
    assert!(matches!(log.severity, Severity::Error));
    assert_eq!(log.content, "boom");
}

#[test]
fn worker_activity_keeps_its_fields() {
    let ev = WorkerActivity::new(
        "agent".to_string(),
        "worker".to_string(),
        WorkerActivityType::Disconnected,
    );
    assert_eq!(ev.user_agent, "agent");
    assert_eq!(ev.worker_name, "worker");
    assert!(matches!(ev.activity, WorkerActivityType::Disconnected));
}

#[test]
fn proxy_state_flags_are_independent() {
    let mut st = ProxyState::new();
    assert!(!st.is_fatal());
    st.update_downstream_state(DownstreamType::TranslatorDownstream);
    st.update_upstream_state(UpstreamState::Down);
    assert!(!st.is_fatal());
    st.update_inconsistency(Some(1));
    assert!(st.is_fatal());
    st.update_inconsistency(None);
    assert!(!st.is_fatal());
}

#[test]
fn ingress_errors_exist() {
    let e = Sv1IngressError::TranslatorDropped;
    assert!(matches!(e, Sv1IngressError::TranslatorDropped));
    let msg = translator_proxy::shared::error::Error::ReqwestError("down".to_string());
    assert_eq!(msg.message(), "down");
}

#[test]
fn rejection_reasons_have_error_codes() {
    assert_eq!(RejectionReason::JobIdNotFound.error_code(), 21);
    assert_eq!(RejectionReason::DifficultyMismatch.error_code(), 23);
    assert_eq!(RejectionReason::InvalidShare.error_code(), 20);
    assert_eq!(RejectionReason::InvalidJobIdFormat.error_code(), 20);
}

#[test]
fn dropping_a_bundle_cancels_its_tasks() {
    let rt = tokio::runtime::Builder::new_current_thread()
        .enable_time()
        .build()
        .unwrap();
    let _guard = rt.enter();
    let (tx, mut rx) = tokio::sync::mpsc::channel::<u8>(1);
    let bundle = AbortOnDrop::new(tokio::spawn(async move {
        let _keep = tx;
        tokio::time::sleep(std::time::Duration::from_secs(3600)).await;
    }));
    drop(bundle);
    // The cancelled task releases its sender; a live task would hold it
    // for an hour.
    rt.block_on(async {
        let closed = tokio::time::timeout(std::time::Duration::from_secs(2), rx.recv()).await;
        assert_eq!(closed.expect("task should be cancelled promptly"), None);
    });
}
