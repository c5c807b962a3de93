use camelot_rabbitmq_controller::crd::{d_true, QueueSpec, RabbitmqTopologySpec, RabbitmqTopologyStatus, VhostSpec};
use camelot_rabbitmq_controller::fetch::{queues_endpoint, vhosts_endpoint, FetchError};
use camelot_rabbitmq_controller::observed::{Drift, ObservedQueue, ObservedTopology, ObservedVhost};
use camelot_rabbitmq_controller::reconcile::{
    error_requeue_secs, event_matches_state, requeue_secs, unresolved_credentials, error_status_patch, observed_status_patch, reconcile_step, Error, ReconcileAction, ReconcileEvent,
    ReconcileState, StatusPatch,
};

fn spec() -> RabbitmqTopologySpec {
    RabbitmqTopologySpec {
        management_api: "http://rabbitmq.camelot.svc.cluster.local:15672".to_string(),
        credentials_secret_ref: "rabbitmq-admin-credentials".to_string(),
        vhosts: vec![VhostSpec {
            name: "akeyless".to_string(),
            queues: vec![QueueSpec { name: "gator-events".to_string(), durable: true }],
        }],
    }
}

#[test]
fn queue_durability_default_is_durable() {
    assert!(d_true());
}

#[test]
fn default_status_is_empty() {
    let s = RabbitmqTopologyStatus::default();
    assert_eq!(s.phase, "");
    assert_eq!(s.drift_count, 0);
    assert!(s.drift.is_empty());
    assert_eq!(s.last_observed_at, None);
    assert_eq!(s.error, None);
}

#[test]
fn endpoints_extend_the_management_api_url() {
    assert_eq!(vhosts_endpoint("http://h:15672"), "http://h:15672/api/vhosts");
    assert_eq!(queues_endpoint("http://h:15672"), "http://h:15672/api/queues");
}

#[test]
fn error_messages_name_their_cause() {
    assert_eq!(
        Error::CredentialsUnresolved("rabbitmq-admin-credentials".to_string()).message(),
        "credentials for secretRef 'rabbitmq-admin-credentials' could not be resolved"
    );
    assert_eq!(Error::Kube("forbidden".to_string()).message(), "kube: forbidden");
    assert_eq!(
        Error::Fetch(FetchError::Request("connection refused".to_string())).message(),
        "fetch: http request to the RabbitMQ management API failed: connection refused"
    );
    assert_eq!(
        FetchError::Request("timeout".to_string()).message(),
        "http request to the RabbitMQ management API failed: timeout"
    );
}

#[test]
fn observed_patch_counts_and_describes_the_drift() {
    let drift = vec![
        Drift::MissingVhost { vhost: "a".to_string() },
        Drift::UndeclaredVhost { vhost: "b".to_string() },
    ];
    let patch = observed_status_patch(&drift, Some("2024-01-01T00:00:00+00:00".to_string()));
    assert_eq!(patch.phase(), "Observed");
    assert_eq!(
        patch,
        StatusPatch::Observed {
            drift_count: 2,
            drift: vec![
                "vhost 'a' declared but absent on the broker".to_string(),
                "vhost 'b' exists on the broker but is not declared".to_string(),
            ],
            last_observed_at: Some("2024-01-01T00:00:00+00:00".to_string()),
        }
    );
}

#[test]
fn error_patch_carries_the_error_text() {
    let patch = error_status_patch(&Error::CredentialsUnresolved("s".to_string()));
    assert_eq!(patch.phase(), "Error");
    assert_eq!(
        patch,
        StatusPatch::Failed { error: "credentials for secretRef 's' could not be resolved".to_string() }
    );
}

#[test]
fn reconcile_asks_for_credentials_first() {
    let (state, action) = reconcile_step(&spec(), ReconcileState::Init, ReconcileEvent::Begin);
    assert_eq!(state, ReconcileState::AwaitingCredentials);
    match action {
        ReconcileAction::ResolveCredentials { secret_ref } => assert_eq!(secret_ref, "rabbitmq-admin-credentials"),
        other => panic!("unexpected action {other:?}"),
    }
}

#[test]
fn reconcile_reads_both_listings_with_the_resolved_credentials() {
    let (state, action) = reconcile_step(
        &spec(),
        ReconcileState::AwaitingCredentials,
        ReconcileEvent::Credentials(Ok(("admin".to_string(), "pw".to_string()))),
    );
    assert_eq!(state, ReconcileState::AwaitingTopology);
    match action {
        ReconcileAction::FetchTopology { vhosts_url, queues_url, user, pass } => {
            assert_eq!(vhosts_url, "http://rabbitmq.camelot.svc.cluster.local:15672/api/vhosts");
            assert_eq!(queues_url, "http://rabbitmq.camelot.svc.cluster.local:15672/api/queues");
            assert_eq!(user, "admin");
            assert_eq!(pass, "pw");
        }
        other => panic!("unexpected action {other:?}"),
    }
}

#[test]
fn unresolved_credentials_are_written_to_status() {
    let (state, action) = reconcile_step(
        &spec(),
        ReconcileState::AwaitingCredentials,
        ReconcileEvent::Credentials(Err(Error::CredentialsUnresolved("rabbitmq-admin-credentials".to_string()))),
    );
    assert_eq!(state, ReconcileState::AwaitingStatusWrite);
    match action {
        ReconcileAction::WriteStatus(StatusPatch::Failed { error }) => assert_eq!(
            error,
            "credentials for secretRef 'rabbitmq-admin-credentials' could not be resolved"
        ),
        other => panic!("unexpected action {other:?}"),
    }
}

#[test]
fn failed_fetch_is_written_to_status() {
    let (state, action) = reconcile_step(
        &spec(),
        ReconcileState::AwaitingTopology,
        ReconcileEvent::Topology(Err(FetchError::Request("dns error".to_string()))),
    );
    assert_eq!(state, ReconcileState::AwaitingStatusWrite);
    match action {
        ReconcileAction::WriteStatus(StatusPatch::Failed { error }) => assert_eq!(
            error,
            "http request to the RabbitMQ management API failed: dns error"
        ),
        other => panic!("unexpected action {other:?}"),
    }
}

#[test]
fn observed_broker_is_diffed_into_status() {
    let observed = ObservedTopology {
        vhosts: vec![ObservedVhost { name: "akeyless".to_string() }],
        queues: vec![ObservedQueue {
            name: "gator-events".to_string(),
            vhost: "akeyless".to_string(),
            durable: false,
        }],
    };
    let (state, action) =
        reconcile_step(&spec(), ReconcileState::AwaitingTopology, ReconcileEvent::Topology(Ok(observed)));
    assert_eq!(state, ReconcileState::AwaitingStatusWrite);
    match action {
        ReconcileAction::WriteStatus(StatusPatch::Observed { drift_count, drift, last_observed_at }) => {
            assert_eq!(drift_count, 1);
            assert_eq!(drift, vec!["queue 'akeyless/gator-events' durable mismatch: desired=true observed=false".to_string()]);
            let last_observed_at = last_observed_at.expect("the system clock reads after 1970");
            assert!(last_observed_at.len() >= 25);
            assert!(last_observed_at.ends_with("+00:00"));
            assert_eq!(&last_observed_at[10..11], "T");
        }
        other => panic!("unexpected action {other:?}"),
    }
}

#[test]
fn written_status_ends_in_requeue() {
    let (state, action) =
        reconcile_step(&spec(), ReconcileState::AwaitingStatusWrite, ReconcileEvent::StatusWritten(Ok(())));
    assert_eq!(state, ReconcileState::Finished);
    assert!(matches!(action, ReconcileAction::Requeue));
}

#[test]
fn refused_status_write_fails_the_reconcile() {
    let (state, action) = reconcile_step(
        &spec(),
        ReconcileState::AwaitingStatusWrite,
        ReconcileEvent::StatusWritten(Err("conflict".to_string())),
    );
    assert_eq!(state, ReconcileState::Finished);
    match action {
        ReconcileAction::Fail(e) => {
            assert_eq!(e, Error::Kube("conflict".to_string()));
            assert_eq!(e.message(), "kube: conflict");
        }
        other => panic!("unexpected action {other:?}"),
    }
}

#[test]
fn requeue_intervals() {
    assert_eq!(requeue_secs(), 60);
    assert_eq!(error_requeue_secs(), 30);
}

#[test]
fn events_are_expected_only_in_their_state() {
    assert!(event_matches_state(ReconcileState::Init, &ReconcileEvent::Begin));
    assert!(!event_matches_state(ReconcileState::AwaitingCredentials, &ReconcileEvent::Begin));
    assert!(event_matches_state(
        ReconcileState::AwaitingCredentials,
        &ReconcileEvent::Credentials(Ok(("u".to_string(), "p".to_string())))
    ));
    assert!(event_matches_state(
        ReconcileState::AwaitingTopology,
        &ReconcileEvent::Topology(Err(FetchError::Request("x".to_string())))
    ));
    assert!(!event_matches_state(ReconcileState::AwaitingTopology, &ReconcileEvent::StatusWritten(Ok(()))));
    assert!(event_matches_state(ReconcileState::AwaitingStatusWrite, &ReconcileEvent::StatusWritten(Ok(()))));
    assert!(!event_matches_state(ReconcileState::Finished, &ReconcileEvent::StatusWritten(Ok(()))));
}

#[test]
fn observed_patch_without_a_clock_reading_keeps_it_absent() {
    let patch = observed_status_patch(&vec![], None);
    assert_eq!(patch, StatusPatch::Observed { drift_count: 0, drift: vec![], last_observed_at: None });
}

#[test]
fn stub_resolver_reports_credentials_unresolved() {
    let answer = unresolved_credentials("rabbitmq-admin-credentials");
    assert_eq!(answer, Err(Error::CredentialsUnresolved("rabbitmq-admin-credentials".to_string())));
    let (_, action) = reconcile_step(&spec(), ReconcileState::AwaitingCredentials, ReconcileEvent::Credentials(answer));
    match action {
        ReconcileAction::WriteStatus(StatusPatch::Failed { error }) => assert_eq!(
            error,
            "credentials for secretRef 'rabbitmq-admin-credentials' could not be resolved"
        ),
        other => panic!("unexpected action {other:?}"),
    }
}
