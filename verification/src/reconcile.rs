//! The decisions of one observe-only reconcile of a `RabbitmqTopology`: resolve the
//! broker credentials, read the broker, diff it against the spec, and write what was
//! seen to the resource's status; then come back later. The reconcile never asks
//! the broker to change anything. The caller performs each action that
//! [`reconcile_step`] returns and hands back what came of it.

pub use crate::clock::{is_utc_rfc3339, utc_rfc3339_text};
use crate::clock::{rfc3339_of_reading, unix_clock};
use crate::crd::RabbitmqTopologySpec;
use crate::fetch::{fetch_error_text, queues_endpoint, queues_url, vhosts_endpoint, vhosts_url, FetchError};
use crate::observed::{diff_topology, drift_text, drift_views, topology_drift, Drift, DriftView, ObservedTopology};
use vstd::prelude::*;

verus! {

/// Why a reconcile could not complete.
#[derive(Debug, Clone, PartialEq, Eq)]
pub enum Error {
    /// The cluster API refused a request; carries its description of the failure.
    Kube(String),
    /// The broker could not be read.
    Fetch(FetchError),
    /// The credentials named by this Secret reference could not be resolved.
    CredentialsUnresolved(String),
}

/// The text that an [`Error`] reports.
pub open spec fn error_text(e: &Error) -> Seq<char> {
    match e {
        Error::Kube(cause) => "kube: "@ + cause@,
        Error::Fetch(cause) => "fetch: "@ + fetch_error_text(cause),
        Error::CredentialsUnresolved(secret_ref) => "credentials for secretRef '"@ + secret_ref@
            + "' could not be resolved"@,
    }
}

impl Error {
    /// The line that reports this error (what `Display` writes for it).
    pub fn message(&self) -> (text: String)
        ensures
            text@ == error_text(self),
    {
        match self {
            Error::Kube(cause) => {
                let mut text = String::from_str("kube: ");
                text.append(cause.as_str());
                text
            },
            Error::Fetch(cause) => {
                let mut text = String::from_str("fetch: ");
                let inner = cause.message();
                text.append(inner.as_str());
                text
            },
            Error::CredentialsUnresolved(secret_ref) => {
                let mut text = String::from_str("credentials for secretRef '");
                text.append(secret_ref.as_str());
                text.append("' could not be resolved");
                text
            },
        }
    }
}

/// Turns the name of the Secret that holds the broker's admin credentials into the
/// user and password. Implementations decide how Secrets are read.
pub trait CredentialResolver: Send + Sync {
    fn resolve(&self, secret_ref: &str) -> Result<(String, String), Error>;
}

/// The answer of a resolver that cannot read Secrets yet: the credentials named by
/// `secret_ref` are reported unresolved, so the gap shows in `status.error` rather
/// than as made-up credentials.
pub fn unresolved_credentials(secret_ref: &str) -> (result: Result<(String, String), Error>)
    ensures
        result matches Err(Error::CredentialsUnresolved(named)) && named@ == secret_ref@,
{
    Err(Error::CredentialsUnresolved(String::from_str(secret_ref)))
}

/// The merge patch that a reconcile writes to the resource's status.
#[derive(Debug, Clone, PartialEq, Eq)]
pub enum StatusPatch {
    /// Phase `Observed`: the drift found, when it was found (`None` when the system
    /// clock could not be read as a time after the Unix epoch), and no error.
    Observed { drift_count: usize, drift: Vec<String>, last_observed_at: Option<String> },
    /// Phase `Error`: why the broker could not be observed; other fields are kept.
    Failed { error: String },
}

/// The phase that a status patch writes.
pub open spec fn patch_phase(patch: &StatusPatch) -> Seq<char> {
    match patch {
        StatusPatch::Observed { .. } => "Observed"@,
        StatusPatch::Failed { .. } => "Error"@,
    }
}

/// The models of a sequence of strings.
pub open spec fn strings_view(lines: Seq<String>) -> Seq<Seq<char>> {
    lines.map_values(|line: String| line@)
}

/// The lines that report a sequence of drift entries.
pub open spec fn drift_lines(drift: Seq<DriftView>) -> Seq<Seq<char>> {
    drift.map_values(|d: DriftView| drift_text(d))
}

impl StatusPatch {
    /// The phase that this patch writes.
    pub fn phase(&self) -> (phase: String)
        ensures
            phase@ == patch_phase(self),
    {
        match self {
            StatusPatch::Observed { .. } => String::from_str("Observed"),
            StatusPatch::Failed { .. } => String::from_str("Error"),
        }
    }
}

/// The status patch for a broker that was read: the number of drift entries, one
/// line per entry in order, and the time of the observation; it clears any error.
pub fn observed_status_patch(drift: &Vec<Drift>, observed_at: Option<String>) -> (patch: StatusPatch)
    ensures
        patch matches StatusPatch::Observed { drift_count, drift: lines, last_observed_at }
            && drift_count == drift.len() && strings_view(lines@) == drift_lines(
            drift_views(drift@),
        ) && last_observed_at == observed_at,
{
    let mut lines: Vec<String> = Vec::new();
    let mut i: usize = 0;
    while i < drift.len()
        invariant
            i <= drift.len(),
            strings_view(lines@) == drift_lines(drift_views(drift@.take(i as int))),
        decreases drift.len() - i,
    {
        let line = drift[i].message();
        let ghost before = lines@;
        lines.push(line);
        assert(drift@.take(i + 1).drop_last() =~= drift@.take(i as int));
        assert(strings_view(lines@) =~= strings_view(before).push(line@));
        assert(drift_lines(drift_views(drift@.take(i + 1))) =~= drift_lines(
            drift_views(drift@.take(i as int)),
        ).push(drift_text(drift@[i as int]@)));
        i = i + 1;
    }
    assert(drift@.take(drift.len() as int) =~= drift@);
    StatusPatch::Observed { drift_count: drift.len(), drift: lines, last_observed_at: observed_at }
}

/// The status patch for a reconcile that could not observe the broker: phase
/// `Error` and the error's text.
pub fn error_status_patch(error: &Error) -> (patch: StatusPatch)
    ensures
        patch matches StatusPatch::Failed { error: text } && text@ == error_text(error),
{
    StatusPatch::Failed { error: error.message() }
}

/// The current time in RFC 3339 UTC form: the text of the reading the system clock
/// gives now, or `None` when the clock reads before the Unix epoch or past what a
/// timestamp can hold.
fn now_rfc3339() -> (stamp: Option<String>)
    ensures
        stamp matches Some(text) ==> is_utc_rfc3339(text@),
{
    match unix_clock() {
        Some(reading) => rfc3339_of_reading(&reading),
        None => None,
    }
}

/// The interval, in seconds, after which a resource is reconciled again once a
/// reconcile has succeeded.
pub fn requeue_secs() -> (secs: u64)
    ensures
        secs == 60,
{
    60
}

/// The interval, in seconds, after which a resource is reconciled again once a
/// reconcile has failed.
pub fn error_requeue_secs() -> (secs: u64)
    ensures
        secs == 30,
{
    30
}

/// How far a reconcile has come.
#[derive(Debug, Clone, Copy, PartialEq, Eq)]
pub enum ReconcileState {
    /// Nothing done yet.
    Init,
    /// The credentials were asked for.
    AwaitingCredentials,
    /// The broker is being read.
    AwaitingTopology,
    /// A status patch is being written.
    AwaitingStatusWrite,
    /// The reconcile is over.
    Finished,
}

/// What came of the last action.
#[derive(Debug)]
pub enum ReconcileEvent {
    /// The reconcile begins.
    Begin,
    /// The credential resolver answered.
    Credentials(Result<(String, String), Error>),
    /// The broker was read, or could not be.
    Topology(Result<ObservedTopology, FetchError>),
    /// The status patch was written, or the cluster API refused it with this text.
    StatusWritten(Result<(), String>),
}

/// What the caller must do next.
#[derive(Debug)]
pub enum ReconcileAction {
    /// Resolve the credentials held by the Secret of this name.
    ResolveCredentials { secret_ref: String },
    /// Read the broker's vhosts and queues at these URLs with these credentials.
    FetchTopology { vhosts_url: String, queues_url: String, user: String, pass: String },
    /// Write this patch to the resource's status.
    WriteStatus(StatusPatch),
    /// The reconcile succeeded: come back after the configured interval.
    Requeue,
    /// The reconcile failed with this error.
    Fail(Error),
}

/// The event that the caller hands back in a state is the outcome of the action
/// that led to that state.
pub open spec fn event_expected(state: ReconcileState, event: &ReconcileEvent) -> bool {
    match state {
        ReconcileState::Init => event is Begin,
        ReconcileState::AwaitingCredentials => event is Credentials,
        ReconcileState::AwaitingTopology => event is Topology,
        ReconcileState::AwaitingStatusWrite => event is StatusWritten,
        ReconcileState::Finished => false,
    }
}

/// Whether `event` is the outcome that a reconcile in `state` waits for.
pub fn event_matches_state(state: ReconcileState, event: &ReconcileEvent) -> (expected: bool)
    ensures
        expected == event_expected(state, event),
{
    match state {
        ReconcileState::Init => matches!(event, ReconcileEvent::Begin),
        ReconcileState::AwaitingCredentials => matches!(event, ReconcileEvent::Credentials(_)),
        ReconcileState::AwaitingTopology => matches!(event, ReconcileEvent::Topology(_)),
        ReconcileState::AwaitingStatusWrite => matches!(event, ReconcileEvent::StatusWritten(_)),
        ReconcileState::Finished => false,
    }
}

/// `event` is the kind of outcome that carries what came of `action`; a requeue and
/// a failure end the reconcile and have none.
pub open spec fn answers(action: &ReconcileAction, event: &ReconcileEvent) -> bool {
    match action {
        ReconcileAction::ResolveCredentials { .. } => event is Credentials,
        ReconcileAction::FetchTopology { .. } => event is Topology,
        ReconcileAction::WriteStatus(_) => event is StatusWritten,
        ReconcileAction::Requeue => false,
        ReconcileAction::Fail(_) => false,
    }
}

/// How far along a reconcile a state stands.
pub open spec fn state_rank(state: ReconcileState) -> int {
    match state {
        ReconcileState::Init => 0,
        ReconcileState::AwaitingCredentials => 1,
        ReconcileState::AwaitingTopology => 2,
        ReconcileState::AwaitingStatusWrite => 3,
        ReconcileState::Finished => 4,
    }
}

/// One decision of a reconcile of the resource whose spec is `spec`: from the state
/// and what came of the last action, the next state and the next action. Every
/// step moves forward; the only actions are reads, a status write, a requeue and a
/// failure. The state returned waits for exactly the kind of outcome that the
/// action returned produces, and the reconcile is over exactly when that action is a
/// requeue or a failure.
pub fn reconcile_step(spec: &RabbitmqTopologySpec, state: ReconcileState, event: ReconcileEvent) -> (next: (
    ReconcileState,
    ReconcileAction,
))
    requires
        event_expected(state, &event),
    ensures
        state_rank(next.0) > state_rank(state),
        forall|e: ReconcileEvent|
            #![trigger event_expected(next.0, &e)]
            #![trigger answers(&next.1, &e)]
            event_expected(next.0, &e) <==> answers(&next.1, &e),
        next.0 == ReconcileState::Finished <==> (next.1 is Requeue || next.1 is Fail),
        match event {
            ReconcileEvent::Begin => {
                &&& next.0 == ReconcileState::AwaitingCredentials
                &&& next.1 matches ReconcileAction::ResolveCredentials { secret_ref }
                    && secret_ref@ == spec.credentials_secret_ref@
            },
            ReconcileEvent::Credentials(Ok((user, pass))) => {
                &&& next.0 == ReconcileState::AwaitingTopology
                &&& next.1 matches ReconcileAction::FetchTopology {
                    vhosts_url: v,
                    queues_url: q,
                    user: u,
                    pass: p,
                } && v@ == vhosts_url(spec.management_api@) && q@ == queues_url(
                    spec.management_api@,
                ) && u@ == user@ && p@ == pass@
            },
            ReconcileEvent::Credentials(Err(e)) => {
                &&& next.0 == ReconcileState::AwaitingStatusWrite
                &&& next.1 matches ReconcileAction::WriteStatus(StatusPatch::Failed { error: text })
                    && text@ == error_text(&e)
            },
            ReconcileEvent::Topology(Ok(observed)) => {
                &&& next.0 == ReconcileState::AwaitingStatusWrite
                &&& next.1 matches ReconcileAction::WriteStatus(
                    StatusPatch::Observed { drift_count, drift: lines, last_observed_at },
                ) && drift_count == topology_drift(spec@, observed@).len() && strings_view(lines@)
                    == drift_lines(topology_drift(spec@, observed@)) && (
                last_observed_at matches Some(stamp) ==> is_utc_rfc3339(stamp@))
            },
            ReconcileEvent::Topology(Err(e)) => {
                &&& next.0 == ReconcileState::AwaitingStatusWrite
                &&& next.1 matches ReconcileAction::WriteStatus(StatusPatch::Failed { error: text })
                    && text@ == fetch_error_text(&e)
            },
            ReconcileEvent::StatusWritten(Ok(())) => {
                &&& next.0 == ReconcileState::Finished
                &&& next.1 is Requeue
            },
            ReconcileEvent::StatusWritten(Err(cause)) => {
                &&& next.0 == ReconcileState::Finished
                &&& next.1 matches ReconcileAction::Fail(Error::Kube(c)) && c@ == cause@
            },
        },
{
    match event {
        ReconcileEvent::Begin => (
            ReconcileState::AwaitingCredentials,
            ReconcileAction::ResolveCredentials { secret_ref: spec.credentials_secret_ref.clone() },
        ),
        ReconcileEvent::Credentials(Ok((user, pass))) => (
            ReconcileState::AwaitingTopology,
            ReconcileAction::FetchTopology {
                vhosts_url: vhosts_endpoint(spec.management_api.as_str()),
                queues_url: queues_endpoint(spec.management_api.as_str()),
                user,
                pass,
            },
        ),
        ReconcileEvent::Credentials(Err(e)) => (
            ReconcileState::AwaitingStatusWrite,
            ReconcileAction::WriteStatus(error_status_patch(&e)),
        ),
        ReconcileEvent::Topology(Ok(observed)) => {
            let drift = diff_topology(spec, &observed);
            let patch = observed_status_patch(&drift, now_rfc3339());
            (ReconcileState::AwaitingStatusWrite, ReconcileAction::WriteStatus(patch))
        },
        ReconcileEvent::Topology(Err(e)) => (
            ReconcileState::AwaitingStatusWrite,
            ReconcileAction::WriteStatus(StatusPatch::Failed { error: e.message() }),
        ),
        ReconcileEvent::StatusWritten(Ok(())) => (ReconcileState::Finished, ReconcileAction::Requeue),
        ReconcileEvent::StatusWritten(Err(cause)) => (
            ReconcileState::Finished,
            ReconcileAction::Fail(Error::Kube(cause)),
        ),
    }
}

} // verus!
