//! The `RabbitmqTopology` resource (`camelot.pleme.io/v1`): its spec, the desired
//! vhosts and queues, and the status that the reconciler reports back.

use vstd::prelude::*;

verus! {

/// A single declared queue inside a vhost.
#[derive(Clone, Debug, PartialEq, Eq)]
pub struct QueueSpec {
    pub name: String,
    pub durable: bool,
}

/// The mathematical model of a [`QueueSpec`].
pub struct QueueSpecView {
    pub name: Seq<char>,
    pub durable: bool,
}

impl View for QueueSpec {
    type V = QueueSpecView;

    open spec fn view(&self) -> QueueSpecView {
        QueueSpecView { name: self.name@, durable: self.durable }
    }
}

/// A single declared vhost and the queues that must exist inside it.
#[derive(Clone, Debug, PartialEq, Eq)]
pub struct VhostSpec {
    pub name: String,
    pub queues: Vec<QueueSpec>,
}

/// The mathematical model of a [`VhostSpec`].
pub struct VhostSpecView {
    pub name: Seq<char>,
    pub queues: Seq<QueueSpecView>,
}

impl View for VhostSpec {
    type V = VhostSpecView;

    open spec fn view(&self) -> VhostSpecView {
        VhostSpecView { name: self.name@, queues: self.queues@.map_values(|q: QueueSpec| q@) }
    }
}

/// `RabbitmqTopology.spec`: the desired state. `management_api` points at the
/// broker's management-plugin HTTP endpoint; `credentials_secret_ref` names the
/// Secret that holds the admin user and password (a reference, never the value).
#[derive(Clone, Debug, PartialEq)]
pub struct RabbitmqTopologySpec {
    pub management_api: String,
    pub credentials_secret_ref: String,
    pub vhosts: Vec<VhostSpec>,
}

/// The mathematical model of a [`RabbitmqTopologySpec`].
pub struct RabbitmqTopologySpecView {
    pub management_api: Seq<char>,
    pub credentials_secret_ref: Seq<char>,
    pub vhosts: Seq<VhostSpecView>,
}

impl View for RabbitmqTopologySpec {
    type V = RabbitmqTopologySpecView;

    open spec fn view(&self) -> RabbitmqTopologySpecView {
        RabbitmqTopologySpecView {
            management_api: self.management_api@,
            credentials_secret_ref: self.credentials_secret_ref@,
            vhosts: self.vhosts@.map_values(|v: VhostSpec| v@),
        }
    }
}

/// `RabbitmqTopology.status`: the last observed reconcile outcome. The reconciler
/// is observe-only: `phase` is `Observed` (drift computed) or `Error`.
#[derive(Clone, Debug, PartialEq, Eq)]
pub struct RabbitmqTopologyStatus {
    pub phase: String,
    pub drift_count: usize,
    pub drift: Vec<String>,
    pub last_observed_at: Option<String>,
    pub error: Option<String>,
}

impl Default for RabbitmqTopologyStatus {
    fn default() -> (status: Self)
        ensures
            status.phase@ == Seq::<char>::empty(),
            status.drift_count == 0,
            status.drift@.len() == 0,
            status.last_observed_at is None,
            status.error is None,
    {
        RabbitmqTopologyStatus {
            phase: String::new(),
            drift_count: 0,
            drift: Vec::new(),
            last_observed_at: None,
            error: None,
        }
    }
}

/// The durability a queue has when its declaration leaves it out: durable.
pub fn d_true() -> (durable: bool)
    ensures
        durable,
{
    true
}

} // verus!
