//! What the RabbitMQ management HTTP API reports (`GET /api/vhosts`,
//! `GET /api/queues`), and the pure comparison of that snapshot with a declared
//! [`crate::crd::RabbitmqTopologySpec`]. Nothing here touches the network.

use crate::crd::{QueueSpecView, RabbitmqTopologySpec, RabbitmqTopologySpecView, VhostSpecView};
use vstd::prelude::*;

verus! {

/// One row of `GET /api/vhosts`.
#[derive(Debug, Clone, PartialEq, Eq)]
pub struct ObservedVhost {
    pub name: String,
}

/// The mathematical model of an [`ObservedVhost`].
pub struct ObservedVhostView {
    pub name: Seq<char>,
}

impl View for ObservedVhost {
    type V = ObservedVhostView;

    open spec fn view(&self) -> ObservedVhostView {
        ObservedVhostView { name: self.name@ }
    }
}

/// One row of `GET /api/queues`: the fields the comparison reads.
#[derive(Debug, Clone, PartialEq, Eq)]
pub struct ObservedQueue {
    pub name: String,
    pub vhost: String,
    pub durable: bool,
}

/// The mathematical model of an [`ObservedQueue`].
pub struct ObservedQueueView {
    pub name: Seq<char>,
    pub vhost: Seq<char>,
    pub durable: bool,
}

impl View for ObservedQueue {
    type V = ObservedQueueView;

    open spec fn view(&self) -> ObservedQueueView {
        ObservedQueueView { name: self.name@, vhost: self.vhost@, durable: self.durable }
    }
}

/// The assembled live-broker snapshot that the reconciler compares against spec.
#[derive(Debug, Clone, PartialEq, Eq)]
pub struct ObservedTopology {
    pub vhosts: Vec<ObservedVhost>,
    pub queues: Vec<ObservedQueue>,
}

/// The mathematical model of an [`ObservedTopology`].
pub struct ObservedTopologyView {
    pub vhosts: Seq<ObservedVhostView>,
    pub queues: Seq<ObservedQueueView>,
}

impl View for ObservedTopology {
    type V = ObservedTopologyView;

    open spec fn view(&self) -> ObservedTopologyView {
        ObservedTopologyView {
            vhosts: self.vhosts@.map_values(|v: ObservedVhost| v@),
            queues: self.queues@.map_values(|q: ObservedQueue| q@),
        }
    }
}

impl Default for ObservedTopology {
    fn default() -> (topology: Self)
        ensures
            topology@.vhosts.len() == 0,
            topology@.queues.len() == 0,
    {
        ObservedTopology { vhosts: Vec::new(), queues: Vec::new() }
    }
}

/// One unit of drift between declared and observed state: a fact, not a decision.
#[derive(Debug, Clone, PartialEq, Eq)]
pub enum Drift {
    MissingVhost { vhost: String },
    MissingQueue { vhost: String, queue: String },
    QueueDurabilityMismatch {
        vhost: String,
        queue: String,
        desired_durable: bool,
        observed_durable: bool,
    },
    UndeclaredVhost { vhost: String },
}

/// The mathematical model of a [`Drift`].
pub enum DriftView {
    MissingVhost { vhost: Seq<char> },
    MissingQueue { vhost: Seq<char>, queue: Seq<char> },
    QueueDurabilityMismatch {
        vhost: Seq<char>,
        queue: Seq<char>,
        desired_durable: bool,
        observed_durable: bool,
    },
    UndeclaredVhost { vhost: Seq<char> },
}

impl View for Drift {
    type V = DriftView;

    open spec fn view(&self) -> DriftView {
        match self {
            Drift::MissingVhost { vhost } => DriftView::MissingVhost { vhost: vhost@ },
            Drift::MissingQueue { vhost, queue } => DriftView::MissingQueue {
                vhost: vhost@,
                queue: queue@,
            },
            Drift::QueueDurabilityMismatch {
                vhost,
                queue,
                desired_durable,
                observed_durable,
            } => DriftView::QueueDurabilityMismatch {
                vhost: vhost@,
                queue: queue@,
                desired_durable: *desired_durable,
                observed_durable: *observed_durable,
            },
            Drift::UndeclaredVhost { vhost } => DriftView::UndeclaredVhost { vhost: vhost@ },
        }
    }
}

/// The models of a sequence of drift entries.
pub open spec fn drift_views(drift: Seq<Drift>) -> Seq<DriftView> {
    drift.map_values(|d: Drift| d@)
}

/// The broker reports a vhost of this name.
pub open spec fn vhost_present(seen: Seq<ObservedVhostView>, name: Seq<char>) -> bool {
    exists|i: int| 0 <= i < seen.len() && #[trigger] seen[i].name == name
}

/// The spec declares a vhost of this name.
pub open spec fn vhost_declared(wanted: Seq<VhostSpecView>, name: Seq<char>) -> bool {
    exists|i: int| 0 <= i < wanted.len() && #[trigger] wanted[i].name == name
}

/// The first observed queue at index `from` or later that lives in `vhost` under `name`.
pub open spec fn find_queue_from(
    queues: Seq<ObservedQueueView>,
    vhost: Seq<char>,
    name: Seq<char>,
    from: int,
) -> Option<ObservedQueueView>
    decreases queues.len() - from,
{
    if 0 <= from < queues.len() {
        if queues[from].vhost == vhost && queues[from].name == name {
            Some(queues[from])
        } else {
            find_queue_from(queues, vhost, name, from + 1)
        }
    } else {
        None
    }
}

/// The first observed queue that lives in `vhost` under `name`, if any.
pub open spec fn find_queue(
    queues: Seq<ObservedQueueView>,
    vhost: Seq<char>,
    name: Seq<char>,
) -> Option<ObservedQueueView> {
    find_queue_from(queues, vhost, name, 0)
}

/// The drift of one declared queue of a vhost that the broker has.
pub open spec fn queue_drift(
    vhost: Seq<char>,
    want: QueueSpecView,
    queues: Seq<ObservedQueueView>,
) -> Seq<DriftView> {
    match find_queue(queues, vhost, want.name) {
        None => seq![DriftView::MissingQueue { vhost, queue: want.name }],
        Some(found) => if found.durable != want.durable {
            seq![
                DriftView::QueueDurabilityMismatch {
                    vhost,
                    queue: want.name,
                    desired_durable: want.durable,
                    observed_durable: found.durable,
                },
            ]
        } else {
            seq![]
        },
    }
}

/// The drift of the declared queues of a vhost that the broker has, in declaration order.
pub open spec fn queues_drift(
    vhost: Seq<char>,
    wants: Seq<QueueSpecView>,
    queues: Seq<ObservedQueueView>,
) -> Seq<DriftView>
    decreases wants.len(),
{
    if wants.len() == 0 {
        seq![]
    } else {
        queues_drift(vhost, wants.drop_last(), queues) + queue_drift(vhost, wants.last(), queues)
    }
}

/// The drift of one declared vhost: the vhost itself when the broker lacks it (its
/// queues are then not examined), else the drift of its queues.
pub open spec fn vhost_drift(want: VhostSpecView, observed: ObservedTopologyView) -> Seq<DriftView> {
    if vhost_present(observed.vhosts, want.name) {
        queues_drift(want.name, want.queues, observed.queues)
    } else {
        seq![DriftView::MissingVhost { vhost: want.name }]
    }
}

/// The drift of the declared vhosts, in declaration order.
pub open spec fn declared_drift(wants: Seq<VhostSpecView>, observed: ObservedTopologyView) -> Seq<
    DriftView,
>
    decreases wants.len(),
{
    if wants.len() == 0 {
        seq![]
    } else {
        declared_drift(wants.drop_last(), observed) + vhost_drift(wants.last(), observed)
    }
}

/// The vhosts that the broker has and the spec does not declare, in the broker's order.
pub open spec fn undeclared_drift(seen: Seq<ObservedVhostView>, wants: Seq<VhostSpecView>) -> Seq<
    DriftView,
>
    decreases seen.len(),
{
    if seen.len() == 0 {
        seq![]
    } else {
        undeclared_drift(seen.drop_last(), wants) + if vhost_declared(wants, seen.last().name) {
            seq![]
        } else {
            seq![DriftView::UndeclaredVhost { vhost: seen.last().name }]
        }
    }
}

/// All drift between a declared topology and an observed one: that of the declared
/// vhosts first, then the undeclared vhosts on the broker.
pub open spec fn topology_drift(
    desired: RabbitmqTopologySpecView,
    observed: ObservedTopologyView,
) -> Seq<DriftView> {
    declared_drift(desired.vhosts, observed) + undeclared_drift(observed.vhosts, desired.vhosts)
}

/// The text of a `bool` as Rust's `Display` writes it.
pub open spec fn bool_text(b: bool) -> Seq<char> {
    if b {
        "true"@
    } else {
        "false"@
    }
}

/// The human-readable line that reports one drift entry.
pub open spec fn drift_text(d: DriftView) -> Seq<char> {
    match d {
        DriftView::MissingVhost { vhost } => "vhost '"@ + vhost
            + "' declared but absent on the broker"@,
        DriftView::MissingQueue { vhost, queue } => "queue '"@ + queue + "' declared in vhost '"@
            + vhost + "' but absent on the broker"@,
        DriftView::QueueDurabilityMismatch { vhost, queue, desired_durable, observed_durable } =>
            "queue '"@ + vhost + "/"@ + queue + "' durable mismatch: desired="@ + bool_text(
            desired_durable,
        ) + " observed="@ + bool_text(observed_durable),
        DriftView::UndeclaredVhost { vhost } => "vhost '"@ + vhost
            + "' exists on the broker but is not declared"@,
    }
}

fn append_bool(text: &mut String, b: bool)
    ensures
        final(text)@ == old(text)@ + bool_text(b),
{
    if b {
        text.append("true");
    } else {
        text.append("false");
    }
}

impl Drift {
    /// The line that reports this drift entry (what `Display` writes for it).
    pub fn message(&self) -> (text: String)
        ensures
            text@ == drift_text(self@),
    {
        match self {
            Drift::MissingVhost { vhost } => {
                let mut text = String::from_str("vhost '");
                text.append(vhost.as_str());
                text.append("' declared but absent on the broker");
                text
            },
            Drift::MissingQueue { vhost, queue } => {
                let mut text = String::from_str("queue '");
                text.append(queue.as_str());
                text.append("' declared in vhost '");
                text.append(vhost.as_str());
                text.append("' but absent on the broker");
                text
            },
            Drift::QueueDurabilityMismatch { vhost, queue, desired_durable, observed_durable } => {
                let mut text = String::from_str("queue '");
                text.append(vhost.as_str());
                text.append("/");
                text.append(queue.as_str());
                text.append("' durable mismatch: desired=");
                append_bool(&mut text, *desired_durable);
                text.append(" observed=");
                append_bool(&mut text, *observed_durable);
                text
            },
            Drift::UndeclaredVhost { vhost } => {
                let mut text = String::from_str("vhost '");
                text.append(vhost.as_str());
                text.append("' exists on the broker but is not declared");
                text
            },
        }
    }
}

fn has_observed_vhost(seen: &Vec<ObservedVhost>, name: &String) -> (present: bool)
    ensures
        present == vhost_present(seen@.map_values(|v: ObservedVhost| v@), name@),
{
    let ghost views = seen@.map_values(|v: ObservedVhost| v@);
    let mut i: usize = 0;
    while i < seen.len()
        invariant
            i <= seen.len(),
            views == seen@.map_values(|v: ObservedVhost| v@),
            forall|k: int| 0 <= k < i ==> views[k].name != name@,
        decreases seen.len() - i,
    {
        if seen[i].name == *name {
            assert(views[i as int].name == name@);
            return true;
        }
        i = i + 1;
    }
    false
}

fn has_declared_vhost(wanted: &Vec<crate::crd::VhostSpec>, name: &String) -> (declared: bool)
    ensures
        declared == vhost_declared(wanted@.map_values(|v: crate::crd::VhostSpec| v@), name@),
{
    let ghost views = wanted@.map_values(|v: crate::crd::VhostSpec| v@);
    let mut i: usize = 0;
    while i < wanted.len()
        invariant
            i <= wanted.len(),
            views == wanted@.map_values(|v: crate::crd::VhostSpec| v@),
            forall|k: int| 0 <= k < i ==> views[k].name != name@,
        decreases wanted.len() - i,
    {
        if wanted[i].name == *name {
            assert(views[i as int].name == name@);
            return true;
        }
        i = i + 1;
    }
    false
}

fn find_observed_queue(queues: &Vec<ObservedQueue>, vhost: &String, name: &String) -> (found:
    Option<usize>)
    ensures
        match found {
            Some(k) => k < queues.len() && find_queue(
                queues@.map_values(|q: ObservedQueue| q@),
                vhost@,
                name@,
            ) == Some(queues@[k as int]@),
            None => find_queue(queues@.map_values(|q: ObservedQueue| q@), vhost@, name@) is None,
        },
{
    let ghost views = queues@.map_values(|q: ObservedQueue| q@);
    let mut i: usize = 0;
    while i < queues.len()
        invariant
            i <= queues.len(),
            views == queues@.map_values(|q: ObservedQueue| q@),
            find_queue_from(views, vhost@, name@, i as int) == find_queue(views, vhost@, name@),
        decreases queues.len() - i,
    {
        if queues[i].vhost == *vhost && queues[i].name == *name {
            return Some(i);
        }
        i = i + 1;
    }
    None
}

/// The comparison of a declared topology with an observed one. It never touches the
/// network: every entry is a fact derived from the two inputs alone.
pub fn diff_topology(desired: &RabbitmqTopologySpec, observed: &ObservedTopology) -> (drift: Vec<
    Drift,
>)
    ensures
        drift_views(drift@) == topology_drift(desired@, observed@),
{
    let ghost wants = desired@.vhosts;
    let ghost obs = observed@;
    let mut drift: Vec<Drift> = Vec::new();
    let mut i: usize = 0;
    while i < desired.vhosts.len()
        invariant
            i <= desired.vhosts.len(),
            wants == desired@.vhosts,
            obs == observed@,
            drift_views(drift@) == declared_drift(wants.take(i as int), obs),
        decreases desired.vhosts.len() - i,
    {
        let want_vhost = &desired.vhosts[i];
        let ghost before = drift_views(drift@);
        assert(wants.take(i + 1).drop_last() =~= wants.take(i as int));
        assert(wants.take(i + 1).last() == want_vhost@);
        if !has_observed_vhost(&observed.vhosts, &want_vhost.name) {
            drift.push(Drift::MissingVhost { vhost: want_vhost.name.clone() });
            assert(drift_views(drift@) =~= before + vhost_drift(want_vhost@, obs));
        } else {
            let ghost wq = want_vhost@.queues;
            let mut j: usize = 0;
            while j < want_vhost.queues.len()
                invariant
                    j <= want_vhost.queues.len(),
                    wq == want_vhost@.queues,
                    obs == observed@,
                    drift_views(drift@) == before + queues_drift(
                        want_vhost.name@,
                        wq.take(j as int),
                        obs.queues,
                    ),
                decreases want_vhost.queues.len() - j,
            {
                let want_queue = &want_vhost.queues[j];
                let ghost mid = drift_views(drift@);
                assert(wq.take(j + 1).drop_last() =~= wq.take(j as int));
                assert(wq.take(j + 1).last() == want_queue@);
                match find_observed_queue(&observed.queues, &want_vhost.name, &want_queue.name) {
                    None => {
                        drift.push(
                            Drift::MissingQueue {
                                vhost: want_vhost.name.clone(),
                                queue: want_queue.name.clone(),
                            },
                        );
                        assert(drift_views(drift@) =~= mid + queue_drift(
                            want_vhost.name@,
                            want_queue@,
                            obs.queues,
                        ));
                    },
                    Some(k) => {
                        let found = &observed.queues[k];
                        if found.durable != want_queue.durable {
                            drift.push(
                                Drift::QueueDurabilityMismatch {
                                    vhost: want_vhost.name.clone(),
                                    queue: want_queue.name.clone(),
                                    desired_durable: want_queue.durable,
                                    observed_durable: found.durable,
                                },
                            );
                        }
                        assert(drift_views(drift@) =~= mid + queue_drift(
                            want_vhost.name@,
                            want_queue@,
                            obs.queues,
                        ));
                    },
                }
                assert(before + queues_drift(want_vhost.name@, wq.take(j + 1), obs.queues) =~= mid
                    + queue_drift(want_vhost.name@, want_queue@, obs.queues));
                j = j + 1;
            }
            assert(wq.take(wq.len() as int) =~= wq);
        }
        i = i + 1;
    }
    assert(wants.take(wants.len() as int) =~= wants);
    let ghost declared_part = drift_views(drift@);
    let ghost seen = obs.vhosts;
    let mut k: usize = 0;
    while k < observed.vhosts.len()
        invariant
            k <= observed.vhosts.len(),
            wants == desired@.vhosts,
            seen == observed@.vhosts,
            drift_views(drift@) == declared_part + undeclared_drift(seen.take(k as int), wants),
        decreases observed.vhosts.len() - k,
    {
        let seen_vhost = &observed.vhosts[k];
        let ghost before = drift_views(drift@);
        assert(seen.take(k + 1).drop_last() =~= seen.take(k as int));
        assert(seen.take(k + 1).last() == seen_vhost@);
        if !has_declared_vhost(&desired.vhosts, &seen_vhost.name) {
            drift.push(Drift::UndeclaredVhost { vhost: seen_vhost.name.clone() });
            assert(drift_views(drift@) =~= before + seq![
                DriftView::UndeclaredVhost { vhost: seen_vhost.name@ },
            ]);
        } else {
            assert(drift_views(drift@) =~= before + Seq::<DriftView>::empty());
        }
        assert(declared_part + undeclared_drift(seen.take(k + 1), wants) =~= before + (
        if vhost_declared(wants, seen_vhost.name@) {
            Seq::<DriftView>::empty()
        } else {
            seq![DriftView::UndeclaredVhost { vhost: seen_vhost.name@ }]
        }));
        k = k + 1;
    }
    assert(seen.take(seen.len() as int) =~= seen);
    drift
}

} // verus!
