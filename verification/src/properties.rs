//! What holds of every comparison of a declared topology with an observed one:
//! the comparison reports nothing exactly when the two agree, every entry it
//! reports is a true fact, and every disagreement is reported, once. Also what the
//! texts and URLs the reconciler writes are made of, for every input.

use crate::crd::{QueueSpecView, RabbitmqTopologySpecView, VhostSpecView};
use crate::fetch::{fetch_error_text, queues_url, vhosts_url, FetchError};
use crate::reconcile::{error_text, patch_phase, Error, StatusPatch};
use crate::observed::{
    drift_text, declared_drift, find_queue, find_queue_from, queue_drift, queues_drift, topology_drift, undeclared_drift,
    vhost_declared, vhost_drift, vhost_present, DriftView, ObservedQueueView, ObservedTopologyView,
    ObservedVhostView,
};
use vstd::prelude::*;

verus! {

/// The broker has a queue of this name in `vhost`, and the first such queue has the
/// declared durability.
pub open spec fn queue_in_sync(
    vhost: Seq<char>,
    want: QueueSpecView,
    queues: Seq<ObservedQueueView>,
) -> bool {
    match find_queue(queues, vhost, want.name) {
        Some(found) => found.durable == want.durable,
        None => false,
    }
}

/// The broker has the declared vhost and every queue declared in it.
pub open spec fn vhost_in_sync(want: VhostSpecView, observed: ObservedTopologyView) -> bool {
    &&& vhost_present(observed.vhosts, want.name)
    &&& forall|j: int|
        0 <= j < want.queues.len() ==> queue_in_sync(
            want.name,
            #[trigger] want.queues[j],
            observed.queues,
        )
}

/// The broker holds exactly the declared vhosts, and every declared queue with the
/// declared durability.
pub open spec fn in_sync(desired: RabbitmqTopologySpecView, observed: ObservedTopologyView) -> bool {
    &&& forall|i: int| 0 <= i < desired.vhosts.len() ==> vhost_in_sync(#[trigger] desired.vhosts[i], observed)
    &&& forall|k: int|
        0 <= k < observed.vhosts.len() ==> vhost_declared(
            desired.vhosts,
            #[trigger] observed.vhosts[k].name,
        )
}

/// The spec declares, inside a vhost named `vhost`, a queue named `queue`.
pub open spec fn queue_declared(wants: Seq<VhostSpecView>, vhost: Seq<char>, queue: Seq<char>) -> bool {
    exists|i: int, j: int|
        0 <= i < wants.len() && 0 <= j < wants[i].queues.len() && #[trigger] wants[i].name == vhost
            && #[trigger] wants[i].queues[j].name == queue
}

/// The spec declares, inside a vhost named `vhost`, a queue named `queue` with the
/// durability `durable`.
pub open spec fn queue_declared_as(
    wants: Seq<VhostSpecView>,
    vhost: Seq<char>,
    queue: Seq<char>,
    durable: bool,
) -> bool {
    exists|i: int, j: int|
        0 <= i < wants.len() && 0 <= j < wants[i].queues.len() && #[trigger] wants[i].name == vhost
            && #[trigger] wants[i].queues[j] == (QueueSpecView { name: queue, durable })
}

/// What a drift entry claims, stated over the two inputs of the comparison.
pub open spec fn drift_holds(
    desired: RabbitmqTopologySpecView,
    observed: ObservedTopologyView,
    d: DriftView,
) -> bool {
    match d {
        DriftView::MissingVhost { vhost } => vhost_declared(desired.vhosts, vhost)
            && !vhost_present(observed.vhosts, vhost),
        DriftView::MissingQueue { vhost, queue } => vhost_present(observed.vhosts, vhost)
            && queue_declared(desired.vhosts, vhost, queue) && find_queue(
            observed.queues,
            vhost,
            queue,
        ) is None,
        DriftView::QueueDurabilityMismatch { vhost, queue, desired_durable, observed_durable } => {
            &&& vhost_present(observed.vhosts, vhost)
            &&& queue_declared_as(desired.vhosts, vhost, queue, desired_durable)
            &&& find_queue(observed.queues, vhost, queue) matches Some(found)
                && found.durable == observed_durable
            &&& desired_durable != observed_durable
        },
        DriftView::UndeclaredVhost { vhost } => vhost_present(observed.vhosts, vhost)
            && !vhost_declared(desired.vhosts, vhost),
    }
}

proof fn lemma_queue_drift_empty(vhost: Seq<char>, want: QueueSpecView, queues: Seq<ObservedQueueView>)
    ensures
        queue_drift(vhost, want, queues).len() == 0 <==> queue_in_sync(vhost, want, queues),
{
}

proof fn lemma_queues_drift_empty(
    vhost: Seq<char>,
    wants: Seq<QueueSpecView>,
    queues: Seq<ObservedQueueView>,
)
    ensures
        queues_drift(vhost, wants, queues).len() == 0 <==> forall|j: int|
            0 <= j < wants.len() ==> queue_in_sync(vhost, #[trigger] wants[j], queues),
    decreases wants.len(),
{
    if wants.len() > 0 {
        let prefix = wants.drop_last();
        lemma_queues_drift_empty(vhost, prefix, queues);
        lemma_queue_drift_empty(vhost, wants.last(), queues);
        if forall|j: int| 0 <= j < wants.len() ==> queue_in_sync(vhost, #[trigger] wants[j], queues) {
            assert forall|j: int| 0 <= j < prefix.len() implies queue_in_sync(
                vhost,
                #[trigger] prefix[j],
                queues,
            ) by {
                assert(prefix[j] == wants[j]);
            }
            assert(queue_in_sync(vhost, wants[wants.len() - 1], queues));
        }
        if queues_drift(vhost, wants, queues).len() == 0 {
            assert forall|j: int| 0 <= j < wants.len() implies queue_in_sync(
                vhost,
                #[trigger] wants[j],
                queues,
            ) by {
                if j < wants.len() - 1 {
                    assert(prefix[j] == wants[j]);
                }
            }
        }
    }
}

proof fn lemma_declared_drift_empty(wants: Seq<VhostSpecView>, observed: ObservedTopologyView)
    ensures
        declared_drift(wants, observed).len() == 0 <==> forall|i: int|
            0 <= i < wants.len() ==> vhost_in_sync(#[trigger] wants[i], observed),
    decreases wants.len(),
{
    if wants.len() > 0 {
        let prefix = wants.drop_last();
        let last = wants.last();
        lemma_declared_drift_empty(prefix, observed);
        lemma_queues_drift_empty(last.name, last.queues, observed.queues);
        assert(vhost_drift(last, observed).len() == 0 <==> vhost_in_sync(last, observed));
        if forall|i: int| 0 <= i < wants.len() ==> vhost_in_sync(#[trigger] wants[i], observed) {
            assert forall|i: int| 0 <= i < prefix.len() implies vhost_in_sync(
                #[trigger] prefix[i],
                observed,
            ) by {
                assert(prefix[i] == wants[i]);
            }
            assert(vhost_in_sync(wants[wants.len() - 1], observed));
        }
        if declared_drift(wants, observed).len() == 0 {
            assert forall|i: int| 0 <= i < wants.len() implies vhost_in_sync(
                #[trigger] wants[i],
                observed,
            ) by {
                if i < wants.len() - 1 {
                    assert(prefix[i] == wants[i]);
                }
            }
        }
    }
}

proof fn lemma_undeclared_drift_empty(seen: Seq<ObservedVhostView>, wants: Seq<VhostSpecView>)
    ensures
        undeclared_drift(seen, wants).len() == 0 <==> forall|k: int|
            0 <= k < seen.len() ==> vhost_declared(wants, #[trigger] seen[k].name),
    decreases seen.len(),
{
    if seen.len() > 0 {
        let prefix = seen.drop_last();
        lemma_undeclared_drift_empty(prefix, wants);
        if forall|k: int| 0 <= k < seen.len() ==> vhost_declared(wants, #[trigger] seen[k].name) {
            assert forall|k: int| 0 <= k < prefix.len() implies vhost_declared(
                wants,
                #[trigger] prefix[k].name,
            ) by {
                assert(prefix[k] == seen[k]);
            }
            assert(vhost_declared(wants, seen[seen.len() - 1].name));
        }
        if undeclared_drift(seen, wants).len() == 0 {
            assert forall|k: int| 0 <= k < seen.len() implies vhost_declared(
                wants,
                #[trigger] seen[k].name,
            ) by {
                if k < seen.len() - 1 {
                    assert(prefix[k] == seen[k]);
                }
            }
        }
    }
}

/// The comparison reports no drift exactly when the broker and the spec agree: every
/// declared vhost exists, every declared queue exists in it with the declared
/// durability, and the broker has no vhost that the spec does not declare.
pub proof fn lemma_no_drift_iff_in_sync(
    desired: RabbitmqTopologySpecView,
    observed: ObservedTopologyView,
)
    ensures
        topology_drift(desired, observed).len() == 0 <==> in_sync(desired, observed),
{
    lemma_declared_drift_empty(desired.vhosts, observed);
    lemma_undeclared_drift_empty(observed.vhosts, desired.vhosts);
}


/// What an entry of the drift of a vhost's declared queues claims.
spec fn queue_entry_holds(
    vhost: Seq<char>,
    wants: Seq<QueueSpecView>,
    queues: Seq<ObservedQueueView>,
    d: DriftView,
) -> bool {
    match d {
        DriftView::MissingQueue { vhost: v, queue } => {
            &&& v == vhost
            &&& exists|j: int| 0 <= j < wants.len() && #[trigger] wants[j].name == queue
            &&& find_queue(queues, vhost, queue) is None
        },
        DriftView::QueueDurabilityMismatch { vhost: v, queue, desired_durable, observed_durable } => {
            &&& v == vhost
            &&& exists|j: int|
                0 <= j < wants.len() && #[trigger] wants[j] == (QueueSpecView {
                    name: queue,
                    durable: desired_durable,
                })
            &&& find_queue(queues, vhost, queue) matches Some(found) && found.durable
                == observed_durable
            &&& desired_durable != observed_durable
        },
        _ => false,
    }
}

/// What an entry of the drift of the declared vhosts claims.
spec fn declared_entry_holds(
    wants: Seq<VhostSpecView>,
    observed: ObservedTopologyView,
    d: DriftView,
) -> bool {
    match d {
        DriftView::UndeclaredVhost { .. } => false,
        _ => drift_holds(RabbitmqTopologySpecView {
            management_api: Seq::empty(),
            credentials_secret_ref: Seq::empty(),
            vhosts: wants,
        }, observed, d),
    }
}

proof fn lemma_queues_drift_sound(
    vhost: Seq<char>,
    wants: Seq<QueueSpecView>,
    queues: Seq<ObservedQueueView>,
)
    ensures
        forall|k: int|
            0 <= k < queues_drift(vhost, wants, queues).len() ==> queue_entry_holds(
                vhost,
                wants,
                queues,
                #[trigger] queues_drift(vhost, wants, queues)[k],
            ),
    decreases wants.len(),
{
    if wants.len() > 0 {
        let prefix = wants.drop_last();
        let last = wants.last();
        lemma_queues_drift_sound(vhost, prefix, queues);
        let head = queues_drift(vhost, prefix, queues);
        let tail = queue_drift(vhost, last, queues);
        assert forall|k: int|
            0 <= k < queues_drift(vhost, wants, queues).len() implies queue_entry_holds(
            vhost,
            wants,
            queues,
            #[trigger] queues_drift(vhost, wants, queues)[k],
        ) by {
            let d = queues_drift(vhost, wants, queues)[k];
            if k < head.len() {
                assert(d == head[k]);
                assert(queue_entry_holds(vhost, prefix, queues, d));
                match d {
                    DriftView::MissingQueue { vhost: v, queue } => {
                        let j = choose|j: int| 0 <= j < prefix.len() && #[trigger] prefix[j].name == queue;
                        assert(wants[j] == prefix[j]);
                    },
                    DriftView::QueueDurabilityMismatch { vhost: v, queue, desired_durable, .. } => {
                        let j = choose|j: int|
                            0 <= j < prefix.len() && #[trigger] prefix[j] == (QueueSpecView {
                                name: queue,
                                durable: desired_durable,
                            });
                        assert(wants[j] == prefix[j]);
                    },
                    _ => {},
                }
            } else {
                assert(d == tail[k - head.len()]);
                assert(wants[wants.len() - 1] == last);
            }
        }
    }
}

proof fn lemma_declared_drift_sound(wants: Seq<VhostSpecView>, observed: ObservedTopologyView)
    ensures
        forall|k: int|
            0 <= k < declared_drift(wants, observed).len() ==> declared_entry_holds(
                wants,
                observed,
                #[trigger] declared_drift(wants, observed)[k],
            ),
    decreases wants.len(),
{
    if wants.len() > 0 {
        let prefix = wants.drop_last();
        let last = wants.last();
        let n = wants.len() - 1;
        assert(wants[n] == last);
        lemma_declared_drift_sound(prefix, observed);
        lemma_queues_drift_sound(last.name, last.queues, observed.queues);
        let head = declared_drift(prefix, observed);
        let tail = vhost_drift(last, observed);
        assert forall|k: int|
            0 <= k < declared_drift(wants, observed).len() implies declared_entry_holds(
            wants,
            observed,
            #[trigger] declared_drift(wants, observed)[k],
        ) by {
            let d = declared_drift(wants, observed)[k];
            if k < head.len() {
                assert(d == head[k]);
                assert(declared_entry_holds(prefix, observed, d));
                match d {
                    DriftView::MissingVhost { vhost } => {
                        let i = choose|i: int| 0 <= i < prefix.len() && #[trigger] prefix[i].name == vhost;
                        assert(wants[i] == prefix[i]);
                    },
                    DriftView::MissingQueue { vhost, queue } => {
                        let (i, j) = choose|i: int, j: int|
                            0 <= i < prefix.len() && 0 <= j < prefix[i].queues.len()
                                && #[trigger] prefix[i].name == vhost
                                && #[trigger] prefix[i].queues[j].name == queue;
                        assert(wants[i] == prefix[i]);
                        assert(wants[i].queues[j].name == queue);
                    },
                    DriftView::QueueDurabilityMismatch { vhost, queue, desired_durable, .. } => {
                        let (i, j) = choose|i: int, j: int|
                            0 <= i < prefix.len() && 0 <= j < prefix[i].queues.len()
                                && #[trigger] prefix[i].name == vhost
                                && #[trigger] prefix[i].queues[j] == (QueueSpecView {
                                name: queue,
                                durable: desired_durable,
                            });
                        assert(wants[i] == prefix[i]);
                        assert(wants[i].queues[j] == prefix[i].queues[j]);
                    },
                    _ => {},
                }
            } else {
                assert(d == tail[k - head.len()]);
                if vhost_present(observed.vhosts, last.name) {
                    let qd = queues_drift(last.name, last.queues, observed.queues);
                    assert(d == qd[k - head.len()]);
                    assert(queue_entry_holds(last.name, last.queues, observed.queues, d));
                    match d {
                        DriftView::MissingQueue { vhost, queue } => {
                            let j = choose|j: int|
                                0 <= j < last.queues.len() && #[trigger] last.queues[j].name == queue;
                            assert(wants[n].queues[j].name == queue);
                        },
                        DriftView::QueueDurabilityMismatch { vhost, queue, desired_durable, .. } => {
                            let j = choose|j: int|
                                0 <= j < last.queues.len() && #[trigger] last.queues[j] == (
                                QueueSpecView { name: queue, durable: desired_durable });
                            assert(wants[n].queues[j] == last.queues[j]);
                        },
                        _ => {},
                    }
                } else {
                    assert(d == DriftView::MissingVhost { vhost: last.name });
                }
            }
        }
    }
}

proof fn lemma_undeclared_drift_sound(seen: Seq<ObservedVhostView>, wants: Seq<VhostSpecView>)
    ensures
        forall|k: int|
            0 <= k < undeclared_drift(seen, wants).len() ==> {
                let d = #[trigger] undeclared_drift(seen, wants)[k];
                &&& d is UndeclaredVhost
                &&& vhost_present(seen, d->UndeclaredVhost_vhost)
                &&& !vhost_declared(wants, d->UndeclaredVhost_vhost)
            },
    decreases seen.len(),
{
    if seen.len() > 0 {
        let prefix = seen.drop_last();
        let n = seen.len() - 1;
        lemma_undeclared_drift_sound(prefix, wants);
        let head = undeclared_drift(prefix, wants);
        assert forall|k: int| 0 <= k < undeclared_drift(seen, wants).len() implies {
            let d = #[trigger] undeclared_drift(seen, wants)[k];
            &&& d is UndeclaredVhost
            &&& vhost_present(seen, d->UndeclaredVhost_vhost)
            &&& !vhost_declared(wants, d->UndeclaredVhost_vhost)
        } by {
            let d = undeclared_drift(seen, wants)[k];
            if k < head.len() {
                assert(d == head[k]);
                let i = choose|i: int| 0 <= i < prefix.len() && #[trigger] prefix[i].name == d->UndeclaredVhost_vhost;
                assert(seen[i] == prefix[i]);
            } else {
                assert(seen[n].name == seen.last().name);
            }
        }
    }
}

/// Every entry that the comparison reports is a true fact about the two inputs: a
/// missing vhost is declared and absent, a missing queue is declared in a vhost the
/// broker has and absent from it, a durability mismatch names a declared queue
/// whose first observed match has the other durability, and an undeclared vhost is
/// on the broker and not in the spec.
pub proof fn lemma_drift_is_sound(desired: RabbitmqTopologySpecView, observed: ObservedTopologyView)
    ensures
        forall|k: int|
            0 <= k < topology_drift(desired, observed).len() ==> drift_holds(
                desired,
                observed,
                #[trigger] topology_drift(desired, observed)[k],
            ),
{
    lemma_declared_drift_sound(desired.vhosts, observed);
    lemma_undeclared_drift_sound(observed.vhosts, desired.vhosts);
    let head = declared_drift(desired.vhosts, observed);
    let tail = undeclared_drift(observed.vhosts, desired.vhosts);
    assert forall|k: int| 0 <= k < topology_drift(desired, observed).len() implies drift_holds(
        desired,
        observed,
        #[trigger] topology_drift(desired, observed)[k],
    ) by {
        if k < head.len() {
            assert(topology_drift(desired, observed)[k] == head[k]);
            assert(declared_entry_holds(desired.vhosts, observed, head[k]));
        } else {
            assert(topology_drift(desired, observed)[k] == tail[k - head.len()]);
        }
    }
}

/// A vhost that the broker lacks yields no queue drift: its queues are not reported
/// on top of the vhost itself.
pub proof fn lemma_absent_vhost_has_no_queue_drift(
    desired: RabbitmqTopologySpecView,
    observed: ObservedTopologyView,
    vhost: Seq<char>,
)
    requires
        !vhost_present(observed.vhosts, vhost),
    ensures
        forall|k: int|
            0 <= k < topology_drift(desired, observed).len() ==> match #[trigger] topology_drift(
                desired,
                observed,
            )[k] {
                DriftView::MissingQueue { vhost: v, .. } => v != vhost,
                DriftView::QueueDurabilityMismatch { vhost: v, .. } => v != vhost,
                _ => true,
            },
{
    lemma_drift_is_sound(desired, observed);
}


/// The drift `drift` reports the declared queue `want` of `vhost` if it is absent
/// from the broker or its first observed match has the other durability.
pub open spec fn queue_reported(
    vhost: Seq<char>,
    want: QueueSpecView,
    queues: Seq<ObservedQueueView>,
    drift: Seq<DriftView>,
) -> bool {
    match find_queue(queues, vhost, want.name) {
        None => drift.contains(DriftView::MissingQueue { vhost, queue: want.name }),
        Some(found) => found.durable != want.durable ==> drift.contains(
            DriftView::QueueDurabilityMismatch {
                vhost,
                queue: want.name,
                desired_durable: want.durable,
                observed_durable: found.durable,
            },
        ),
    }
}

/// The drift `drift` reports the declared vhost `want` if the broker lacks it, and
/// otherwise each of its queues that disagrees with the broker.
pub open spec fn vhost_reported(
    want: VhostSpecView,
    observed: ObservedTopologyView,
    drift: Seq<DriftView>,
) -> bool {
    if vhost_present(observed.vhosts, want.name) {
        forall|j: int|
            0 <= j < want.queues.len() ==> queue_reported(
                want.name,
                #[trigger] want.queues[j],
                observed.queues,
                drift,
            )
    } else {
        drift.contains(DriftView::MissingVhost { vhost: want.name })
    }
}

proof fn lemma_contains_in_concat(a: Seq<DriftView>, b: Seq<DriftView>, x: DriftView)
    ensures
        a.contains(x) ==> (a + b).contains(x),
        a.contains(x) ==> (b + a).contains(x),
{
    if a.contains(x) {
        let i = choose|i: int| 0 <= i < a.len() && a[i] == x;
        assert((a + b)[i] == x);
        assert((b + a)[b.len() + i] == x);
    }
}

proof fn lemma_queue_reported_extends(
    vhost: Seq<char>,
    want: QueueSpecView,
    queues: Seq<ObservedQueueView>,
    a: Seq<DriftView>,
    b: Seq<DriftView>,
)
    requires
        queue_reported(vhost, want, queues, a),
    ensures
        queue_reported(vhost, want, queues, a + b),
        queue_reported(vhost, want, queues, b + a),
{
    lemma_contains_in_concat(a, b, DriftView::MissingQueue { vhost, queue: want.name });
    match find_queue(queues, vhost, want.name) {
        Some(found) => {
            lemma_contains_in_concat(
                a,
                b,
                DriftView::QueueDurabilityMismatch {
                    vhost,
                    queue: want.name,
                    desired_durable: want.durable,
                    observed_durable: found.durable,
                },
            );
        },
        None => {},
    }
}

proof fn lemma_vhost_reported_extends(
    want: VhostSpecView,
    observed: ObservedTopologyView,
    a: Seq<DriftView>,
    b: Seq<DriftView>,
)
    requires
        vhost_reported(want, observed, a),
    ensures
        vhost_reported(want, observed, a + b),
        vhost_reported(want, observed, b + a),
{
    if vhost_present(observed.vhosts, want.name) {
        assert forall|j: int| 0 <= j < want.queues.len() implies queue_reported(
            want.name,
            #[trigger] want.queues[j],
            observed.queues,
            a + b,
        ) && queue_reported(want.name, want.queues[j], observed.queues, b + a) by {
            lemma_queue_reported_extends(want.name, want.queues[j], observed.queues, a, b);
        }
    } else {
        lemma_contains_in_concat(a, b, DriftView::MissingVhost { vhost: want.name });
    }
}

proof fn lemma_queues_drift_complete(
    vhost: Seq<char>,
    wants: Seq<QueueSpecView>,
    queues: Seq<ObservedQueueView>,
)
    ensures
        forall|j: int|
            0 <= j < wants.len() ==> queue_reported(
                vhost,
                #[trigger] wants[j],
                queues,
                queues_drift(vhost, wants, queues),
            ),
    decreases wants.len(),
{
    if wants.len() > 0 {
        let prefix = wants.drop_last();
        let last = wants.last();
        lemma_queues_drift_complete(vhost, prefix, queues);
        let head = queues_drift(vhost, prefix, queues);
        let tail = queue_drift(vhost, last, queues);
        assert forall|j: int| 0 <= j < wants.len() implies queue_reported(
            vhost,
            #[trigger] wants[j],
            queues,
            queues_drift(vhost, wants, queues),
        ) by {
            if j < wants.len() - 1 {
                assert(prefix[j] == wants[j]);
                lemma_queue_reported_extends(vhost, wants[j], queues, head, tail);
            } else {
                assert(wants[j] == last);
                match find_queue(queues, vhost, last.name) {
                    None => {
                        assert(tail[0] == DriftView::MissingQueue { vhost, queue: last.name });
                    },
                    Some(found) => {
                        if found.durable != last.durable {
                            assert(tail[0] == DriftView::QueueDurabilityMismatch {
                                vhost,
                                queue: last.name,
                                desired_durable: last.durable,
                                observed_durable: found.durable,
                            });
                        }
                    },
                }
                assert(queue_reported(vhost, last, queues, tail));
                lemma_queue_reported_extends(vhost, last, queues, tail, head);
            }
        }
    }
}

proof fn lemma_declared_drift_complete(wants: Seq<VhostSpecView>, observed: ObservedTopologyView)
    ensures
        forall|i: int|
            0 <= i < wants.len() ==> vhost_reported(
                #[trigger] wants[i],
                observed,
                declared_drift(wants, observed),
            ),
    decreases wants.len(),
{
    if wants.len() > 0 {
        let prefix = wants.drop_last();
        let last = wants.last();
        lemma_declared_drift_complete(prefix, observed);
        lemma_queues_drift_complete(last.name, last.queues, observed.queues);
        let head = declared_drift(prefix, observed);
        let tail = vhost_drift(last, observed);
        if !vhost_present(observed.vhosts, last.name) {
            assert(tail[0] == DriftView::MissingVhost { vhost: last.name });
        }
        assert(vhost_reported(last, observed, tail));
        assert forall|i: int| 0 <= i < wants.len() implies vhost_reported(
            #[trigger] wants[i],
            observed,
            declared_drift(wants, observed),
        ) by {
            if i < wants.len() - 1 {
                assert(prefix[i] == wants[i]);
                lemma_vhost_reported_extends(wants[i], observed, head, tail);
            } else {
                lemma_vhost_reported_extends(last, observed, tail, head);
            }
        }
    }
}

proof fn lemma_undeclared_drift_complete(seen: Seq<ObservedVhostView>, wants: Seq<VhostSpecView>)
    ensures
        forall|k: int|
            0 <= k < seen.len() && !vhost_declared(wants, #[trigger] seen[k].name)
                ==> undeclared_drift(seen, wants).contains(
                DriftView::UndeclaredVhost { vhost: seen[k].name },
            ),
    decreases seen.len(),
{
    if seen.len() > 0 {
        let prefix = seen.drop_last();
        let n = seen.len() - 1;
        lemma_undeclared_drift_complete(prefix, wants);
        let head = undeclared_drift(prefix, wants);
        let tail = if vhost_declared(wants, seen.last().name) {
            Seq::<DriftView>::empty()
        } else {
            seq![DriftView::UndeclaredVhost { vhost: seen.last().name }]
        };
        assert(undeclared_drift(seen, wants) == head + tail);
        assert forall|k: int|
            0 <= k < seen.len() && !vhost_declared(wants, #[trigger] seen[k].name) implies undeclared_drift(
            seen,
            wants,
        ).contains(DriftView::UndeclaredVhost { vhost: seen[k].name }) by {
            let x = DriftView::UndeclaredVhost { vhost: seen[k].name };
            if k < n {
                assert(prefix[k] == seen[k]);
                lemma_contains_in_concat(head, tail, x);
            } else {
                assert(tail[0] == x);
                lemma_contains_in_concat(tail, head, x);
            }
        }
    }
}

/// Every disagreement between the spec and the broker is reported: each declared
/// vhost that the broker lacks, each declared queue of a present vhost that the
/// broker lacks or holds with the other durability, and each vhost on the broker
/// that the spec does not declare.
pub proof fn lemma_drift_is_complete(desired: RabbitmqTopologySpecView, observed: ObservedTopologyView)
    ensures
        forall|i: int|
            0 <= i < desired.vhosts.len() ==> vhost_reported(
                #[trigger] desired.vhosts[i],
                observed,
                topology_drift(desired, observed),
            ),
        forall|k: int|
            0 <= k < observed.vhosts.len() && !vhost_declared(
                desired.vhosts,
                #[trigger] observed.vhosts[k].name,
            ) ==> topology_drift(desired, observed).contains(
                DriftView::UndeclaredVhost { vhost: observed.vhosts[k].name },
            ),
{
    let head = declared_drift(desired.vhosts, observed);
    let tail = undeclared_drift(observed.vhosts, desired.vhosts);
    lemma_declared_drift_complete(desired.vhosts, observed);
    lemma_undeclared_drift_complete(observed.vhosts, desired.vhosts);
    assert forall|i: int| 0 <= i < desired.vhosts.len() implies vhost_reported(
        #[trigger] desired.vhosts[i],
        observed,
        topology_drift(desired, observed),
    ) by {
        lemma_vhost_reported_extends(desired.vhosts[i], observed, head, tail);
    }
    assert forall|k: int|
        0 <= k < observed.vhosts.len() && !vhost_declared(
            desired.vhosts,
            #[trigger] observed.vhosts[k].name,
        ) implies topology_drift(desired, observed).contains(
        DriftView::UndeclaredVhost { vhost: observed.vhosts[k].name },
    ) by {
        lemma_contains_in_concat(tail, head, DriftView::UndeclaredVhost { vhost: observed.vhosts[k].name });
    }
}


/// The comparison reads only the declared vhosts of the spec: the management API
/// endpoint and the Secret reference do not change the drift.
pub proof fn lemma_drift_ignores_endpoint_fields(
    desired: RabbitmqTopologySpecView,
    other: RabbitmqTopologySpecView,
    observed: ObservedTopologyView,
)
    requires
        desired.vhosts == other.vhosts,
    ensures
        topology_drift(desired, observed) == topology_drift(other, observed),
{
}

proof fn lemma_find_queue_from_insert(
    queues: Seq<ObservedQueueView>,
    pos: int,
    row: ObservedQueueView,
    vhost: Seq<char>,
    name: Seq<char>,
    from: int,
)
    requires
        0 <= pos <= queues.len(),
        0 <= from,
        !(row.vhost == vhost && row.name == name),
    ensures
        from <= pos ==> find_queue_from(queues.insert(pos, row), vhost, name, from)
            == find_queue_from(queues, vhost, name, from),
        from > pos ==> find_queue_from(queues.insert(pos, row), vhost, name, from)
            == find_queue_from(queues, vhost, name, from - 1),
    decreases queues.len() + 1 - from,
{
    queues.insert_ensures(pos, row);
    let grown = queues.insert(pos, row);
    if from < grown.len() {
        lemma_find_queue_from_insert(queues, pos, row, vhost, name, from + 1);
        if from > pos {
            assert(grown[from] == queues[from - 1]);
        }
    }
}

proof fn lemma_queues_drift_same_lookups(
    vhost: Seq<char>,
    wants: Seq<QueueSpecView>,
    queues: Seq<ObservedQueueView>,
    other: Seq<ObservedQueueView>,
)
    requires
        forall|j: int|
            0 <= j < wants.len() ==> find_queue(queues, vhost, #[trigger] wants[j].name) == find_queue(
                other,
                vhost,
                wants[j].name,
            ),
    ensures
        queues_drift(vhost, wants, queues) == queues_drift(vhost, wants, other),
    decreases wants.len(),
{
    if wants.len() > 0 {
        let prefix = wants.drop_last();
        assert forall|j: int| 0 <= j < prefix.len() implies find_queue(
            queues,
            vhost,
            #[trigger] prefix[j].name,
        ) == find_queue(other, vhost, prefix[j].name) by {
            assert(prefix[j] == wants[j]);
        }
        lemma_queues_drift_same_lookups(vhost, prefix, queues, other);
        assert(wants[wants.len() - 1] == wants.last());
    }
}

proof fn lemma_declared_drift_same_lookups(
    wants: Seq<VhostSpecView>,
    observed: ObservedTopologyView,
    other: ObservedTopologyView,
)
    requires
        observed.vhosts == other.vhosts,
        forall|i: int, j: int|
            0 <= i < wants.len() && 0 <= j < wants[i].queues.len() ==> find_queue(
                observed.queues,
                wants[i].name,
                #[trigger] wants[i].queues[j].name,
            ) == find_queue(other.queues, wants[i].name, wants[i].queues[j].name),
    ensures
        declared_drift(wants, observed) == declared_drift(wants, other),
    decreases wants.len(),
{
    if wants.len() > 0 {
        let prefix = wants.drop_last();
        let n = wants.len() - 1;
        assert forall|i: int, j: int|
            0 <= i < prefix.len() && 0 <= j < prefix[i].queues.len() implies find_queue(
            observed.queues,
            prefix[i].name,
            #[trigger] prefix[i].queues[j].name,
        ) == find_queue(other.queues, prefix[i].name, prefix[i].queues[j].name) by {
            assert(prefix[i] == wants[i]);
            assert(wants[i].queues[j].name == prefix[i].queues[j].name);
        }
        lemma_declared_drift_same_lookups(prefix, observed, other);
        let last = wants.last();
        assert(wants[n] == last);
        assert forall|j: int| 0 <= j < last.queues.len() implies find_queue(
            observed.queues,
            last.name,
            #[trigger] last.queues[j].name,
        ) == find_queue(other.queues, last.name, last.queues[j].name) by {
            assert(wants[n].queues[j].name == last.queues[j].name);
        }
        lemma_queues_drift_same_lookups(last.name, last.queues, observed.queues, other.queues);
    }
}

/// One queue row that the spec does not ask about, inserted anywhere in the
/// listing, does not change the drift.
proof fn lemma_unasked_queue_row_does_not_matter(
    desired: RabbitmqTopologySpecView,
    observed: ObservedTopologyView,
    pos: int,
    row: ObservedQueueView,
)
    requires
        0 <= pos <= observed.queues.len(),
        forall|i: int, j: int|
            0 <= i < desired.vhosts.len() && 0 <= j < desired.vhosts[i].queues.len() ==> !(
            row.vhost == desired.vhosts[i].name && row.name
                == #[trigger] desired.vhosts[i].queues[j].name),
    ensures
        topology_drift(
            desired,
            ObservedTopologyView {
                vhosts: observed.vhosts,
                queues: observed.queues.insert(pos, row),
            },
        ) == topology_drift(desired, observed),
{
    let grown = ObservedTopologyView {
        vhosts: observed.vhosts,
        queues: observed.queues.insert(pos, row),
    };
    let wants = desired.vhosts;
    assert forall|i: int, j: int|
        0 <= i < wants.len() && 0 <= j < wants[i].queues.len() implies find_queue(
        grown.queues,
        wants[i].name,
        #[trigger] wants[i].queues[j].name,
    ) == find_queue(observed.queues, wants[i].name, wants[i].queues[j].name) by {
        lemma_find_queue_from_insert(
            observed.queues,
            pos,
            row,
            wants[i].name,
            wants[i].queues[j].name,
            0,
        );
    }
    lemma_declared_drift_same_lookups(wants, grown, observed);
}


/// The spec asks about this observed queue row: some declared vhost declares a queue
/// of the row's vhost and name.
pub open spec fn row_asked_about(desired: RabbitmqTopologySpecView, row: ObservedQueueView) -> bool {
    exists|i: int, j: int|
        0 <= i < desired.vhosts.len() && 0 <= j < desired.vhosts[i].queues.len() && row.vhost
            == desired.vhosts[i].name && row.name == #[trigger] desired.vhosts[i].queues[j].name
}

/// The queue listing `queues` with the rows of `rows` inserted one after another,
/// each `(position, row)` at its position in the listing as it stands by then.
pub open spec fn insert_rows(
    queues: Seq<ObservedQueueView>,
    rows: Seq<(int, ObservedQueueView)>,
) -> Seq<ObservedQueueView>
    decreases rows.len(),
{
    if rows.len() == 0 {
        queues
    } else {
        insert_rows(queues, rows.drop_last()).insert(rows.last().0, rows.last().1)
    }
}

/// Queue rows that the spec does not ask about do not change the drift, however many
/// there are and wherever they stand in the broker's listing.
pub proof fn lemma_unasked_queue_rows_do_not_matter(
    desired: RabbitmqTopologySpecView,
    observed: ObservedTopologyView,
    rows: Seq<(int, ObservedQueueView)>,
)
    requires
        forall|k: int|
            0 <= k < rows.len() ==> 0 <= #[trigger] rows[k].0 <= observed.queues.len() + k
                && !row_asked_about(desired, rows[k].1),
    ensures
        insert_rows(observed.queues, rows).len() == observed.queues.len() + rows.len(),
        topology_drift(
            desired,
            ObservedTopologyView {
                vhosts: observed.vhosts,
                queues: insert_rows(observed.queues, rows),
            },
        ) == topology_drift(desired, observed),
    decreases rows.len(),
{
    if rows.len() > 0 {
        let prefix = rows.drop_last();
        let n = rows.len() - 1;
        assert forall|k: int| 0 <= k < prefix.len() implies 0 <= #[trigger] prefix[k].0
            <= observed.queues.len() + k && !row_asked_about(desired, prefix[k].1) by {
            assert(prefix[k] == rows[k]);
        }
        lemma_unasked_queue_rows_do_not_matter(desired, observed, prefix);
        let mid = ObservedTopologyView {
            vhosts: observed.vhosts,
            queues: insert_rows(observed.queues, prefix),
        };
        assert(rows[n] == rows.last());
        let pos = rows.last().0;
        let row = rows.last().1;
        assert(0 <= rows[n].0 <= observed.queues.len() + n);
        assert(!row_asked_about(desired, rows[n].1));
        lemma_unasked_queue_row_does_not_matter(desired, mid, pos, row);
        mid.queues.insert_ensures(pos, row);
    }
}


/// The names that identify the two topologies' entries are distinct: no two
/// declared vhosts share a name, no declared vhost declares two queues of one name,
/// and the broker lists no vhost name twice.
pub open spec fn names_distinct(desired: RabbitmqTopologySpecView, observed: ObservedTopologyView) -> bool {
    &&& forall|i1: int, i2: int|
        0 <= i1 < desired.vhosts.len() && 0 <= i2 < desired.vhosts.len() && i1 != i2
            ==> #[trigger] desired.vhosts[i1].name != #[trigger] desired.vhosts[i2].name
    &&& forall|i: int, j1: int, j2: int|
        0 <= i < desired.vhosts.len() && 0 <= j1 < desired.vhosts[i].queues.len() && 0 <= j2
            < desired.vhosts[i].queues.len() && j1 != j2 ==> #[trigger] desired.vhosts[i].queues[j1].name
            != #[trigger] desired.vhosts[i].queues[j2].name
    &&& forall|k1: int, k2: int|
        0 <= k1 < observed.vhosts.len() && 0 <= k2 < observed.vhosts.len() && k1 != k2
            ==> #[trigger] observed.vhosts[k1].name != #[trigger] observed.vhosts[k2].name
}

/// The vhost that a drift entry names.
pub open spec fn entry_vhost(d: DriftView) -> Seq<char> {
    match d {
        DriftView::MissingVhost { vhost } => vhost,
        DriftView::MissingQueue { vhost, .. } => vhost,
        DriftView::QueueDurabilityMismatch { vhost, .. } => vhost,
        DriftView::UndeclaredVhost { vhost } => vhost,
    }
}

/// The queue that a queue-level drift entry names.
pub open spec fn entry_queue(d: DriftView) -> Seq<char> {
    match d {
        DriftView::MissingQueue { queue, .. } => queue,
        DriftView::QueueDurabilityMismatch { queue, .. } => queue,
        _ => Seq::empty(),
    }
}

proof fn lemma_no_duplicates_concat(a: Seq<DriftView>, b: Seq<DriftView>)
    requires
        a.no_duplicates(),
        b.no_duplicates(),
        forall|i: int, j: int| 0 <= i < a.len() && 0 <= j < b.len() ==> a[i] != b[j],
    ensures
        (a + b).no_duplicates(),
{
    assert forall|i: int, j: int|
        0 <= i < (a + b).len() && 0 <= j < (a + b).len() && i != j implies (a + b)[i] != (a
        + b)[j] by {
        if i < a.len() && j >= a.len() {
            assert((a + b)[j] == b[j - a.len()]);
        } else if i >= a.len() && j < a.len() {
            assert((a + b)[i] == b[i - a.len()]);
        } else if i >= a.len() && j >= a.len() {
            assert((a + b)[i] == b[i - a.len()]);
            assert((a + b)[j] == b[j - a.len()]);
        }
    }
}

proof fn lemma_queues_drift_no_duplicates(
    vhost: Seq<char>,
    wants: Seq<QueueSpecView>,
    queues: Seq<ObservedQueueView>,
)
    requires
        forall|j1: int, j2: int|
            0 <= j1 < wants.len() && 0 <= j2 < wants.len() && j1 != j2 ==> #[trigger] wants[j1].name
                != #[trigger] wants[j2].name,
    ensures
        queues_drift(vhost, wants, queues).no_duplicates(),
    decreases wants.len(),
{
    if wants.len() > 0 {
        let prefix = wants.drop_last();
        let n = wants.len() - 1;
        let last = wants.last();
        assert(wants[n] == last);
        assert forall|j1: int, j2: int|
            0 <= j1 < prefix.len() && 0 <= j2 < prefix.len() && j1 != j2 implies #[trigger] prefix[j1].name
            != #[trigger] prefix[j2].name by {
            assert(prefix[j1] == wants[j1]);
            assert(prefix[j2] == wants[j2]);
        }
        lemma_queues_drift_no_duplicates(vhost, prefix, queues);
        lemma_queues_drift_sound(vhost, prefix, queues);
        let head = queues_drift(vhost, prefix, queues);
        let tail = queue_drift(vhost, last, queues);
        assert forall|a: int, b: int| 0 <= a < head.len() && 0 <= b < tail.len() implies head[a]
            != tail[b] by {
            let h = head[a];
            assert(queue_entry_holds(vhost, prefix, queues, h));
            assert(tail[b] is MissingQueue || tail[b] is QueueDurabilityMismatch);
            assert(entry_queue(tail[b]) == last.name);
            if h == tail[b] {
                match h {
                    DriftView::MissingQueue { queue, .. } => {
                        let j = choose|j: int| 0 <= j < prefix.len() && #[trigger] prefix[j].name == queue;
                        assert(prefix[j] == wants[j]);
                        assert(wants[j].name != wants[n].name);
                    },
                    DriftView::QueueDurabilityMismatch { queue, desired_durable, .. } => {
                        let j = choose|j: int|
                            0 <= j < prefix.len() && #[trigger] prefix[j] == (QueueSpecView {
                                name: queue,
                                durable: desired_durable,
                            });
                        assert(prefix[j] == wants[j]);
                        assert(wants[j].name != wants[n].name);
                    },
                    _ => {},
                }
            }
        }
        lemma_no_duplicates_concat(head, tail);
    }
}

proof fn lemma_declared_drift_no_duplicates(wants: Seq<VhostSpecView>, observed: ObservedTopologyView)
    requires
        forall|i1: int, i2: int|
            0 <= i1 < wants.len() && 0 <= i2 < wants.len() && i1 != i2 ==> #[trigger] wants[i1].name
                != #[trigger] wants[i2].name,
        forall|i: int, j1: int, j2: int|
            0 <= i < wants.len() && 0 <= j1 < wants[i].queues.len() && 0 <= j2 < wants[i].queues.len()
                && j1 != j2 ==> #[trigger] wants[i].queues[j1].name != #[trigger] wants[i].queues[j2].name,
    ensures
        declared_drift(wants, observed).no_duplicates(),
    decreases wants.len(),
{
    if wants.len() > 0 {
        let prefix = wants.drop_last();
        let n = wants.len() - 1;
        let last = wants.last();
        assert(wants[n] == last);
        assert forall|i1: int, i2: int|
            0 <= i1 < prefix.len() && 0 <= i2 < prefix.len() && i1 != i2 implies #[trigger] prefix[i1].name
            != #[trigger] prefix[i2].name by {
            assert(prefix[i1] == wants[i1]);
            assert(prefix[i2] == wants[i2]);
        }
        assert forall|i: int, j1: int, j2: int|
            0 <= i < prefix.len() && 0 <= j1 < prefix[i].queues.len() && 0 <= j2 < prefix[i].queues.len()
                && j1 != j2 implies #[trigger] prefix[i].queues[j1].name != #[trigger] prefix[i].queues[j2].name by {
            assert(prefix[i] == wants[i]);
            assert(wants[i].queues[j1].name != wants[i].queues[j2].name);
        }
        lemma_declared_drift_no_duplicates(prefix, observed);
        lemma_declared_drift_sound(prefix, observed);
        let head = declared_drift(prefix, observed);
        let tail = vhost_drift(last, observed);
        assert forall|j1: int, j2: int|
            0 <= j1 < last.queues.len() && 0 <= j2 < last.queues.len() && j1 != j2 implies #[trigger] last.queues[j1].name
            != #[trigger] last.queues[j2].name by {
            assert(wants[n].queues[j1].name != wants[n].queues[j2].name);
        }
        lemma_queues_drift_no_duplicates(last.name, last.queues, observed.queues);
        lemma_queues_drift_sound(last.name, last.queues, observed.queues);
        assert forall|b: int| 0 <= b < tail.len() implies entry_vhost(#[trigger] tail[b]) == last.name by {
            if vhost_present(observed.vhosts, last.name) {
                assert(queue_entry_holds(last.name, last.queues, observed.queues, tail[b]));
            }
        }
        assert forall|a: int, b: int| 0 <= a < head.len() && 0 <= b < tail.len() implies head[a]
            != tail[b] by {
            let h = head[a];
            assert(declared_entry_holds(prefix, observed, h));
            assert(entry_vhost(tail[b]) == last.name);
            if h == tail[b] {
                match h {
                    DriftView::MissingVhost { vhost } => {
                        let i = choose|i: int| 0 <= i < prefix.len() && #[trigger] prefix[i].name == vhost;
                        assert(prefix[i] == wants[i]);
                        assert(wants[i].name != wants[n].name);
                    },
                    DriftView::MissingQueue { vhost, queue } => {
                        let (i, j) = choose|i: int, j: int|
                            0 <= i < prefix.len() && 0 <= j < prefix[i].queues.len()
                                && #[trigger] prefix[i].name == vhost
                                && #[trigger] prefix[i].queues[j].name == queue;
                        assert(prefix[i] == wants[i]);
                        assert(wants[i].name != wants[n].name);
                    },
                    DriftView::QueueDurabilityMismatch { vhost, queue, desired_durable, .. } => {
                        let (i, j) = choose|i: int, j: int|
                            0 <= i < prefix.len() && 0 <= j < prefix[i].queues.len()
                                && #[trigger] prefix[i].name == vhost
                                && #[trigger] prefix[i].queues[j] == (QueueSpecView {
                                name: queue,
                                durable: desired_durable,
                            });
                        assert(prefix[i] == wants[i]);
                        assert(wants[i].name != wants[n].name);
                    },
                    _ => {},
                }
            }
        }
        lemma_no_duplicates_concat(head, tail);
    }
}

proof fn lemma_undeclared_drift_no_duplicates(seen: Seq<ObservedVhostView>, wants: Seq<VhostSpecView>)
    requires
        forall|k1: int, k2: int|
            0 <= k1 < seen.len() && 0 <= k2 < seen.len() && k1 != k2 ==> #[trigger] seen[k1].name
                != #[trigger] seen[k2].name,
    ensures
        undeclared_drift(seen, wants).no_duplicates(),
    decreases seen.len(),
{
    if seen.len() > 0 {
        let prefix = seen.drop_last();
        let n = seen.len() - 1;
        assert(seen[n] == seen.last());
        assert forall|k1: int, k2: int|
            0 <= k1 < prefix.len() && 0 <= k2 < prefix.len() && k1 != k2 implies #[trigger] prefix[k1].name
            != #[trigger] prefix[k2].name by {
            assert(prefix[k1] == seen[k1]);
            assert(prefix[k2] == seen[k2]);
        }
        lemma_undeclared_drift_no_duplicates(prefix, wants);
        lemma_undeclared_drift_sound(prefix, wants);
        let head = undeclared_drift(prefix, wants);
        let tail = if vhost_declared(wants, seen.last().name) {
            Seq::<DriftView>::empty()
        } else {
            seq![DriftView::UndeclaredVhost { vhost: seen.last().name }]
        };
        assert(undeclared_drift(seen, wants) == head + tail);
        assert forall|a: int, b: int| 0 <= a < head.len() && 0 <= b < tail.len() implies head[a]
            != tail[b] by {
            let h = head[a];
            if h == tail[b] {
                let k = choose|k: int| 0 <= k < prefix.len() && #[trigger] prefix[k].name == h->UndeclaredVhost_vhost;
                assert(prefix[k] == seen[k]);
                assert(seen[k].name != seen[n].name);
            }
        }
        lemma_no_duplicates_concat(head, tail);
    }
}

/// Each entry that the comparison can report appears in it exactly when it is a
/// true disagreement between the spec and the broker.
pub proof fn lemma_drift_contains_exactly_the_disagreements(
    desired: RabbitmqTopologySpecView,
    observed: ObservedTopologyView,
)
    ensures
        forall|d: DriftView|
            #[trigger] topology_drift(desired, observed).contains(d) <==> drift_holds(desired, observed, d),
{
    let drift = topology_drift(desired, observed);
    lemma_drift_is_sound(desired, observed);
    lemma_drift_is_complete(desired, observed);
    assert forall|d: DriftView| drift_holds(desired, observed, d) implies #[trigger] drift.contains(d) by {
        match d {
            DriftView::MissingVhost { vhost } => {
                let i = choose|i: int| 0 <= i < desired.vhosts.len() && #[trigger] desired.vhosts[i].name == vhost;
                assert(vhost_reported(desired.vhosts[i], observed, drift));
            },
            DriftView::MissingQueue { vhost, queue } => {
                let (i, j) = choose|i: int, j: int|
                    0 <= i < desired.vhosts.len() && 0 <= j < desired.vhosts[i].queues.len()
                        && #[trigger] desired.vhosts[i].name == vhost
                        && #[trigger] desired.vhosts[i].queues[j].name == queue;
                assert(vhost_reported(desired.vhosts[i], observed, drift));
                assert(queue_reported(vhost, desired.vhosts[i].queues[j], observed.queues, drift));
            },
            DriftView::QueueDurabilityMismatch { vhost, queue, desired_durable, .. } => {
                let (i, j) = choose|i: int, j: int|
                    0 <= i < desired.vhosts.len() && 0 <= j < desired.vhosts[i].queues.len()
                        && #[trigger] desired.vhosts[i].name == vhost
                        && #[trigger] desired.vhosts[i].queues[j] == (QueueSpecView {
                        name: queue,
                        durable: desired_durable,
                    });
                assert(vhost_reported(desired.vhosts[i], observed, drift));
                assert(queue_reported(vhost, desired.vhosts[i].queues[j], observed.queues, drift));
            },
            DriftView::UndeclaredVhost { vhost } => {
                let k = choose|k: int| 0 <= k < observed.vhosts.len() && #[trigger] observed.vhosts[k].name == vhost;
                assert(!vhost_declared(desired.vhosts, observed.vhosts[k].name));
            },
        }
    }
    assert forall|d: DriftView| #[trigger] drift.contains(d) implies drift_holds(desired, observed, d) by {
        let k = choose|k: int| 0 <= k < drift.len() && drift[k] == d;
        assert(drift_holds(desired, observed, drift[k]));
    }
}

/// When names are distinct, each disagreement is reported exactly once: a declared
/// vhost that the broker lacks gives one entry, a missing or mismatched queue gives
/// one entry, an undeclared vhost gives one entry, and nothing else appears. The
/// number of entries is the number of disagreements.
pub proof fn lemma_each_disagreement_reported_once(
    desired: RabbitmqTopologySpecView,
    observed: ObservedTopologyView,
)
    requires
        names_distinct(desired, observed),
    ensures
        topology_drift(desired, observed).no_duplicates(),
        forall|d: DriftView|
            #[trigger] topology_drift(desired, observed).to_multiset().count(d) == if drift_holds(
                desired,
                observed,
                d,
            ) {
                1nat
            } else {
                0nat
            },
        Set::new(|d: DriftView| drift_holds(desired, observed, d)).finite(),
        topology_drift(desired, observed).len() == Set::new(
            |d: DriftView| drift_holds(desired, observed, d),
        ).len(),
{
    let drift = topology_drift(desired, observed);
    let head = declared_drift(desired.vhosts, observed);
    let tail = undeclared_drift(observed.vhosts, desired.vhosts);
    lemma_declared_drift_no_duplicates(desired.vhosts, observed);
    lemma_undeclared_drift_no_duplicates(observed.vhosts, desired.vhosts);
    lemma_declared_drift_sound(desired.vhosts, observed);
    lemma_undeclared_drift_sound(observed.vhosts, desired.vhosts);
    assert forall|a: int, b: int| 0 <= a < head.len() && 0 <= b < tail.len() implies head[a]
        != tail[b] by {
        assert(declared_entry_holds(desired.vhosts, observed, head[a]));
        assert(tail[b] is UndeclaredVhost);
    }
    lemma_no_duplicates_concat(head, tail);
    lemma_drift_contains_exactly_the_disagreements(desired, observed);
    drift.lemma_multiset_has_no_duplicates();
    assert forall|d: DriftView| #[trigger] drift.to_multiset().count(d) == if drift_holds(
        desired,
        observed,
        d,
    ) {
        1nat
    } else {
        0nat
    } by {
        broadcast use vstd::seq_lib::group_to_multiset_ensures;

        if drift.contains(d) {
            assert(drift.to_multiset().contains(d));
        }
    }
    let holding = Set::new(|d: DriftView| drift_holds(desired, observed, d));
    assert(drift.to_set() =~= holding);
    drift.unique_seq_to_set();
}


/// Every drift line puts each name in its own place, whatever the names are: the
/// fixed wording of its kind with the vhost and queue names (and the two
/// durabilities, as `true` or `false`) inserted verbatim.
pub proof fn lemma_drift_lines_name_their_subjects(
    vhost: Seq<char>,
    queue: Seq<char>,
    desired_durable: bool,
    observed_durable: bool,
)
    ensures
        drift_text(DriftView::MissingVhost { vhost }) == "vhost '"@ + vhost
            + "' declared but absent on the broker"@,
        drift_text(DriftView::MissingQueue { vhost, queue }) == "queue '"@ + queue
            + "' declared in vhost '"@ + vhost + "' but absent on the broker"@,
        drift_text(
            DriftView::QueueDurabilityMismatch { vhost, queue, desired_durable, observed_durable },
        ) == "queue '"@ + vhost + "/"@ + queue + "' durable mismatch: desired="@ + (if desired_durable {
            "true"@
        } else {
            "false"@
        }) + " observed="@ + (if observed_durable {
            "true"@
        } else {
            "false"@
        }),
        drift_text(DriftView::UndeclaredVhost { vhost }) == "vhost '"@ + vhost
            + "' exists on the broker but is not declared"@,
{
}

/// Every error text puts its cause verbatim after the fixed wording of its kind; a
/// failed read of the broker is reported in the read error's own words.
pub proof fn lemma_error_texts_carry_their_cause(cause: String, secret_ref: String)
    ensures
        fetch_error_text(&FetchError::Request(cause)) == "http request to the RabbitMQ management API failed: "@
            + cause@,
        error_text(&Error::Kube(cause)) == "kube: "@ + cause@,
        error_text(&Error::Fetch(FetchError::Request(cause))) == "fetch: "@ + fetch_error_text(
            &FetchError::Request(cause),
        ),
        error_text(&Error::CredentialsUnresolved(secret_ref)) == "credentials for secretRef '"@
            + secret_ref@ + "' could not be resolved"@,
{
}

/// The two listing URLs are the management API base URL, unchanged, followed by the
/// same fixed path for every base URL.
pub proof fn lemma_listing_urls_extend_the_base(base_url: Seq<char>)
    ensures
        vhosts_url(base_url) == base_url + vhosts_url(Seq::empty()),
        queues_url(base_url) == base_url + queues_url(Seq::empty()),
        vhosts_url(Seq::empty()) == "/api/vhosts"@,
        queues_url(Seq::empty()) == "/api/queues"@,
        base_url.is_prefix_of(vhosts_url(base_url)),
        base_url.is_prefix_of(queues_url(base_url)),
{
    assert(Seq::<char>::empty() + "/api/vhosts"@ =~= "/api/vhosts"@);
    assert(Seq::<char>::empty() + "/api/queues"@ =~= "/api/queues"@);
    assert(vhosts_url(base_url).subrange(0, base_url.len() as int) =~= base_url);
    assert(queues_url(base_url).subrange(0, base_url.len() as int) =~= base_url);
}

/// A status patch writes phase `Observed` when the broker was observed and `Error`
/// otherwise; there is no other phase.
pub proof fn lemma_status_phases(patch: StatusPatch)
    ensures
        patch is Observed ==> patch_phase(&patch) == "Observed"@,
        patch is Failed ==> patch_phase(&patch) == "Error"@,
{
}


proof fn lemma_queues_drift_ordered(
    vhost: Seq<char>,
    wants: Seq<QueueSpecView>,
    queues: Seq<ObservedQueueView>,
)
    requires
        forall|j1: int, j2: int|
            0 <= j1 < wants.len() && 0 <= j2 < wants.len() && j1 != j2 ==> #[trigger] wants[j1].name
                != #[trigger] wants[j2].name,
    ensures
        forall|a: int, b: int, j1: int, j2: int|
            #![trigger queues_drift(vhost, wants, queues)[a], queues_drift(vhost, wants, queues)[b], wants[j1], wants[j2]]
            0 <= a < b < queues_drift(vhost, wants, queues).len() && 0 <= j1 < wants.len() && 0 <= j2
                < wants.len() && entry_queue(queues_drift(vhost, wants, queues)[a]) == wants[j1].name
                && entry_queue(queues_drift(vhost, wants, queues)[b]) == wants[j2].name ==> j1 <= j2,
    decreases wants.len(),
{
    if wants.len() > 0 {
        let prefix = wants.drop_last();
        let n = wants.len() - 1;
        let last = wants.last();
        assert(wants[n] == last);
        assert forall|j1: int, j2: int|
            0 <= j1 < prefix.len() && 0 <= j2 < prefix.len() && j1 != j2 implies #[trigger] prefix[j1].name
            != #[trigger] prefix[j2].name by {
            assert(prefix[j1] == wants[j1]);
            assert(prefix[j2] == wants[j2]);
        }
        lemma_queues_drift_ordered(vhost, prefix, queues);
        lemma_queues_drift_sound(vhost, prefix, queues);
        let head = queues_drift(vhost, prefix, queues);
        let tail = queue_drift(vhost, last, queues);
        let d = queues_drift(vhost, wants, queues);
        assert(d == head + tail);
        assert forall|a: int, b: int, j1: int, j2: int|
            #![trigger d[a], d[b], wants[j1], wants[j2]]
            0 <= a < b < d.len() && 0 <= j1 < wants.len() && 0 <= j2 < wants.len() && entry_queue(d[a])
                == wants[j1].name && entry_queue(d[b]) == wants[j2].name implies j1 <= j2 by {
            if a < head.len() {
                assert(d[a] == head[a]);
                let h = head[a];
                assert(queue_entry_holds(vhost, prefix, queues, h));
                let jp = if h is MissingQueue {
                    choose|j: int| 0 <= j < prefix.len() && #[trigger] prefix[j].name == h->MissingQueue_queue
                } else {
                    choose|j: int|
                        0 <= j < prefix.len() && #[trigger] prefix[j] == (QueueSpecView {
                            name: h->QueueDurabilityMismatch_queue,
                            durable: h->desired_durable,
                        })
                };
                assert(prefix[jp] == wants[jp]);
                assert(entry_queue(h) == wants[jp].name);
                if j1 != jp {
                    assert(wants[j1].name != wants[jp].name);
                }
                assert(j1 == jp);
                if b < head.len() {
                    assert(d[b] == head[b]);
                    let g = head[b];
                    assert(queue_entry_holds(vhost, prefix, queues, g));
                    let jq = if g is MissingQueue {
                        choose|j: int| 0 <= j < prefix.len() && #[trigger] prefix[j].name == g->MissingQueue_queue
                    } else {
                        choose|j: int|
                            0 <= j < prefix.len() && #[trigger] prefix[j] == (QueueSpecView {
                                name: g->QueueDurabilityMismatch_queue,
                                durable: g->desired_durable,
                            })
                    };
                    assert(prefix[jq] == wants[jq]);
                    if j2 != jq {
                        assert(wants[j2].name != wants[jq].name);
                    }
                    assert(prefix[j1] == wants[j1] && prefix[j2] == wants[j2]);
                    assert(head[a] == head[a] && head[b] == head[b] && prefix[j1] == prefix[j1]
                        && prefix[j2] == prefix[j2]);
                } else {
                    assert(d[b] == tail[b - head.len()]);
                    assert(entry_queue(tail[b - head.len()]) == last.name);
                    if j2 != n {
                        assert(wants[j2].name != wants[n].name);
                    }
                }
            } else {
                assert(tail.len() <= 1);
            }
        }
    }
}

proof fn lemma_declared_drift_ordered(wants: Seq<VhostSpecView>, observed: ObservedTopologyView)
    requires
        forall|i1: int, i2: int|
            0 <= i1 < wants.len() && 0 <= i2 < wants.len() && i1 != i2 ==> #[trigger] wants[i1].name
                != #[trigger] wants[i2].name,
        forall|i: int, j1: int, j2: int|
            0 <= i < wants.len() && 0 <= j1 < wants[i].queues.len() && 0 <= j2 < wants[i].queues.len()
                && j1 != j2 ==> #[trigger] wants[i].queues[j1].name != #[trigger] wants[i].queues[j2].name,
    ensures
        forall|a: int, b: int, i1: int, i2: int|
            #![trigger declared_drift(wants, observed)[a], declared_drift(wants, observed)[b], wants[i1], wants[i2]]
            0 <= a < b < declared_drift(wants, observed).len() && 0 <= i1 < wants.len() && 0 <= i2
                < wants.len() && entry_vhost(declared_drift(wants, observed)[a]) == wants[i1].name
                && entry_vhost(declared_drift(wants, observed)[b]) == wants[i2].name ==> i1 <= i2,
        forall|a: int, b: int, i: int, j1: int, j2: int|
            #![trigger declared_drift(wants, observed)[a], declared_drift(wants, observed)[b], wants[i].queues[j1], wants[i].queues[j2]]
            0 <= a < b < declared_drift(wants, observed).len() && 0 <= i < wants.len() && 0 <= j1
                < wants[i].queues.len() && 0 <= j2 < wants[i].queues.len() && entry_vhost(
                declared_drift(wants, observed)[a],
            ) == wants[i].name && entry_vhost(declared_drift(wants, observed)[b]) == wants[i].name
                && !(declared_drift(wants, observed)[a] is MissingVhost) && !(declared_drift(
                wants,
                observed,
            )[b] is MissingVhost) && entry_queue(declared_drift(wants, observed)[a])
                == wants[i].queues[j1].name && entry_queue(declared_drift(wants, observed)[b])
                == wants[i].queues[j2].name ==> j1 <= j2,
    decreases wants.len(),
{
    if wants.len() > 0 {
        let prefix = wants.drop_last();
        let n = wants.len() - 1;
        let last = wants.last();
        assert(wants[n] == last);
        assert forall|i1: int, i2: int|
            0 <= i1 < prefix.len() && 0 <= i2 < prefix.len() && i1 != i2 implies #[trigger] prefix[i1].name
            != #[trigger] prefix[i2].name by {
            assert(prefix[i1] == wants[i1]);
            assert(prefix[i2] == wants[i2]);
        }
        assert forall|i: int, j1: int, j2: int|
            0 <= i < prefix.len() && 0 <= j1 < prefix[i].queues.len() && 0 <= j2 < prefix[i].queues.len()
                && j1 != j2 implies #[trigger] prefix[i].queues[j1].name != #[trigger] prefix[i].queues[j2].name by {
            assert(prefix[i] == wants[i]);
            assert(wants[i].queues[j1].name != wants[i].queues[j2].name);
        }
        lemma_declared_drift_ordered(prefix, observed);
        lemma_declared_drift_sound(prefix, observed);
        assert forall|j1: int, j2: int|
            0 <= j1 < last.queues.len() && 0 <= j2 < last.queues.len() && j1 != j2 implies #[trigger] last.queues[j1].name
            != #[trigger] last.queues[j2].name by {
            assert(wants[n].queues[j1].name != wants[n].queues[j2].name);
        }
        lemma_queues_drift_ordered(last.name, last.queues, observed.queues);
        lemma_queues_drift_sound(last.name, last.queues, observed.queues);
        let head = declared_drift(prefix, observed);
        let tail = vhost_drift(last, observed);
        let d = declared_drift(wants, observed);
        assert(d == head + tail);
        assert forall|b: int| 0 <= b < tail.len() implies entry_vhost(#[trigger] tail[b]) == last.name by {
            if vhost_present(observed.vhosts, last.name) {
                assert(queue_entry_holds(last.name, last.queues, observed.queues, tail[b]));
            }
        }
        // The vhost named by an entry of the prefix's drift is declared at an index below n.
        assert forall|a: int| 0 <= a < head.len() implies exists|ip: int|
            0 <= ip < n && #[trigger] wants[ip].name == entry_vhost(#[trigger] head[a]) by {
            let h = head[a];
            assert(declared_entry_holds(prefix, observed, h));
            match h {
                DriftView::MissingVhost { vhost } => {
                    let i = choose|i: int| 0 <= i < prefix.len() && #[trigger] prefix[i].name == vhost;
                    assert(prefix[i] == wants[i]);
                },
                DriftView::MissingQueue { vhost, queue } => {
                    let (i, j) = choose|i: int, j: int|
                        0 <= i < prefix.len() && 0 <= j < prefix[i].queues.len()
                            && #[trigger] prefix[i].name == vhost
                            && #[trigger] prefix[i].queues[j].name == queue;
                    assert(prefix[i] == wants[i]);
                },
                DriftView::QueueDurabilityMismatch { vhost, queue, desired_durable, .. } => {
                    let (i, j) = choose|i: int, j: int|
                        0 <= i < prefix.len() && 0 <= j < prefix[i].queues.len()
                            && #[trigger] prefix[i].name == vhost
                            && #[trigger] prefix[i].queues[j] == (QueueSpecView {
                            name: queue,
                            durable: desired_durable,
                        });
                    assert(prefix[i] == wants[i]);
                },
                _ => {},
            }
        }
        assert forall|a: int, b: int, i1: int, i2: int|
            #![trigger d[a], d[b], wants[i1], wants[i2]]
            0 <= a < b < d.len() && 0 <= i1 < wants.len() && 0 <= i2 < wants.len() && entry_vhost(d[a])
                == wants[i1].name && entry_vhost(d[b]) == wants[i2].name implies i1 <= i2 by {
            if a < head.len() {
                assert(d[a] == head[a]);
                let ip = choose|ip: int| 0 <= ip < n && #[trigger] wants[ip].name == entry_vhost(head[a]);
                if i1 != ip {
                    assert(wants[i1].name != wants[ip].name);
                }
                if b < head.len() {
                    assert(d[b] == head[b]);
                    let iq = choose|iq: int| 0 <= iq < n && #[trigger] wants[iq].name == entry_vhost(head[b]);
                    if i2 != iq {
                        assert(wants[i2].name != wants[iq].name);
                    }
                    assert(prefix[i1] == wants[i1] && prefix[i2] == wants[i2]);
                    assert(head[a] == head[a] && head[b] == head[b] && prefix[i1] == prefix[i1]
                        && prefix[i2] == prefix[i2]);
                } else {
                    assert(d[b] == tail[b - head.len()]);
                    if i2 != n {
                        assert(wants[i2].name != wants[n].name);
                    }
                }
            } else {
                assert(d[a] == tail[a - head.len()]);
                assert(d[b] == tail[b - head.len()]);
                if i1 != n {
                    assert(wants[i1].name != wants[n].name);
                }
                if i2 != n {
                    assert(wants[i2].name != wants[n].name);
                }
            }
        }
        assert forall|a: int, b: int, i: int, j1: int, j2: int|
            #![trigger d[a], d[b], wants[i].queues[j1], wants[i].queues[j2]]
            0 <= a < b < d.len() && 0 <= i < wants.len() && 0 <= j1 < wants[i].queues.len() && 0 <= j2
                < wants[i].queues.len() && entry_vhost(d[a]) == wants[i].name && entry_vhost(d[b])
                == wants[i].name && !(d[a] is MissingVhost) && !(d[b] is MissingVhost) && entry_queue(
                d[a],
            ) == wants[i].queues[j1].name && entry_queue(d[b]) == wants[i].queues[j2].name implies j1
            <= j2 by {
            if b < head.len() {
                assert(d[a] == head[a]);
                assert(d[b] == head[b]);
                let ip = choose|ip: int| 0 <= ip < n && #[trigger] wants[ip].name == entry_vhost(head[a]);
                if i != ip {
                    assert(wants[i].name != wants[ip].name);
                }
                assert(prefix[i] == wants[i]);
                assert(head[a] == head[a] && head[b] == head[b] && prefix[i].queues[j1]
                    == prefix[i].queues[j1] && prefix[i].queues[j2] == prefix[i].queues[j2]);
            } else if a < head.len() {
                assert(d[a] == head[a]);
                assert(d[b] == tail[b - head.len()]);
                let ip = choose|ip: int| 0 <= ip < n && #[trigger] wants[ip].name == entry_vhost(head[a]);
                assert(wants[ip].name != wants[n].name);
            } else {
                assert(d[a] == tail[a - head.len()]);
                assert(d[b] == tail[b - head.len()]);
                if i != n {
                    assert(wants[i].name != wants[n].name);
                }
                if vhost_present(observed.vhosts, last.name) {
                    let qd = queues_drift(last.name, last.queues, observed.queues);
                    assert(qd[a - head.len()] == d[a] && qd[b - head.len()] == d[b]);
                    assert(last.queues[j1] == wants[i].queues[j1]);
                    assert(last.queues[j2] == wants[i].queues[j2]);
                }
            }
        }
    }
}

proof fn lemma_undeclared_drift_ordered(seen: Seq<ObservedVhostView>, wants: Seq<VhostSpecView>)
    requires
        forall|k1: int, k2: int|
            0 <= k1 < seen.len() && 0 <= k2 < seen.len() && k1 != k2 ==> #[trigger] seen[k1].name
                != #[trigger] seen[k2].name,
    ensures
        forall|a: int, b: int, k1: int, k2: int|
            #![trigger undeclared_drift(seen, wants)[a], undeclared_drift(seen, wants)[b], seen[k1], seen[k2]]
            0 <= a < b < undeclared_drift(seen, wants).len() && 0 <= k1 < seen.len() && 0 <= k2
                < seen.len() && entry_vhost(undeclared_drift(seen, wants)[a]) == seen[k1].name
                && entry_vhost(undeclared_drift(seen, wants)[b]) == seen[k2].name ==> k1 <= k2,
    decreases seen.len(),
{
    if seen.len() > 0 {
        let prefix = seen.drop_last();
        let n = seen.len() - 1;
        assert(seen[n] == seen.last());
        assert forall|k1: int, k2: int|
            0 <= k1 < prefix.len() && 0 <= k2 < prefix.len() && k1 != k2 implies #[trigger] prefix[k1].name
            != #[trigger] prefix[k2].name by {
            assert(prefix[k1] == seen[k1]);
            assert(prefix[k2] == seen[k2]);
        }
        lemma_undeclared_drift_ordered(prefix, wants);
        lemma_undeclared_drift_sound(prefix, wants);
        let head = undeclared_drift(prefix, wants);
        let tail = if vhost_declared(wants, seen.last().name) {
            Seq::<DriftView>::empty()
        } else {
            seq![DriftView::UndeclaredVhost { vhost: seen.last().name }]
        };
        let d = undeclared_drift(seen, wants);
        assert(d == head + tail);
        assert forall|a: int, b: int, k1: int, k2: int|
            #![trigger d[a], d[b], seen[k1], seen[k2]]
            0 <= a < b < d.len() && 0 <= k1 < seen.len() && 0 <= k2 < seen.len() && entry_vhost(d[a])
                == seen[k1].name && entry_vhost(d[b]) == seen[k2].name implies k1 <= k2 by {
            if a < head.len() {
                assert(d[a] == head[a]);
                let h = head[a];
                let kp = choose|k: int| 0 <= k < prefix.len() && #[trigger] prefix[k].name == h->UndeclaredVhost_vhost;
                assert(prefix[kp] == seen[kp]);
                if k1 != kp {
                    assert(seen[k1].name != seen[kp].name);
                }
                if b < head.len() {
                    assert(d[b] == head[b]);
                    let g = head[b];
                    let kq = choose|k: int| 0 <= k < prefix.len() && #[trigger] prefix[k].name == g->UndeclaredVhost_vhost;
                    assert(prefix[kq] == seen[kq]);
                    if k2 != kq {
                        assert(seen[k2].name != seen[kq].name);
                    }
                    assert(prefix[k1] == seen[k1] && prefix[k2] == seen[k2]);
                    assert(head[a] == head[a] && head[b] == head[b] && prefix[k1] == prefix[k1]
                        && prefix[k2] == prefix[k2]);
                } else {
                    assert(d[b] == tail[b - head.len()]);
                    if k2 != n {
                        assert(seen[k2].name != seen[n].name);
                    }
                }
            }
        }
    }
}

/// When names are distinct, the drift comes in a fixed order: the entries about
/// declared vhosts in declaration order (a vhost's queue entries in the order its
/// queues are declared), then the undeclared vhosts in the order the broker lists
/// them.
pub proof fn lemma_drift_order(desired: RabbitmqTopologySpecView, observed: ObservedTopologyView)
    requires
        names_distinct(desired, observed),
    ensures
        forall|a: int, b: int|
            0 <= a < b < topology_drift(desired, observed).len() && #[trigger] topology_drift(
                desired,
                observed,
            )[a] is UndeclaredVhost ==> #[trigger] topology_drift(desired, observed)[b] is UndeclaredVhost,
        forall|a: int, b: int, i1: int, i2: int|
            #![trigger topology_drift(desired, observed)[a], topology_drift(desired, observed)[b], desired.vhosts[i1], desired.vhosts[i2]]
            0 <= a < b < topology_drift(desired, observed).len() && 0 <= i1 < desired.vhosts.len() && 0
                <= i2 < desired.vhosts.len() && !(topology_drift(desired, observed)[b] is UndeclaredVhost)
                && entry_vhost(topology_drift(desired, observed)[a]) == desired.vhosts[i1].name
                && entry_vhost(topology_drift(desired, observed)[b]) == desired.vhosts[i2].name ==> i1
                <= i2,
        forall|a: int, b: int, i: int, j1: int, j2: int|
            #![trigger topology_drift(desired, observed)[a], topology_drift(desired, observed)[b], desired.vhosts[i].queues[j1], desired.vhosts[i].queues[j2]]
            0 <= a < b < topology_drift(desired, observed).len() && 0 <= i < desired.vhosts.len() && 0
                <= j1 < desired.vhosts[i].queues.len() && 0 <= j2 < desired.vhosts[i].queues.len() && (
            topology_drift(desired, observed)[a] is MissingQueue || topology_drift(desired, observed)[a] is QueueDurabilityMismatch)
                && (topology_drift(desired, observed)[b] is MissingQueue || topology_drift(desired, observed)[b] is QueueDurabilityMismatch)
                && entry_vhost(topology_drift(desired, observed)[a]) == desired.vhosts[i].name
                && entry_vhost(topology_drift(desired, observed)[b]) == desired.vhosts[i].name
                && entry_queue(topology_drift(desired, observed)[a]) == desired.vhosts[i].queues[j1].name
                && entry_queue(topology_drift(desired, observed)[b]) == desired.vhosts[i].queues[j2].name
                ==> j1 <= j2,
        forall|a: int, b: int, k1: int, k2: int|
            #![trigger topology_drift(desired, observed)[a], topology_drift(desired, observed)[b], observed.vhosts[k1], observed.vhosts[k2]]
            0 <= a < b < topology_drift(desired, observed).len() && 0 <= k1 < observed.vhosts.len() && 0
                <= k2 < observed.vhosts.len() && topology_drift(desired, observed)[a] is UndeclaredVhost
                && entry_vhost(topology_drift(desired, observed)[a]) == observed.vhosts[k1].name
                && entry_vhost(topology_drift(desired, observed)[b]) == observed.vhosts[k2].name ==> k1
                <= k2,
{
    let wants = desired.vhosts;
    let head = declared_drift(wants, observed);
    let tail = undeclared_drift(observed.vhosts, wants);
    let d = topology_drift(desired, observed);
    lemma_declared_drift_ordered(wants, observed);
    lemma_undeclared_drift_ordered(observed.vhosts, wants);
    lemma_declared_drift_sound(wants, observed);
    lemma_undeclared_drift_sound(observed.vhosts, wants);
    assert forall|a: int| 0 <= a < head.len() implies !(#[trigger] head[a] is UndeclaredVhost) by {
        assert(declared_entry_holds(wants, observed, head[a]));
    }
    assert forall|a: int, b: int| 0 <= a < b < d.len() && #[trigger] d[a] is UndeclaredVhost implies #[trigger] d[b] is UndeclaredVhost by {
        if a < head.len() {
            assert(d[a] == head[a]);
        }
        assert(d[b] == tail[b - head.len()]);
    }
    assert forall|a: int, b: int, i1: int, i2: int|
        #![trigger d[a], d[b], wants[i1], wants[i2]]
        0 <= a < b < d.len() && 0 <= i1 < wants.len() && 0 <= i2 < wants.len() && !(d[b] is UndeclaredVhost)
            && entry_vhost(d[a]) == wants[i1].name && entry_vhost(d[b]) == wants[i2].name implies i1 <= i2 by {
        if b >= head.len() {
            assert(d[b] == tail[b - head.len()]);
        }
        assert(d[a] == head[a] && d[b] == head[b]);
    }
    assert forall|a: int, b: int, i: int, j1: int, j2: int|
        #![trigger d[a], d[b], wants[i].queues[j1], wants[i].queues[j2]]
        0 <= a < b < d.len() && 0 <= i < wants.len() && 0 <= j1 < wants[i].queues.len() && 0 <= j2
            < wants[i].queues.len() && (d[a] is MissingQueue || d[a] is QueueDurabilityMismatch) && (d[b] is MissingQueue
            || d[b] is QueueDurabilityMismatch) && entry_vhost(d[a]) == wants[i].name && entry_vhost(d[b])
            == wants[i].name && entry_queue(d[a]) == wants[i].queues[j1].name && entry_queue(d[b])
            == wants[i].queues[j2].name implies j1 <= j2 by {
        if b >= head.len() {
            assert(d[b] == tail[b - head.len()]);
        }
        assert(d[a] == head[a] && d[b] == head[b]);
    }
    assert forall|a: int, b: int, k1: int, k2: int|
        #![trigger d[a], d[b], observed.vhosts[k1], observed.vhosts[k2]]
        0 <= a < b < d.len() && 0 <= k1 < observed.vhosts.len() && 0 <= k2 < observed.vhosts.len()
            && d[a] is UndeclaredVhost && entry_vhost(d[a]) == observed.vhosts[k1].name && entry_vhost(d[b])
            == observed.vhosts[k2].name implies k1 <= k2 by {
        if a < head.len() {
            assert(d[a] == head[a]);
        }
        assert(d[a] == tail[a - head.len()]);
        assert(d[b] == tail[b - head.len()]);
    }
}

} // verus!
