use camelot_rabbitmq_controller::crd::{QueueSpec, RabbitmqTopologySpec, VhostSpec};
use camelot_rabbitmq_controller::observed::{
    diff_topology, Drift, ObservedQueue, ObservedTopology, ObservedVhost,
};

fn spec(vhosts: Vec<VhostSpec>) -> RabbitmqTopologySpec {
    RabbitmqTopologySpec {
        management_api: "http://rabbitmq.camelot.svc.cluster.local:15672".to_string(),
        credentials_secret_ref: "rabbitmq-admin-credentials".to_string(),
        vhosts,
    }
}

#[test]
fn matching_state_produces_no_drift() {
    let desired = spec(vec![VhostSpec {
        name: "akeyless".to_string(),
        queues: vec![QueueSpec { name: "gator-events".to_string(), durable: true }],
    }]);
    let observed = ObservedTopology {
        vhosts: vec![ObservedVhost { name: "akeyless".to_string() }],
        queues: vec![ObservedQueue {
            name: "gator-events".to_string(),
            vhost: "akeyless".to_string(),
            durable: true,
        }],
    };
    assert_eq!(diff_topology(&desired, &observed), vec![]);
}

#[test]
fn missing_vhost_is_reported_and_suppresses_its_queue_noise() {
    let desired = spec(vec![VhostSpec {
        name: "transactions-bis".to_string(),
        queues: vec![QueueSpec { name: "bis-events".to_string(), durable: true }],
    }]);
    let observed = ObservedTopology::default();
    assert_eq!(
        diff_topology(&desired, &observed),
        vec![Drift::MissingVhost { vhost: "transactions-bis".to_string() }]
    );
}

#[test]
fn missing_queue_in_present_vhost_is_reported() {
    let desired = spec(vec![VhostSpec {
        name: "gateway".to_string(),
        queues: vec![QueueSpec { name: "gw-audit".to_string(), durable: true }],
    }]);
    let observed = ObservedTopology {
        vhosts: vec![ObservedVhost { name: "gateway".to_string() }],
        queues: vec![],
    };
    assert_eq!(
        diff_topology(&desired, &observed),
        vec![Drift::MissingQueue { vhost: "gateway".to_string(), queue: "gw-audit".to_string() }]
    );
}

#[test]
fn durability_mismatch_is_reported() {
    let desired = spec(vec![VhostSpec {
        name: "akeyless".to_string(),
        queues: vec![QueueSpec { name: "gator-events".to_string(), durable: true }],
    }]);
    let observed = ObservedTopology {
        vhosts: vec![ObservedVhost { name: "akeyless".to_string() }],
        queues: vec![ObservedQueue {
            name: "gator-events".to_string(),
            vhost: "akeyless".to_string(),
            durable: false,
        }],
    };
    assert_eq!(
        diff_topology(&desired, &observed),
        vec![Drift::QueueDurabilityMismatch {
            vhost: "akeyless".to_string(),
            queue: "gator-events".to_string(),
            desired_durable: true,
            observed_durable: false,
        }]
    );
}

#[test]
fn undeclared_vhost_on_broker_is_reported() {
    let desired = spec(vec![]);
    let observed = ObservedTopology {
        vhosts: vec![ObservedVhost { name: "/".to_string() }],
        queues: vec![],
    };
    assert_eq!(
        diff_topology(&desired, &observed),
        vec![Drift::UndeclaredVhost { vhost: "/".to_string() }]
    );
}

#[test]
fn drift_follows_declaration_order_then_broker_order() {
    let desired = spec(vec![
        VhostSpec {
            name: "a".to_string(),
            queues: vec![
                QueueSpec { name: "q1".to_string(), durable: true },
                QueueSpec { name: "q2".to_string(), durable: false },
                QueueSpec { name: "q3".to_string(), durable: true },
            ],
        },
        VhostSpec { name: "b".to_string(), queues: vec![QueueSpec { name: "q".to_string(), durable: true }] },
    ]);
    let observed = ObservedTopology {
        vhosts: vec![
            ObservedVhost { name: "x".to_string() },
            ObservedVhost { name: "a".to_string() },
            ObservedVhost { name: "y".to_string() },
        ],
        queues: vec![
            ObservedQueue { name: "q2".to_string(), vhost: "a".to_string(), durable: true },
            ObservedQueue { name: "q3".to_string(), vhost: "a".to_string(), durable: true },
            ObservedQueue { name: "q".to_string(), vhost: "b".to_string(), durable: true },
        ],
    };
    assert_eq!(
        diff_topology(&desired, &observed),
        vec![
            Drift::MissingQueue { vhost: "a".to_string(), queue: "q1".to_string() },
            Drift::QueueDurabilityMismatch {
                vhost: "a".to_string(),
                queue: "q2".to_string(),
                desired_durable: false,
                observed_durable: true,
            },
            Drift::MissingVhost { vhost: "b".to_string() },
            Drift::UndeclaredVhost { vhost: "x".to_string() },
            Drift::UndeclaredVhost { vhost: "y".to_string() },
        ]
    );
}

#[test]
fn first_observed_match_of_a_queue_decides_its_durability() {
    let desired = spec(vec![VhostSpec {
        name: "v".to_string(),
        queues: vec![QueueSpec { name: "q".to_string(), durable: true }],
    }]);
    let observed = ObservedTopology {
        vhosts: vec![ObservedVhost { name: "v".to_string() }],
        queues: vec![
            ObservedQueue { name: "q".to_string(), vhost: "other".to_string(), durable: false },
            ObservedQueue { name: "q".to_string(), vhost: "v".to_string(), durable: false },
            ObservedQueue { name: "q".to_string(), vhost: "v".to_string(), durable: true },
        ],
    };
    assert_eq!(
        diff_topology(&desired, &observed),
        vec![Drift::QueueDurabilityMismatch {
            vhost: "v".to_string(),
            queue: "q".to_string(),
            desired_durable: true,
            observed_durable: false,
        }]
    );
}

#[test]
fn queue_in_another_vhost_does_not_count() {
    let desired = spec(vec![VhostSpec {
        name: "v".to_string(),
        queues: vec![QueueSpec { name: "q".to_string(), durable: true }],
    }]);
    let observed = ObservedTopology {
        vhosts: vec![ObservedVhost { name: "v".to_string() }, ObservedVhost { name: "w".to_string() }],
        queues: vec![ObservedQueue { name: "q".to_string(), vhost: "w".to_string(), durable: true }],
    };
    assert_eq!(
        diff_topology(&desired, &observed),
        vec![
            Drift::MissingQueue { vhost: "v".to_string(), queue: "q".to_string() },
            Drift::UndeclaredVhost { vhost: "w".to_string() },
        ]
    );
}

#[test]
fn empty_spec_and_empty_broker_agree() {
    assert_eq!(diff_topology(&spec(vec![]), &ObservedTopology::default()), vec![]);
}

#[test]
fn drift_messages_read_as_the_status_reports_them() {
    assert_eq!(
        Drift::MissingVhost { vhost: "v".to_string() }.message(),
        "vhost 'v' declared but absent on the broker"
    );
    assert_eq!(
        Drift::MissingQueue { vhost: "v".to_string(), queue: "q".to_string() }.message(),
        "queue 'q' declared in vhost 'v' but absent on the broker"
    );
    assert_eq!(
        Drift::QueueDurabilityMismatch {
            vhost: "v".to_string(),
            queue: "q".to_string(),
            desired_durable: true,
            observed_durable: false,
        }
        .message(),
        "queue 'v/q' durable mismatch: desired=true observed=false"
    );
    assert_eq!(
        Drift::QueueDurabilityMismatch {
            vhost: "v".to_string(),
            queue: "q".to_string(),
            desired_durable: false,
            observed_durable: true,
        }
        .message(),
        "queue 'v/q' durable mismatch: desired=false observed=true"
    );
    assert_eq!(
        Drift::UndeclaredVhost { vhost: "/".to_string() }.message(),
        "vhost '/' exists on the broker but is not declared"
    );
}

#[test]
fn default_observed_topology_is_empty() {
    let t = ObservedTopology::default();
    assert!(t.vhosts.is_empty());
    assert!(t.queues.is_empty());
}

#[test]
fn endpoint_fields_do_not_change_the_drift() {
    let mut other = spec(vec![VhostSpec { name: "v".to_string(), queues: vec![] }]);
    let observed = ObservedTopology::default();
    let before = diff_topology(&other, &observed);
    other.management_api = "http://elsewhere:15672".to_string();
    other.credentials_secret_ref = "another-secret".to_string();
    assert_eq!(diff_topology(&other, &observed), before);
}

#[test]
fn queue_rows_not_asked_about_do_not_change_the_drift() {
    let desired = spec(vec![VhostSpec {
        name: "v".to_string(),
        queues: vec![QueueSpec { name: "q".to_string(), durable: true }],
    }]);
    let mut observed = ObservedTopology {
        vhosts: vec![ObservedVhost { name: "v".to_string() }],
        queues: vec![ObservedQueue { name: "q".to_string(), vhost: "v".to_string(), durable: false }],
    };
    let before = diff_topology(&desired, &observed);
    observed.queues.insert(0, ObservedQueue { name: "other".to_string(), vhost: "v".to_string(), durable: true });
    observed.queues.insert(1, ObservedQueue { name: "q".to_string(), vhost: "w".to_string(), durable: true });
    assert_eq!(diff_topology(&desired, &observed), before);
}
