use nanocl_core::bus::EventBus;
use nanocl_core::event::{Event, EventActor, EventActorKind, EventKind};

fn ev(action: &str, actor_kind: EventActorKind, key: &str, at: u64) -> Event {
    Event {
        kind: EventKind::Normal,
        action: action.to_string(),
        reason: "state_sync".to_string(),
        reporting_controller: "nanocld".to_string(),
        reporting_node: "node1".to_string(),
        actor: Some(EventActor {
            key: key.to_string(),
            kind: actor_kind,
            attributes: None,
        }),
        related: None,
        note: None,
        metadata: None,
        at,
    }
}

/// Emitting over the bus delivers each event as one parseable line, in order.
#[test]
fn event_emitter_basic() {
    let mut bus = EventBus::new();
    let client = bus.subscribe();
    let sequence = [
        ("Created", EventActorKind::Cargo),
        ("Started", EventActorKind::Cargo),
        ("Stopped", EventActorKind::Cargo),
        ("Patched", EventActorKind::Cargo),
        ("Deleted", EventActorKind::Cargo),
        ("Created", EventActorKind::Vm),
        ("Started", EventActorKind::Vm),
        ("Stopped", EventActorKind::Vm),
        ("Patched", EventActorKind::Vm),
        ("Deleted", EventActorKind::Vm),
        ("Created", EventActorKind::Resource),
        ("Patched", EventActorKind::Resource),
        ("Deleted", EventActorKind::Resource),
        ("Created", EventActorKind::Secret),
        ("Patched", EventActorKind::Secret),
        ("Deleted", EventActorKind::Secret),
    ];
    for (i, (action, kind)) in sequence.iter().enumerate() {
        bus.emit(&ev(action, *kind, "thing", i as u64));
        let (_, line) = bus.recv(client).expect("delivered");
        assert!(line.ends_with('\n'));
        let parsed: serde_json::Value =
            serde_json::from_str(line.trim_end()).expect("event line parses");
        assert_eq!(parsed["Action"], serde_json::Value::String(action.to_string()));
    }
}

/// A slow subscriber with a full queue drops events; a fast one sees every
/// event, in emission order.
#[test]
fn slow_subscriber_drops_fast_one_keeps_order() {
    let mut bus = EventBus::new();
    let a = bus.subscribe_with(2);
    let b = bus.subscribe_with(100);
    for i in 0..10u64 {
        bus.emit(&ev("Created", EventActorKind::Cargo, "c", i));
    }
    // B holds all ten, in emission order
    let mut last_seq = None;
    for _ in 0..10 {
        let (seq, _) = bus.recv(b).expect("B keeps every event");
        if let Some(prev) = last_seq {
            assert!(seq > prev, "delivery follows emission order");
        }
        last_seq = Some(seq);
    }
    assert!(bus.recv(b).is_none());
    // A kept only what fit: the two oldest
    let (s0, _) = bus.recv(a).expect("first queued");
    let (s1, _) = bus.recv(a).expect("second queued");
    assert_eq!(s0, 0);
    assert_eq!(s1, 1);
    assert!(bus.recv(a).is_none());
}

/// A late subscriber sees only what is emitted after it subscribed.
#[test]
fn late_subscriber_sees_no_history() {
    let mut bus = EventBus::new();
    bus.emit(&ev("Created", EventActorKind::Cargo, "c", 0));
    let late = bus.subscribe();
    assert!(bus.recv(late).is_none());
    bus.emit(&ev("Started", EventActorKind::Cargo, "c", 1));
    let (seq, _) = bus.recv(late).expect("sees the later event");
    assert_eq!(seq, 1);
}

/// A pruned subscriber is gone; the others keep their queues.
#[test]
fn prune_removes_dead_subscribers() {
    let mut bus = EventBus::new();
    let dead = bus.subscribe();
    let live = bus.subscribe();
    bus.emit(&ev("Created", EventActorKind::Cargo, "c", 0));
    bus.prune(&vec![dead]);
    assert!(bus.recv(dead).is_none());
    assert!(bus.recv(live).is_some());
}
