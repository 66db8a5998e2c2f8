use ssh_broadcast::registry::{ChannelKey, Entry, Registry};
use ssh_broadcast::relay::{on_data, DeliveryPlan};
use ssh_broadcast::session::{Connection, ConnectionCounter, Phase};

fn key(conn: u64, chan: u32) -> ChannelKey {
    ChannelKey { conn, chan }
}

fn target_keys<H>(plan: &DeliveryPlan<H>) -> Vec<ChannelKey> {
    plan.targets.iter().map(|e: &Entry<H>| e.key).collect()
}

#[test]
fn three_connections_then_one_closes() {
    let mut registry: Registry<&'static str> = Registry::new();
    let mut counter = ConnectionCounter::new();
    let mut c1 = counter.accept().unwrap();
    let mut c2 = counter.accept().unwrap();
    let mut c3 = counter.accept().unwrap();
    assert!(c1.open_channel(&mut registry, 0, "c1"));
    assert!(c2.open_channel(&mut registry, 0, "c2"));
    assert!(c3.open_channel(&mut registry, 0, "c3"));

    let plan = c1.data(&registry, 0, b"hi").unwrap();
    assert_eq!(plan.echo, key(c1.get_id(), 0));
    assert_eq!(plan.payload, b"hi".to_vec());
    assert_eq!(target_keys(&plan), vec![key(c2.get_id(), 0), key(c3.get_id(), 0)]);
    let handles: Vec<&str> = plan.targets.iter().map(|e| e.handle).collect();
    assert_eq!(handles, vec!["c2", "c3"]);

    assert!(c2.close_channel(&mut registry, 0));
    assert_eq!(c2.get_phase(), Phase::Closed);
    let plan = c1.data(&registry, 0, b"bye").unwrap();
    assert_eq!(plan.echo, key(c1.get_id(), 0));
    assert_eq!(plan.payload, b"bye".to_vec());
    assert_eq!(target_keys(&plan), vec![key(c3.get_id(), 0)]);
}

#[test]
fn empty_payload_still_relayed() {
    let mut registry: Registry<u32> = Registry::new();
    registry.register(key(1, 0), 10);
    registry.register(key(2, 0), 20);
    registry.register(key(3, 5), 30);
    let plan = on_data(&registry, key(1, 0), b"");
    assert_eq!(plan.echo, key(1, 0));
    assert!(plan.payload.is_empty());
    assert_eq!(target_keys(&plan), vec![key(2, 0), key(3, 5)]);
}

#[test]
fn echo_without_peers() {
    let mut registry: Registry<u32> = Registry::new();
    registry.register(key(7, 1), 1);
    let plan = on_data(&registry, key(7, 1), b"alone");
    assert_eq!(plan.echo, key(7, 1));
    assert_eq!(plan.payload, b"alone".to_vec());
    assert!(plan.targets.is_empty());
}

#[test]
fn sender_connection_channels_excluded() {
    let mut registry: Registry<u32> = Registry::new();
    registry.register(key(1, 0), 10);
    registry.register(key(1, 1), 11);
    registry.register(key(2, 0), 20);
    registry.register(key(2, 1), 21);
    let plan = on_data(&registry, key(1, 0), b"x");
    assert_eq!(target_keys(&plan), vec![key(2, 0), key(2, 1)]);
    let handles: Vec<u32> = plan.targets.iter().map(|e| e.handle).collect();
    assert_eq!(handles, vec![20, 21]);
}

#[test]
fn every_peer_exactly_once() {
    let mut registry: Registry<u64> = Registry::new();
    for c in 0..10u64 {
        registry.register(key(c, 0), c);
    }
    let plan = on_data(&registry, key(4, 0), b"fan");
    assert_eq!(plan.targets.len(), 9);
    for c in 0..10u64 {
        let n = plan.targets.iter().filter(|e| e.key == key(c, 0)).count();
        assert_eq!(n, if c == 4 { 0 } else { 1 });
    }
}

#[test]
fn order_per_peer_kept() {
    let mut registry: Registry<u32> = Registry::new();
    registry.register(key(1, 0), 1);
    registry.register(key(2, 0), 2);
    registry.register(key(3, 0), 3);
    let events: Vec<(ChannelKey, &[u8])> = vec![
        (key(1, 0), b"p1"),
        (key(3, 0), b"q1"),
        (key(1, 0), b"p2"),
        (key(3, 0), b"q2"),
        (key(1, 0), b"p3"),
    ];
    let mut seen_by_2: Vec<Vec<u8>> = Vec::new();
    for (sender, payload) in events {
        let plan = on_data(&registry, sender, payload);
        if plan.targets.iter().any(|e| e.key == key(2, 0)) && sender == key(1, 0) {
            seen_by_2.push(plan.payload.clone());
        }
    }
    assert_eq!(seen_by_2, vec![b"p1".to_vec(), b"p2".to_vec(), b"p3".to_vec()]);
}

#[test]
fn plan_outlives_registry_changes() {
    let mut registry: Registry<u32> = Registry::new();
    registry.register(key(1, 0), 1);
    registry.register(key(2, 0), 2);
    let plan = on_data(&registry, key(1, 0), b"snap");
    assert!(registry.deregister(key(2, 0)));
    assert_eq!(registry.len(), 1);
    assert_eq!(target_keys(&plan), vec![key(2, 0)]);
    assert_eq!(plan.targets[0].handle, 2);
}

#[test]
fn register_replaces_existing_key() {
    let mut registry: Registry<u32> = Registry::new();
    registry.register(key(1, 0), 1);
    registry.register(key(2, 0), 2);
    registry.register(key(1, 0), 100);
    assert_eq!(registry.len(), 2);
    let targets = registry.broadcast_targets(2);
    assert_eq!(targets.len(), 1);
    assert_eq!(targets[0].key, key(1, 0));
    assert_eq!(targets[0].handle, 100);
}

#[test]
fn deregister_absent_is_noop() {
    let mut registry: Registry<u32> = Registry::new();
    registry.register(key(1, 0), 1);
    assert!(!registry.deregister(key(1, 9)));
    assert!(!registry.deregister(key(5, 0)));
    assert_eq!(registry.len(), 1);
    assert!(registry.deregister(key(1, 0)));
    assert!(!registry.deregister(key(1, 0)));
    assert_eq!(registry.len(), 0);
    assert!(!registry.contains(key(1, 0)));
}

#[test]
fn deregister_connection_keeps_others_in_order() {
    let mut registry: Registry<u32> = Registry::new();
    registry.register(key(1, 0), 10);
    registry.register(key(2, 0), 20);
    registry.register(key(1, 1), 11);
    registry.register(key(3, 0), 30);
    registry.deregister_connection(1);
    assert_eq!(registry.len(), 2);
    let targets = registry.broadcast_targets(9);
    let keys: Vec<ChannelKey> = targets.iter().map(|e| e.key).collect();
    assert_eq!(keys, vec![key(2, 0), key(3, 0)]);
}

#[test]
fn connection_close_removes_all_its_channels() {
    let mut registry: Registry<u32> = Registry::new();
    let mut a = Connection::new(1);
    let mut b = Connection::new(2);
    assert!(a.open_channel(&mut registry, 0, 10));
    assert!(a.open_channel(&mut registry, 1, 11));
    assert!(b.open_channel(&mut registry, 0, 20));
    assert_eq!(registry.len(), 3);
    a.close(&mut registry);
    assert_eq!(a.get_phase(), Phase::Closed);
    assert_eq!(registry.len(), 1);
    assert!(registry.contains(key(2, 0)));
    assert!(!a.open_channel(&mut registry, 2, 12));
    assert!(a.data(&registry, 0, b"late").is_none());
    let plan = b.data(&registry, 0, b"still").unwrap();
    assert!(plan.targets.is_empty());
}

#[test]
fn lifecycle_phases() {
    let mut registry: Registry<u32> = Registry::new();
    let mut c = Connection::new(4);
    assert_eq!(c.get_phase(), Phase::Connected);
    assert!(c.data(&registry, 0, b"early").is_none());
    assert!(c.open_channel(&mut registry, 0, 1));
    assert!(c.open_channel(&mut registry, 3, 2));
    assert_eq!(c.get_phase(), Phase::ChannelOpen);
    assert!(!c.close_channel(&mut registry, 7));
    assert!(c.close_channel(&mut registry, 0));
    assert_eq!(c.get_phase(), Phase::ChannelOpen);
    assert!(c.data(&registry, 0, b"gone").is_none());
    assert!(c.data(&registry, 3, b"here").is_some());
    assert!(c.close_channel(&mut registry, 3));
    assert_eq!(c.get_phase(), Phase::Closed);
    assert_eq!(registry.len(), 0);
}

#[test]
fn ids_increase_and_never_repeat() {
    let mut counter = ConnectionCounter::new();
    let ids: Vec<u64> = (0..5).map(|_| counter.accept().unwrap().get_id()).collect();
    assert_eq!(ids, vec![0, 1, 2, 3, 4]);
}
