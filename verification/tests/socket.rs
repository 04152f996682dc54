use xplane_gdl90::addr::TargetAddr;
use xplane_gdl90::socket::{FFBroadcast, FFPort, SocketState, STALE_AFTER};
use xplane_gdl90::state::StateInner;
use xplane_gdl90::targets::AutoTargets;

const SEC: u128 = 1_000_000_000;

fn v4(a: u8, b: u8, c: u8, d: u8, port: u16) -> TargetAddr {
    TargetAddr::V4 { ip: u32::from_be_bytes([a, b, c, d]), port }
}

fn bc(time: u128, app: &str, port: u16) -> FFBroadcast {
    FFBroadcast { time, app: app.to_string(), gdl90: FFPort { port } }
}

#[test]
fn default_socket_state() {
    let s = SocketState::default();
    assert_eq!(s.interval, SEC);
    assert_eq!(SocketState::MINIMUM_INTERVAL, 10_000_000);
    assert!(s.target.is_none());
    assert_eq!(s.auto_targets.len(), 0);
}

#[test]
fn default_state_inner_sends_everything() {
    let s = StateInner::default();
    assert!(s.heartbeat && s.ownship && s.ahrs);
    assert_eq!(s.socket.interval, SEC);
}

#[test]
fn socket_state_eq_ignores_discovered_devices() {
    let mut a = SocketState::default();
    let b = SocketState::default();
    a.record_broadcast(v4(10, 0, 0, 2, 5000), bc(0, "ForeFlight", 4000));
    assert!(a == b);
    a.interval = 2 * SEC;
    assert!(a != b);
    a.interval = SEC;
    a.target = Some(v4(192, 168, 1, 1, 4000));
    assert!(a != b);
}

#[test]
fn state_inner_eq_compares_switches() {
    let a = StateInner::default();
    let mut b = StateInner::default();
    assert!(a == b);
    b.ahrs = false;
    assert!(a != b);
}

#[test]
fn record_broadcast_uses_announced_port() {
    let mut s = SocketState::default();
    let is_new = s.record_broadcast(v4(10, 0, 0, 2, 63093), bc(5, "ForeFlight", 4000));
    assert!(is_new);
    let key = v4(10, 0, 0, 2, 4000);
    assert!(s.auto_targets.contains_key(&key));
    assert!(!s.auto_targets.contains_key(&v4(10, 0, 0, 2, 63093)));
    assert_eq!(s.auto_targets.get(&key).unwrap().app, "ForeFlight");
}

#[test]
fn record_broadcast_replaces_previous() {
    let mut s = SocketState::default();
    assert!(s.record_broadcast(v4(10, 0, 0, 2, 1), bc(5, "A", 4000)));
    assert!(!s.record_broadcast(v4(10, 0, 0, 2, 2), bc(9, "B", 4000)));
    assert_eq!(s.auto_targets.len(), 1);
    let got = s.auto_targets.get(&v4(10, 0, 0, 2, 4000)).unwrap();
    assert_eq!(got.app, "B");
    assert_eq!(got.time, 9);
}

#[test]
fn targets_iterate_in_address_order() {
    let mut t = AutoTargets::new();
    let v6 = TargetAddr::V6 { ip: 1, port: 1, flowinfo: 0, scope_id: 0 };
    t.insert(v6, bc(0, "c", 1));
    t.insert(v4(10, 0, 0, 3, 1), bc(0, "b", 1));
    t.insert(v4(10, 0, 0, 1, 9), bc(0, "a", 1));
    t.insert(v4(10, 0, 0, 1, 2), bc(0, "a2", 1));
    assert_eq!(
        t.addrs(),
        vec![v4(10, 0, 0, 1, 2), v4(10, 0, 0, 1, 9), v4(10, 0, 0, 3, 1), v6]
    );
    assert_eq!(t.get(&v4(10, 0, 0, 1, 2)).unwrap().app, "a2");
    assert_eq!(t.get(&v6).unwrap().app, "c");
    assert!(t.get(&v4(10, 0, 0, 1, 3)).is_none());
}

#[test]
fn prune_drops_only_quiet_devices() {
    let mut s = SocketState::default();
    s.record_broadcast(v4(10, 0, 0, 1, 0), bc(0, "old", 4000));
    s.record_broadcast(v4(10, 0, 0, 2, 0), bc(10 * SEC, "new", 4000));
    let removed = s.prune_stale(STALE_AFTER);
    assert_eq!(removed.len(), 1);
    assert_eq!(removed[0].0, v4(10, 0, 0, 1, 4000));
    assert_eq!(removed[0].1.app, "old");
    assert_eq!(s.auto_targets.addrs(), vec![v4(10, 0, 0, 2, 4000)]);
    // pruning again at the same moment changes nothing
    let again = s.prune_stale(STALE_AFTER);
    assert!(again.is_empty());
    assert_eq!(s.auto_targets.len(), 1);
}

#[test]
fn prune_keeps_device_just_below_limit_and_future_stamps() {
    let mut s = SocketState::default();
    s.record_broadcast(v4(1, 1, 1, 1, 0), bc(1, "edge", 1));
    s.record_broadcast(v4(1, 1, 1, 2, 0), bc(100 * SEC, "future", 1));
    let removed = s.prune_stale(STALE_AFTER);
    assert!(removed.is_empty());
    assert_eq!(s.auto_targets.len(), 2);
}

#[test]
fn freshly_recorded_device_survives_prune() {
    let mut s = SocketState::default();
    s.record_broadcast(v4(1, 2, 3, 4, 0), bc(77 * SEC, "x", 9));
    assert!(s.prune_stale(77 * SEC).is_empty());
    assert!(s.auto_targets.contains_key(&v4(1, 2, 3, 4, 9)));
}

#[test]
fn nothing_due_without_targets() {
    let s = SocketState::default();
    assert!(s.due_targets(None, 0).is_none());
}

#[test]
fn due_targets_lists_discovered_then_configured() {
    let mut s = SocketState::default();
    s.record_broadcast(v4(10, 0, 0, 9, 0), bc(0, "b", 4000));
    s.record_broadcast(v4(10, 0, 0, 1, 0), bc(0, "a", 4000));
    s.target = Some(v4(192, 168, 1, 1, 4000));
    let t = s.due_targets(None, 0).unwrap();
    assert_eq!(
        t,
        vec![v4(10, 0, 0, 1, 4000), v4(10, 0, 0, 9, 4000), v4(192, 168, 1, 1, 4000)]
    );
}

#[test]
fn sends_are_spaced_by_interval() {
    let mut s = SocketState::default();
    s.target = Some(v4(192, 168, 1, 1, 4000));
    assert!(s.due_targets(Some(5 * SEC), 5 * SEC).is_none());
    assert!(s.due_targets(Some(5 * SEC), 6 * SEC - 1).is_none());
    assert_eq!(s.due_targets(Some(5 * SEC), 6 * SEC).unwrap().len(), 1);
    // a clock that went backwards counts as no time elapsed
    assert!(s.due_targets(Some(5 * SEC), 4 * SEC).is_none());
}

#[test]
fn cycle_records_prunes_and_plans() {
    let mut s = SocketState::default();
    s.record_broadcast(v4(10, 0, 0, 5, 0), bc(0, "gone", 4000));
    let r = s.cycle(Some((v4(10, 0, 0, 6, 1), bc(40 * SEC, "here", 4001))), Some(39 * SEC), 40 * SEC);
    assert!(r.new_device);
    assert_eq!(r.removed.len(), 1);
    assert_eq!(r.removed[0].1.app, "gone");
    assert_eq!(r.targets.unwrap(), vec![v4(10, 0, 0, 6, 4001)]);
    let r = s.cycle(None, Some(40 * SEC), 40 * SEC);
    assert!(!r.new_device);
    assert!(r.removed.is_empty());
    assert!(r.targets.is_none());
}

#[test]
fn payload_holds_enabled_messages_in_order() {
    let mut s = StateInner::default();
    let p = s.build_payload(vec![1, 2], vec![3], vec![4, 5]);
    assert_eq!(p, vec![1, 2, 3, 4, 5]);
    s.ownship = false;
    let p = s.build_payload(vec![1, 2], vec![3], vec![4, 5]);
    assert_eq!(p, vec![1, 2, 4, 5]);
    s.heartbeat = false;
    s.ahrs = false;
    assert!(s.build_payload(vec![1], vec![2], vec![3]).is_empty());
}
