use xplane_gdl90::addr::TargetAddr;

#[test]
fn ipv4_before_ipv6() {
    let a = TargetAddr::V4 { ip: u32::MAX, port: u16::MAX };
    let b = TargetAddr::V6 { ip: 0, port: 0, flowinfo: 0, scope_id: 0 };
    assert!(a.less_than(&b));
    assert!(!b.less_than(&a));
}

#[test]
fn order_by_ip_then_port() {
    let a = TargetAddr::V4 { ip: 1, port: 9 };
    let b = TargetAddr::V4 { ip: 2, port: 1 };
    let c = TargetAddr::V4 { ip: 2, port: 3 };
    assert!(a.less_than(&b) && b.less_than(&c) && a.less_than(&c));
    assert!(!a.less_than(&a));
    let x = TargetAddr::V6 { ip: 5, port: 1, flowinfo: 2, scope_id: 0 };
    let y = TargetAddr::V6 { ip: 5, port: 1, flowinfo: 2, scope_id: 1 };
    assert!(x.less_than(&y) && !y.less_than(&x));
}

#[test]
fn set_port_keeps_address() {
    let mut a = TargetAddr::V6 { ip: 7, port: 1, flowinfo: 3, scope_id: 4 };
    a.set_port(4000);
    assert_eq!(a, TargetAddr::V6 { ip: 7, port: 4000, flowinfo: 3, scope_id: 4 });
    assert_eq!(a.port(), 4000);
    let mut b = TargetAddr::V4 { ip: 7, port: 1 };
    b.set_port(2);
    assert_eq!(b, TargetAddr::V4 { ip: 7, port: 2 });
}
