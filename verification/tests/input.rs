use xplane_gdl90::addr::TargetAddr;
use xplane_gdl90::input::{human, interval_text_parsable, Input};
use xplane_gdl90::socket::SocketState;

#[test]
fn human_formats_with_humantime() {
    assert_eq!(human(10_000_000), "10ms");
    assert_eq!(human(9_420_000_000_000), "2h 37m");
    assert_eq!(human(0), "0s");
}

#[test]
fn initialize_fills_fields_once() {
    let mut input = Input::default();
    let socket = SocketState::default();
    input.initialize(&socket, Some("192.168.1.1:4000".to_string()));
    assert!(input.init);
    assert_eq!(input.target, "192.168.1.1:4000");
    assert_eq!(input.interval, "1s");
    input.interval = "5s".to_string();
    input.initialize(&socket, None);
    assert_eq!(input.interval, "5s");
}

#[test]
fn interval_text_sets_interval() {
    let mut input = Input::default();
    let mut socket = SocketState::default();
    input.interval = "100ms".to_string();
    input.apply_interval_text(&mut socket);
    assert_eq!(socket.interval, 100_000_000);
    assert!(input.interval_error.is_none());
    assert!(input.interval_warning.is_none());
}

#[test]
fn interval_below_minimum_is_raised_with_warning() {
    let mut input = Input::default();
    let mut socket = SocketState::default();
    input.interval = "5ms".to_string();
    input.apply_interval_text(&mut socket);
    assert_eq!(socket.interval, SocketState::MINIMUM_INTERVAL);
    assert_eq!(input.interval_warning.as_deref(), Some("Too low, using 10ms"));
    assert!(input.interval_error.is_none());
    input.interval = "0".to_string();
    input.apply_interval_text(&mut socket);
    assert_eq!(socket.interval, SocketState::MINIMUM_INTERVAL);
    assert_eq!(input.interval_warning.as_deref(), Some("Too low, using 10ms"));
}

#[test]
fn interval_errors_keep_interval() {
    let mut input = Input::default();
    let mut socket = SocketState::default();
    input.interval = "abc".to_string();
    input.apply_interval_text(&mut socket);
    assert_eq!(socket.interval, SocketState::DEFAULT_INTERVAL);
    assert_eq!(input.interval_error.as_deref(), Some("expected number at 0"));
    input.interval = "123".to_string();
    input.apply_interval_text(&mut socket);
    assert_eq!(
        input.interval_error.as_deref(),
        Some("time unit needed, for example 123sec or 123ms")
    );
    input.interval = String::new();
    input.apply_interval_text(&mut socket);
    assert_eq!(input.interval_error.as_deref(), Some("value was empty"));
    assert_eq!(socket.interval, SocketState::DEFAULT_INTERVAL);
}

#[test]
fn error_keeps_earlier_warning_and_success_clears_error() {
    let mut input = Input::default();
    let mut socket = SocketState::default();
    input.apply_interval(&mut socket, Ok(1));
    assert!(input.interval_warning.is_some());
    input.apply_interval(&mut socket, Err("bad".to_string()));
    assert_eq!(input.interval_error.as_deref(), Some("bad"));
    assert!(input.interval_warning.is_some());
    input.apply_interval(&mut socket, Ok(2_000_000_000));
    assert!(input.interval_error.is_none());
    assert!(input.interval_warning.is_none());
    assert_eq!(socket.interval, 2_000_000_000);
}

#[test]
fn target_field() {
    let mut input = Input::default();
    let mut socket = SocketState::default();
    let a = TargetAddr::V4 { ip: 0xC0A8_0101, port: 4000 };
    input.target = "192.168.1.1:4000".to_string();
    input.apply_target(&mut socket, Ok(a));
    assert_eq!(socket.target, Some(a));
    assert!(input.target_error.is_none());
    input.target = "nonsense".to_string();
    input.apply_target(&mut socket, Err("invalid socket address syntax".to_string()));
    assert_eq!(socket.target, Some(a));
    assert_eq!(input.target_error.as_deref(), Some("invalid socket address syntax"));
    input.target = String::new();
    input.apply_target(&mut socket, Err("ignored".to_string()));
    assert_eq!(socket.target, None);
    assert!(input.target_error.is_none());
}

#[test]
fn apply_does_both_fields() {
    let mut input = Input::default();
    let mut socket = SocketState::default();
    input.target = "x".to_string();
    input.interval = "2s".to_string();
    input.apply(&mut socket, Err("invalid socket address syntax".to_string()));
    assert_eq!(socket.interval, 2_000_000_000);
    assert!(socket.target.is_none());
    assert!(input.target_error.is_some());
}

#[test]
fn digit_limit_for_parsing() {
    assert!(interval_text_parsable("100ms"));
    assert!(interval_text_parsable("2h 37min 12s 5ms"));
    assert!(interval_text_parsable("12345678901ns"));
    assert!(!interval_text_parsable("123456789012ns"));
    assert!(!interval_text_parsable("18446744073709551615s 1000ms"));
    assert!(interval_text_parsable(""));
}
