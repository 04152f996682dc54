use xplane_gdl90::viewer::{
    data_kind, refresh_due, render_i32, render_u64, summarize, summarize_ints, DataKind,
    DatarefType,
};

#[test]
fn from_bits_accepts_defined_flags_only() {
    assert_eq!(DatarefType::from_bits(0).unwrap().bits(), 0);
    assert_eq!(DatarefType::from_bits(63).unwrap().bits(), 63);
    assert!(DatarefType::from_bits(64).is_none());
    assert!(DatarefType::from_bits(-1).is_none());
    assert!(DatarefType::from_bits(i32::MIN).is_none());
}

#[test]
fn contains_flags() {
    let t = DatarefType::from_bits(DatarefType::FLOAT | DatarefType::DOUBLE).unwrap();
    assert!(t.contains(DatarefType::FLOAT));
    assert!(t.contains(DatarefType::DOUBLE));
    assert!(!t.contains(DatarefType::INT));
    assert!(t.contains(DatarefType::UNKNOWN));
}

#[test]
fn kind_priority() {
    let k = |b: i32| data_kind(DatarefType::from_bits(b).unwrap());
    assert_eq!(k(6), Some(DataKind::Double));
    assert_eq!(k(2 | 1), Some(DataKind::Float));
    assert_eq!(k(1 | 8), Some(DataKind::Int));
    assert_eq!(k(8 | 16), Some(DataKind::FloatArray));
    assert_eq!(k(16), Some(DataKind::IntArray));
    assert_eq!(k(32), None);
    assert_eq!(k(0), None);
}

#[test]
fn kind_labels() {
    assert_eq!(DataKind::Int.label(), "i32");
    assert_eq!(DataKind::Float.label(), "f32");
    assert_eq!(DataKind::Double.label(), "f64");
    assert_eq!(DataKind::FloatArray.label(), "[f32]");
    assert_eq!(DataKind::IntArray.label(), "[i32]");
}

#[test]
fn refresh_once_a_second() {
    assert!(!refresh_due(0, 999_999_999));
    assert!(refresh_due(0, 1_000_000_000));
    assert!(!refresh_due(5, 3));
}

#[test]
fn decimal_rendering() {
    assert_eq!(render_u64(0), "0");
    assert_eq!(render_u64(1234567890), "1234567890");
    assert_eq!(render_u64(u64::MAX), u64::MAX.to_string());
    assert_eq!(render_i32(-42), "-42");
    assert_eq!(render_i32(i32::MIN), i32::MIN.to_string());
    assert_eq!(render_i32(i32::MAX), "2147483647");
}

#[test]
fn short_arrays_shown_whole() {
    assert_eq!(summarize_ints(&vec![]), "[]");
    assert_eq!(summarize_ints(&vec![1, -2, 3]), format!("{:?}", vec![1, -2, 3]));
    let ten: Vec<i32> = (0..10).collect();
    assert_eq!(summarize_ints(&ten), format!("{:?}", ten));
}

#[test]
fn long_arrays_cut_after_ten() {
    let v: Vec<i32> = (0..15).collect();
    assert_eq!(summarize_ints(&v), "[0, 1, 2, 3, 4, 5, 6, 7, 8, 9, ... (5 more)]");
    let v: Vec<i32> = (0..11).collect();
    assert_eq!(summarize_ints(&v), "[0, 1, 2, 3, 4, 5, 6, 7, 8, 9, ... (1 more)]");
}

#[test]
fn float_arrays_use_debug_or_display() {
    let short = [1.0f32, 2.5];
    let dbg: Vec<String> = short.iter().map(|v| format!("{v:?}")).collect();
    let disp: Vec<String> = short.iter().map(|v| v.to_string()).collect();
    assert_eq!(summarize(&dbg, &disp, 2), format!("{short:?}"));
    let long: Vec<f32> = (0..12).map(|i| i as f32).collect();
    let dbg: Vec<String> = long.iter().take(10).map(|v| format!("{v:?}")).collect();
    let disp: Vec<String> = long.iter().take(10).map(|v| v.to_string()).collect();
    assert_eq!(summarize(&dbg, &disp, 12), "[0, 1, 2, 3, 4, 5, 6, 7, 8, 9, ... (2 more)]");
}
