use votype_core::foreground_tracker::{
    get_last_external_frontmost, next_slot_value, poll_frontmost, set_last_external_frontmost,
    ActiveWindowInfo, FrontmostSlot, WindowPosition,
};

fn snap(pid: u64, app: &str) -> ActiveWindowInfo {
    ActiveWindowInfo {
        title: format!("{app}-title"),
        app_name: app.to_string(),
        window_id: format!("w-{pid}"),
        process_id: pid,
        process_path: format!("/Applications/{app}.app"),
        position: WindowPosition {
            x_bits: 0.0f64.to_bits(),
            y_bits: 0.0f64.to_bits(),
            width_bits: 100.0f64.to_bits(),
            height_bits: 100.0f64.to_bits(),
        },
    }
}

#[test]
fn next_slot_value_returns_info_for_external_pid() {
    let result = next_slot_value(Ok(snap(99, "VSCode")), 12345);
    assert!(
        matches!(result, Some(ref info) if info.process_id == 99 && info.app_name == "VSCode"),
        "expected Some(info) with VSCode, got {:?}",
        result
    );
}

#[test]
fn next_slot_value_skips_self_pid() {
    let result = next_slot_value(Ok(snap(12345, "Votype")), 12345);
    assert!(result.is_none(), "self pid must not write to slot");
}

#[test]
fn next_slot_value_skips_fetch_error() {
    let result = next_slot_value(Err("permission denied".to_string()), 12345);
    assert!(result.is_none(), "fetch error must leave slot untouched");
}

#[test]
fn set_then_get_round_trip() {
    let mut slot = FrontmostSlot::new();
    set_last_external_frontmost(&mut slot, snap(77, "Chrome"));
    let got = get_last_external_frontmost(&slot).expect("slot should hold value");
    assert_eq!(got.process_id, 77);
    assert_eq!(got.app_name, "Chrome");
}

#[test]
fn later_set_overwrites_earlier_value() {
    let mut slot = FrontmostSlot::new();
    set_last_external_frontmost(&mut slot, snap(77, "Chrome"));
    set_last_external_frontmost(&mut slot, snap(88, "Slack"));
    let got = get_last_external_frontmost(&slot).expect("slot should hold value");
    assert_eq!(got.process_id, 88);
    assert_eq!(got.app_name, "Slack");
}

#[test]
fn empty_slot_holds_nothing() {
    let slot = FrontmostSlot::new();
    assert!(get_last_external_frontmost(&slot).is_none());
}

#[test]
fn poll_keeps_slot_on_self_pid_and_error() {
    let mut slot = FrontmostSlot::new();
    poll_frontmost(&mut slot, Ok(snap(77, "Chrome")), 12345);
    poll_frontmost(&mut slot, Ok(snap(12345, "Votype")), 12345);
    poll_frontmost(&mut slot, Err("permission denied".to_string()), 12345);
    let got = get_last_external_frontmost(&slot).expect("slot should hold value");
    assert_eq!(got.process_id, 77);
    assert_eq!(got.app_name, "Chrome");
    assert_eq!(got.position.width_bits, 100.0f64.to_bits());
}
