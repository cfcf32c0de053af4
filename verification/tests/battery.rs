use ira::battery::{battery_icon_name, pick_battery, read_battery, Battery, BatteryKind};

#[test]
fn test_read_battery_type_and_scope() {
    let battery = read_battery(Some("Battery\n"), None, Some("87\n")).unwrap();
    assert_eq!(battery.capacity, 87);
    assert_eq!(battery.kind, BatteryKind::System);

    let battery = read_battery(Some("Battery\n"), Some("Device\n"), Some("45\n")).unwrap();
    assert_eq!(battery.kind, BatteryKind::Peripheral);
}

#[test]
fn test_read_battery_skips_mains_and_unreadable() {
    assert!(read_battery(Some("Mains\n"), None, None).is_none());
    assert!(read_battery(None, None, None).is_none());
}

#[test]
fn read_battery_needs_a_numeric_capacity() {
    assert!(read_battery(Some("Battery"), None, None).is_none());
    assert!(read_battery(Some("Battery"), None, Some("full")).is_none());
    assert!(read_battery(Some("Battery"), None, Some("-5")).is_none());
    assert_eq!(read_battery(Some(" Battery "), Some("System"), Some(" +9 ")).unwrap().capacity, 9);
}

#[test]
fn test_pick_battery_prefers_system_pack() {
    let system = Battery { capacity: 40, kind: BatteryKind::System };
    let peripheral = Battery { capacity: 99, kind: BatteryKind::Peripheral };
    assert_eq!(pick_battery(&vec![peripheral, system]).unwrap().capacity, 40);
    assert_eq!(pick_battery(&vec![peripheral]).unwrap().kind, BatteryKind::Peripheral);
    assert!(pick_battery(&vec![]).is_none());
}

#[test]
fn pick_battery_takes_the_fullest_of_a_kind() {
    let a = Battery { capacity: 30, kind: BatteryKind::System };
    let b = Battery { capacity: 70, kind: BatteryKind::System };
    let c = Battery { capacity: 50, kind: BatteryKind::Peripheral };
    let d = Battery { capacity: 80, kind: BatteryKind::Peripheral };
    assert_eq!(pick_battery(&vec![a, c, b]), Some(b));
    assert_eq!(pick_battery(&vec![c, d]), Some(d));
}

#[test]
fn test_battery_icon_thresholds() {
    assert_eq!(battery_icon_name(100), "battery-full-symbolic");
    assert_eq!(battery_icon_name(70), "battery-good-symbolic");
    assert_eq!(battery_icon_name(40), "battery-low-symbolic");
    assert_eq!(battery_icon_name(15), "battery-caution-symbolic");
    assert_eq!(battery_icon_name(5), "battery-empty-symbolic");
}

#[test]
fn battery_icon_boundaries() {
    assert_eq!(battery_icon_name(9), "battery-empty-symbolic");
    assert_eq!(battery_icon_name(10), "battery-caution-symbolic");
    assert_eq!(battery_icon_name(24), "battery-caution-symbolic");
    assert_eq!(battery_icon_name(25), "battery-low-symbolic");
    assert_eq!(battery_icon_name(59), "battery-low-symbolic");
    assert_eq!(battery_icon_name(60), "battery-good-symbolic");
    assert_eq!(battery_icon_name(94), "battery-good-symbolic");
    assert_eq!(battery_icon_name(95), "battery-full-symbolic");
}

#[test]
fn the_status_rail_shows_charge_and_kind() {
    assert!(ira::battery::battery_display(None).is_none());
    let d = ira::battery::battery_display(Some(ira::battery::Battery {
        capacity: 42,
        kind: ira::battery::BatteryKind::Peripheral,
    }))
    .unwrap();
    assert_eq!(d.icon, "battery-low-symbolic");
    assert_eq!(d.label, "42%");
    assert_eq!(d.tooltip, "Controller battery");
    let s = ira::battery::battery_display(Some(ira::battery::Battery {
        capacity: 100,
        kind: ira::battery::BatteryKind::System,
    }))
    .unwrap();
    assert_eq!(s.label, "100%");
    assert_eq!(s.tooltip, "System battery");
}
