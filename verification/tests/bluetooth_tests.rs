use ion_monitor::bluetooth::bluetooth_snapshot;

fn names(list: &[&str]) -> Vec<String> {
    list.iter().map(|s| s.to_string()).collect()
}

#[test]
fn no_devices_reads_none() {
    let b = bluetooth_snapshot(Some("PoweredOn".to_string()), Vec::new());
    assert_eq!(b.state, "PoweredOn");
    assert_eq!(b.devices_label, "None");
}

#[test]
fn unreadable_state_is_unknown() {
    let b = bluetooth_snapshot(None, names(&["Mouse"]));
    assert_eq!(b.state, "Unknown");
    assert_eq!(b.devices_label, "Mouse");
}

#[test]
fn devices_are_sorted_and_joined() {
    let b = bluetooth_snapshot(Some("On".to_string()), names(&["Speaker", "Headset", "Keyboard"]));
    assert_eq!(b.devices_label, "Headset, Keyboard, Speaker");
}

#[test]
fn at_most_five_devices_are_listed() {
    let b = bluetooth_snapshot(None, names(&["g", "f", "e", "d", "c", "b", "a"]));
    assert_eq!(b.devices_label, "a, b, c, d, e");
}

#[test]
fn uppercase_sorts_before_lowercase() {
    let b = bluetooth_snapshot(None, names(&["beta", "Alpha", "alpha", "Beta"]));
    assert_eq!(b.devices_label, "Alpha, Beta, alpha, beta");
}

use ion_monitor::bluetooth::{bluetooth_step, LinkAction, LinkEvent, LinkPhase};

#[test]
fn watcher_retries_without_adapter() {
    let (phase, action) = bluetooth_step(LinkPhase::Connecting, LinkEvent::ManagerFailed);
    assert_eq!(phase, LinkPhase::Connecting);
    match action {
        LinkAction::Publish(s) => {
            assert_eq!(s.state, "No Bluetooth");
            assert_eq!(s.devices_label, "None");
        }
        _ => panic!("expected the absent panel"),
    }
    let (phase, action) = bluetooth_step(phase, LinkEvent::Undelivered);
    assert_eq!(phase, LinkPhase::Connecting);
    assert!(matches!(action, LinkAction::Wait(3)));
    let (_, action) = bluetooth_step(phase, LinkEvent::NoAdapter);
    assert!(matches!(action, LinkAction::Publish(_)));
}

#[test]
fn watcher_scans_until_nobody_listens() {
    let (phase, action) = bluetooth_step(LinkPhase::Connecting, LinkEvent::AdapterReady);
    assert_eq!(phase, LinkPhase::Scanning);
    assert!(matches!(action, LinkAction::StartScan));
    let readout = LinkEvent::Readout { state: None, devices: vec!["Pad".to_string(), "Buds".to_string()] };
    let (phase, action) = bluetooth_step(phase, readout);
    assert_eq!(phase, LinkPhase::Scanning);
    match action {
        LinkAction::Publish(s) => {
            assert_eq!(s.state, "Unknown");
            assert_eq!(s.devices_label, "Buds, Pad");
        }
        _ => panic!("expected a panel"),
    }
    let (phase, action) = bluetooth_step(phase, LinkEvent::Delivered);
    assert!(matches!(action, LinkAction::Wait(2)));
    let (phase, action) = bluetooth_step(phase, LinkEvent::Undelivered);
    assert_eq!(phase, LinkPhase::Stopped);
    assert!(matches!(action, LinkAction::Stop));
    let (phase, action) = bluetooth_step(phase, LinkEvent::Delivered);
    assert_eq!(phase, LinkPhase::Stopped);
    assert!(matches!(action, LinkAction::Stop));
}
