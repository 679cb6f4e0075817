use ion_monitor::pulse::PulseSchedule;

const MS: u64 = 1_000_000;

#[test]
fn nothing_fires_right_away() {
    let mut s = PulseSchedule::new(0);
    let f = s.pulse(16 * MS);
    assert!(!f.banner && !f.gauges && !f.sparklines && !f.table && !f.side);
}

#[test]
fn each_timer_fires_after_its_period() {
    let mut s = PulseSchedule::new(0);
    let f = s.pulse(321 * MS);
    assert!(f.sparklines && !f.gauges);
    let f = s.pulse(351 * MS);
    assert!(f.gauges && !f.sparklines);
    let f = s.pulse(501 * MS);
    assert!(f.table && !f.side);
    let f = s.pulse(601 * MS);
    assert!(f.side && !f.banner);
    let f = s.pulse(2001 * MS);
    assert!(f.banner && f.gauges && f.sparklines && f.table && f.side);
}

#[test]
fn exactly_the_period_does_not_fire() {
    let mut s = PulseSchedule::new(0);
    let f = s.pulse(350 * MS);
    assert!(!f.gauges);
    let f = s.pulse(350 * MS + 1);
    assert!(f.gauges);
}

#[test]
fn earlier_clock_reading_fires_nothing() {
    let mut s = PulseSchedule::new(5000 * MS);
    let f = s.pulse(0);
    assert!(!f.banner && !f.gauges && !f.sparklines && !f.table && !f.side);
}

use ion_monitor::pulse::ScanGate;

#[test]
fn first_wifi_scan_is_due_at_once() {
    let mut gate = ScanGate::new();
    assert!(gate.due(0));
    assert!(!gate.due(1));
}

#[test]
fn wifi_scans_are_three_seconds_apart() {
    let mut gate = ScanGate::new();
    assert!(gate.due(10 * MS));
    assert!(!gate.due(3009 * MS));
    assert!(gate.due(3010 * MS));
    assert!(!gate.due(4000 * MS));
    assert!(gate.due(9000 * MS));
}
