use ion_monitor::snapshot::{
    disk_usage, gpu_entries, saturating_total, wifi_snapshot, BluetoothSnapshot, SystemSnapshot,
    WifiNetwork, WifiSnapshot,
};
use ion_monitor::text::decimal_string;

fn net(ssid: &str, level: i32) -> WifiNetwork {
    WifiNetwork { ssid: ssid.to_string(), signal_level: level }
}

#[test]
fn initial_snapshot_placeholders() {
    let s = SystemSnapshot::new();
    assert_eq!(s.cpu_total_str, "0.0%");
    assert!(s.cpu_per_core_str.is_empty());
    assert_eq!(s.mem_label, "0 B / 0 B");
    assert_eq!(s.disk_label, "0 B / 0 B");
    assert_eq!(s.net_rx_rate, "0 B/s");
    assert_eq!(s.net_tx_rate, "0 B/s");
    assert_eq!((s.mem_total, s.mem_used, s.disk_total, s.disk_used), (0, 0, 0, 0));
    assert!(s.processes.is_empty());
    assert_eq!(s.wifi.state, "No WiFi");
    assert_eq!(s.wifi.ssid, "N/A");
    assert_eq!(s.wifi.signal_label, "N/A");
    assert_eq!(s.wifi.signal_dbm_label, "");
    assert_eq!(s.bluetooth.state, "No Bluetooth");
    assert_eq!(s.bluetooth.devices_label, "None");
    assert_eq!(s.gpus.len(), 2);
    assert_eq!((s.gpus[0].label.as_str(), s.gpus[0].usage_label.as_str()), ("GPU 0", "N/A"));
    assert_eq!((s.gpus[1].label.as_str(), s.gpus[1].usage_label.as_str()), ("GPU 1", "N/A"));
}

#[test]
fn absent_panels() {
    let w = WifiSnapshot::absent();
    assert_eq!((w.state.as_str(), w.ssid.as_str()), ("No WiFi", "N/A"));
    let b = BluetoothSnapshot::absent();
    assert_eq!((b.state.as_str(), b.devices_label.as_str()), ("No Bluetooth", "None"));
}

#[test]
fn wifi_without_networks_is_absent() {
    let w = wifi_snapshot(&Vec::new());
    assert_eq!(w.state, "No WiFi");
    assert_eq!(w.signal_dbm_label, "");
}

#[test]
fn wifi_picks_strongest_network() {
    let w = wifi_snapshot(&vec![net("home", -70), net("cafe", -45), net("lab", -80)]);
    assert_eq!(w.state, "Available");
    assert_eq!(w.ssid, "cafe");
    assert_eq!(w.signal_label, "75%");
    assert_eq!(w.signal_dbm_label, "(-45 dBm)");
}

#[test]
fn wifi_ties_go_to_the_last_network() {
    let w = wifi_snapshot(&vec![net("first", -50), net("second", -50), net("weak", -60)]);
    assert_eq!(w.ssid, "second");
}

#[test]
fn wifi_hidden_and_extreme_levels() {
    let w = wifi_snapshot(&vec![net("", -20)]);
    assert_eq!(w.ssid, "<hidden>");
    assert_eq!(w.signal_label, "100%");
    assert_eq!(w.signal_dbm_label, "(-20 dBm)");
    let w = wifi_snapshot(&vec![net("far", -95)]);
    assert_eq!(w.signal_label, "0%");
    let w = wifi_snapshot(&vec![net("odd", 3)]);
    assert_eq!(w.signal_dbm_label, "(3 dBm)");
    let w = wifi_snapshot(&vec![net("min", i32::MIN)]);
    assert_eq!(w.signal_dbm_label, "(-2147483648 dBm)");
}

#[test]
fn gpu_entries_pad_to_two() {
    let g = gpu_entries(&Vec::new());
    assert_eq!(g.len(), 2);
    assert_eq!((g[0].label.as_str(), g[0].usage_label.as_str()), ("GPU 0", "N/A"));
    assert_eq!((g[1].label.as_str(), g[1].usage_label.as_str()), ("GPU 1", "N/A"));
    let g = gpu_entries(&vec![Some("37%".to_string())]);
    assert_eq!((g[0].label.as_str(), g[0].usage_label.as_str()), ("GPU 0", "37%"));
    assert_eq!(g[1].usage_label, "N/A");
}

#[test]
fn gpu_entries_keep_first_two() {
    let g = gpu_entries(&vec![None, Some("5%".to_string()), Some("9%".to_string())]);
    assert_eq!(g.len(), 2);
    assert_eq!(g[0].usage_label, "N/A");
    assert_eq!((g[1].label.as_str(), g[1].usage_label.as_str()), ("GPU 1", "5%"));
}

#[test]
fn saturating_sums() {
    assert_eq!(saturating_total(&vec![]), 0);
    assert_eq!(saturating_total(&vec![1, 2, 3]), 6);
    assert_eq!(saturating_total(&vec![u64::MAX - 1, 5, 7]), u64::MAX);
}

#[test]
fn disk_usage_totals_and_used() {
    assert_eq!(disk_usage(&vec![100, 50], &vec![30, 20]), (150, 100));
    assert_eq!(disk_usage(&vec![10], &vec![40]), (10, 0));
    assert_eq!(disk_usage(&vec![], &vec![]), (0, 0));
    assert_eq!(disk_usage(&vec![u64::MAX, 1], &vec![1]), (u64::MAX, u64::MAX - 1));
}

#[test]
fn decimal_strings() {
    assert_eq!(decimal_string(0), "0");
    assert_eq!(decimal_string(4021), "4021");
    assert_eq!(decimal_string(u64::MAX), u64::MAX.to_string());
}
