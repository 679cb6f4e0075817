use ion_monitor::cache::UiCache;
use ion_monitor::snapshot::SystemSnapshot;

const BANNER: [&str; 5] = [
    "IIII  OOOO  NN   N",
    " II  O    O N N  N",
    " II  O    O N  N N",
    " II  O    O N   NN",
    "IIII  OOOO  N    N",
];

#[test]
fn new_cache_holds_only_the_banner() {
    let cache = UiCache::new();
    assert_eq!(cache.banner_text(), BANNER.join("\n"));
    assert_eq!(cache.summary_text(), "");
    assert_eq!(cache.per_core_text(), "");
    assert_eq!(cache.net_text(), "");
    assert_eq!(cache.conn_text(), "");
}

#[test]
fn update_builds_every_panel() {
    let mut snapshot = SystemSnapshot::new();
    snapshot.cpu_total_str = "12.5%".to_string();
    snapshot.mem_label = "1.0 GB / 8.0 GB".to_string();
    snapshot.net_rx_rate = "3.0 KB/s".to_string();
    snapshot.cpu_per_core_str = vec!["C00  10.0%".to_string(), "C01  15.0%".to_string()];
    let mut cache = UiCache::new();
    cache.update(&snapshot, false);
    assert_eq!(
        cache.summary_text(),
        "MODE VIEW   CPU 12.5%   RAM 1.0 GB / 8.0 GB   DISK 0 B / 0 B   NET D:3.0 KB/s U:0 B/s"
    );
    assert_eq!(cache.per_core_text(), "C00  10.0%\nC01  15.0%");
    assert_eq!(cache.net_text(), "Down 3.0 KB/s\nUp   0 B/s");
    assert_eq!(
        cache.conn_text(),
        "WiFi No WiFi\nSSID N/A\nSignal N/A \nBT No Bluetooth\nDevices None"
    );
    assert_eq!(cache.banner_text(), BANNER.join("\n"));
}

#[test]
fn update_shows_navigation_mode() {
    let snapshot = SystemSnapshot::new();
    let mut cache = UiCache::new();
    cache.update(&snapshot, true);
    assert!(cache.summary_text().starts_with("MODE NAV   CPU 0.0%"));
    assert_eq!(cache.per_core_text(), "");
}
