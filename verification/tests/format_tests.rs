use ion_monitor::text::{dbm_to_percent, format_bytes, usage_label};

fn float_bytes(bytes: u64) -> String {
    let units = ["B", "KB", "MB", "GB", "TB"];
    let mut value = bytes as f64;
    let mut unit = units[0];
    for next in &units[1..] {
        if value >= 1024.0 {
            value /= 1024.0;
            unit = next;
        }
    }
    if unit == "B" {
        format!("{} B", bytes)
    } else {
        format!("{:.1} {}", value, unit)
    }
}

fn float_dbm(dbm: i32) -> u8 {
    let clamped = dbm.clamp(-90, -30);
    let pct = ((clamped + 90) as f32 / 60.0) * 100.0;
    pct.round().clamp(0.0, 100.0) as u8
}

#[test]
fn format_bytes_small_values() {
    assert_eq!(format_bytes(0), "0 B");
    assert_eq!(format_bytes(1023), "1023 B");
    assert_eq!(format_bytes(1024), "1.0 KB");
}

#[test]
fn format_bytes_half_tenth_ties() {
    assert_eq!(format_bytes(1280), float_bytes(1280));
    assert_eq!(format_bytes(1024 + 256 * 3), float_bytes(1024 + 256 * 3));
    assert_eq!(format_bytes(1280), "1.2 KB");
    assert_eq!(format_bytes(1792), "1.8 KB");
}

#[test]
fn format_bytes_matches_float_formatting() {
    let mut samples: Vec<u64> = Vec::new();
    for i in 0..5000u64 {
        samples.push(i * 37);
        samples.push(1024 * 1024 + i * 1021);
        samples.push((1u64 << 30) + i * 104_729_3);
        samples.push((1u64 << 40) + i * 999_999_937);
    }
    samples.push(u64::MAX >> 11);
    for b in samples {
        assert_eq!(format_bytes(b), float_bytes(b), "bytes {}", b);
    }
}

#[test]
fn dbm_to_percent_matches_float_rounding() {
    for dbm in -200..50 {
        assert_eq!(dbm_to_percent(dbm), float_dbm(dbm), "dbm {}", dbm);
    }
    assert_eq!(dbm_to_percent(-90), 0);
    assert_eq!(dbm_to_percent(-30), 100);
    assert_eq!(dbm_to_percent(-60), 50);
    assert_eq!(dbm_to_percent(-89), 2);
}

#[test]
fn usage_label_joins_two_sizes() {
    assert_eq!(usage_label(0, 0), "0 B / 0 B");
    assert_eq!(usage_label(1536, 1 << 30), "1.5 KB / 1.0 GB");
}

#[test]
fn signal_percent_never_falls_as_signal_grows() {
    let mut previous = 0u8;
    for dbm in -120..10 {
        let pct = dbm_to_percent(dbm);
        assert!(pct >= previous && pct <= 100);
        previous = pct;
    }
}
