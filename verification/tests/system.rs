use frr_bootc::process::CommandOutput;
use frr_bootc::system::{
    cpu_count, disk_fits, disk_usage, fmt_bytes, hostname, load_average, memory, memory_fits,
    memory_percent, now_local, uptime, uptime_field, FileSystem,
};
use frr_bootc::systemd::{is_active, is_failed, sync_health, SyncHealth};

#[test]
fn fmt_bytes_picks_the_right_unit() {
    assert_eq!(fmt_bytes(0), "0B");
    assert_eq!(fmt_bytes(512), "512B");
    assert_eq!(fmt_bytes(1536), "1.5Ki");
    assert_eq!(fmt_bytes(15 * 1024 * 1024), "15.0Mi");
    assert_eq!(fmt_bytes(2 * 1024 * 1024 * 1024), "2.0Gi");
}

/// The same in floating point.
fn fmt_bytes_double(bytes: u64) -> String {
    let units = ["", "Ki", "Mi", "Gi", "Ti"];
    let mut value = bytes as f64;
    let mut unit = 0;
    while value >= 1024.0 && unit < units.len() - 1 {
        value /= 1024.0;
        unit += 1;
    }
    if unit == 0 {
        format!("{bytes}B")
    } else {
        format!("{value:.1}{}", units[unit])
    }
}

#[test]
fn fmt_bytes_rounds_as_doubles_do() {
    let mut x: u64 = 3;
    for i in 0..20_000u64 {
        x = x.wrapping_mul(6364136223846793005).wrapping_add(1442695040888963407);
        let n = x >> (i % 64);
        assert_eq!(fmt_bytes(n), fmt_bytes_double(n), "{n}");
    }
    for n in [1023, 1024, 1075, 1076, 1126, 1127, 1_048_575, 1_048_576, u64::MAX, u64::MAX - 1025] {
        assert_eq!(fmt_bytes(n), fmt_bytes_double(n), "{n}");
    }
}

#[test]
fn memory_percent_is_that_of_doubles() {
    let percent = |used: u64, total: u64| {
        ((used as f64 / total as f64 * 100.0).round() as u16).min(100)
    };
    let mut x: u64 = 11;
    for i in 0..20_000u64 {
        x = x.wrapping_mul(6364136223846793005).wrapping_add(1442695040888963407);
        let total = x >> (i % 64);
        x = x.wrapping_mul(6364136223846793005).wrapping_add(1442695040888963407);
        let used = if total == 0 { x } else { x % (total / 2 * 3 + 1).max(1) };
        assert_eq!(memory_percent(used, total), percent(used, total), "{used} of {total}");
    }
    for (used, total) in [(0, 0), (1, 0), (1, u64::MAX), (u64::MAX, u64::MAX), (u64::MAX, 1), (1, 200), (145, 1000)] {
        assert_eq!(memory_percent(used, total), percent(used, total), "{used} of {total}");
    }
    assert_eq!(memory_percent(1, 3), 33);
    assert_eq!(memory_percent(2, 3), 67);
    assert_eq!(memory_percent(0, 0), 0);
    assert_eq!(memory_percent(1, 0), 100);
}

#[test]
fn hostname_ends_at_the_first_nul() {
    assert_eq!(hostname(&Some(b"router\0junk".to_vec())), "router");
    assert_eq!(hostname(&Some(b"no end".to_vec())), "unknown");
    assert_eq!(hostname(&None), "unknown");
    assert_eq!(hostname(&Some(b"a\xff\0".to_vec())), "a\u{fffd}");
}

#[test]
fn uptime_is_told_in_days_hours_and_minutes() {
    assert_eq!(uptime(0), "0d 0h 0m");
    assert_eq!(uptime(86400 * 3 + 3600 * 4 + 60 * 5 + 59), "3d 4h 5m");
    assert_eq!(uptime_field("12345.67 54321.0\n"), Some("12345.67".to_string()));
    assert_eq!(uptime_field(""), None);
}

#[test]
fn load_average_is_the_first_three_fields() {
    assert_eq!(load_average("0.00 0.01 0.05 1/234 5678\n"), "0.00 0.01 0.05");
    assert_eq!(load_average("1.5"), "1.5");
    assert_eq!(load_average(""), "");
}

#[test]
fn cpus_are_counted_and_there_is_at_least_one() {
    let info = "processor\t: 0\nmodel\t: x\n\nprocessor\t: 1\n".to_string();
    assert_eq!(cpu_count(&Some(info)), 2);
    assert_eq!(cpu_count(&Some(String::new())), 1);
    assert_eq!(cpu_count(&None), 1);
}

#[test]
fn memory_is_read_from_its_two_lines() {
    let raw = Some("MemTotal:       2048 kB\nMemFree: 1 kB\nMemAvailable:    512 kB\n".to_string());
    assert!(memory_fits(&raw));
    let m = memory(&raw).unwrap();
    assert_eq!((m.total, m.available, m.used), (2048 * 1024, 512 * 1024, 1536 * 1024));
    assert!(memory(&Some("MemTotal: 1 kB\n".to_string())).is_none());
    assert!(memory(&Some("MemTotal: x kB\nMemAvailable: 1 kB\n".to_string())).is_none());
    assert!(memory(&None).is_none());
    // More available than there is: nothing is used.
    let m = memory(&Some("MemTotal: 1 kB\nMemAvailable: 2 kB\n".to_string())).unwrap();
    assert_eq!(m.used, 0);
    assert!(!memory_fits(&Some("MemTotal: 18446744073709551615 kB\nMemAvailable: 1 kB".to_string())));
}

#[test]
fn disk_usage_counts_what_is_reserved_as_neither_used_nor_free() {
    let fs = FileSystem { block_size: 4096, blocks: 1000, free: 400, available: 300 };
    assert!(disk_fits(&fs));
    let d = disk_usage(&Some(fs)).unwrap();
    assert_eq!(d.total, 4096 * 1000);
    assert_eq!(d.used, 4096 * 600);
    assert_eq!(d.percent_used, 66);
    assert!(disk_usage(&None).is_none());
    let d = disk_usage(&Some(FileSystem { block_size: 4096, blocks: 0, free: 0, available: 0 })).unwrap();
    assert_eq!((d.total, d.used, d.percent_used), (0, 0, 0));
    assert!(!disk_fits(&FileSystem { block_size: u64::MAX, blocks: 2, free: 0, available: 0 }));
}

fn output(success: bool, stdout: &str) -> Option<CommandOutput> {
    Some(CommandOutput { success, stdout: stdout.as_bytes().to_vec(), stderr: Vec::new() })
}

#[test]
fn the_date_is_trimmed_and_empty_on_failure() {
    assert_eq!(now_local(&output(true, "2026-01-01 00:00:00 UTC\n")), "2026-01-01 00:00:00 UTC");
    assert_eq!(now_local(&output(false, "x")), "");
    assert_eq!(now_local(&None), "");
}

#[test]
fn a_failed_service_outweighs_its_timer() {
    assert!(is_active(Some(true)));
    assert!(!is_active(Some(false)));
    assert!(!is_active(None));
    assert!(is_failed(Some(true)));
    assert!(!is_failed(None));
    assert!(matches!(sync_health(Some(true), Some(true)), SyncHealth::Failed));
    assert!(matches!(sync_health(Some(true), None), SyncHealth::Failed));
    assert!(matches!(sync_health(Some(false), Some(true)), SyncHealth::Healthy));
    assert!(matches!(sync_health(None, Some(false)), SyncHealth::TimerNotActive));
    assert!(matches!(sync_health(None, None), SyncHealth::TimerNotActive));
}
