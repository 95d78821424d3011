use frr_bootc::frr::{BgpAfi, BgpPeer, BgpVrf, FrrStatus, RouteSummary};
use frr_bootc::net::{Interface, Sample, ThroughputSampler};
use frr_bootc::plain::print_plain;
use frr_bootc::process::{stdout_or_empty, CommandOutput};
use frr_bootc::snapshot::{
    bootc_status, complete, gather, gather_complete, Readings, Snapshot, SyncUnit, UnitReading,
};
use frr_bootc::system::{DiskInfo, FileSystem, MemInfo};
use frr_bootc::systemd::SyncHealth;

fn output(success: bool, stdout: &str) -> Option<CommandOutput> {
    Some(CommandOutput { success, stdout: stdout.as_bytes().to_vec(), stderr: Vec::new() })
}

fn reading(service: Option<bool>, timer: Option<bool>) -> UnitReading {
    UnitReading { service_failed: service, timer_active: timer }
}

fn readings() -> Readings {
    Readings {
        frr_service_active: true,
        hostname: Some(b"router\0".to_vec()),
        date: output(true, "2026-01-01 00:00:00 UTC\n"),
        uptime_secs: 90061,
        loadavg: "0.10 0.20 0.30 1/2 3\n".to_string(),
        cpuinfo: Some("processor : 0\nprocessor : 1\n".to_string()),
        meminfo: Some("MemTotal: 1000 kB\nMemAvailable: 250 kB\n".to_string()),
        root: Some(FileSystem { block_size: 1024, blocks: 100, free: 50, available: 50 }),
        ip: output(true, "lo UNKNOWN 127.0.0.1/8\neth0 UP 192.0.2.1/24\n"),
        counters: vec![Some(Sample { rx: 1, tx: 2, at: 0 })],
        daemons: output(true, " zebra bgpd\n"),
        routes: Some(RouteSummary { routes_total: 3, routes_total_fib: 2 }),
        vrfs: Some(vec![BgpVrf {
            name: "default".to_string(),
            afis: vec![BgpAfi {
                name: "ipv4Unicast".to_string(),
                peers: vec![BgpPeer {
                    address: "192.0.2.10".to_string(),
                    state: "Established".to_string(),
                }],
            }],
        }]),
        frr_config: reading(Some(false), Some(true)),
        network_config: reading(Some(true), Some(true)),
        bootc_image: reading(None, None),
        bootc: output(true, "1\n2\n3\n4\n5\n6\n7\n8\n9\n"),
    }
}

#[test]
fn a_snapshot_puts_the_readings_together() {
    let mut net = ThroughputSampler::new();
    let r = readings();
    assert!(complete(&r));
    let s = gather(&mut net, &r);
    assert_eq!(s.hostname, "router");
    assert_eq!(s.now, "2026-01-01 00:00:00 UTC");
    assert_eq!(s.uptime, "1d 1h 1m");
    assert_eq!(s.load_average, "0.10 0.20 0.30");
    assert_eq!(s.cpu_count, 2);
    assert_eq!(s.memory.as_ref().unwrap().used, 750 * 1024);
    assert_eq!(s.disk.as_ref().unwrap().percent_used, 50);
    assert_eq!(s.interfaces.len(), 1);
    assert_eq!(s.interfaces[0].name, "eth0");
    assert!(s.frr_service_active);
    assert_eq!(s.frr.daemons, "zebra bgpd");
    assert_eq!(s.frr.route_summary.as_deref(), Some("3 routes, 2 FIB"));
    assert_eq!(s.frr.bgp_vrf_peers, vec![("default".to_string(), 1, 1)]);
    let units: Vec<(&str, &str)> = s.sync_units.iter().map(|u| (u.label, u.service)).collect();
    assert_eq!(
        units,
        vec![
            ("FRR config sync", "frr-config-sync.service"),
            ("Network config sync", "network-config-sync.service"),
            ("bootc image sync", "bootc-image-sync.service"),
        ]
    );
    assert!(matches!(s.sync_units[0].health, SyncHealth::Healthy));
    assert!(matches!(s.sync_units[1].health, SyncHealth::Failed));
    assert!(matches!(s.sync_units[2].health, SyncHealth::TimerNotActive));
    assert_eq!(s.bootc_status.as_deref(), Some("1\n2\n3\n4\n5\n6\n7\n8"));
}

#[test]
fn readings_that_do_not_fit_together_make_no_snapshot() {
    let mut net = ThroughputSampler::new();
    assert!(gather_complete(&mut net, &readings()).is_some());
    let mut r = readings();
    r.counters.clear();
    assert!(!complete(&r));
    assert!(gather_complete(&mut net, &r).is_none());
    let mut r = readings();
    r.meminfo = Some("MemTotal: 18446744073709551615 kB\nMemAvailable: 1 kB\n".to_string());
    assert!(!complete(&r));
    let mut r = readings();
    r.root = Some(FileSystem { block_size: u64::MAX, blocks: 2, free: 1, available: 1 });
    assert!(!complete(&r));
}

#[test]
fn image_status_is_cut_to_eight_lines_and_gone_on_failure() {
    assert_eq!(bootc_status(&output(true, "a\r\nb\n")).as_deref(), Some("a\nb"));
    assert_eq!(bootc_status(&output(false, "a\n")), None);
    assert_eq!(bootc_status(&None), None);
    assert_eq!(stdout_or_empty(&output(true, "x")), "x");
    assert_eq!(stdout_or_empty(&output(false, "x")), "");
}

fn snapshot() -> Snapshot {
    Snapshot {
        hostname: "router".to_string(),
        now: "now".to_string(),
        uptime: "0d 0h 0m".to_string(),
        load_average: "0.00 0.00 0.00".to_string(),
        cpu_count: 4,
        memory: Some(MemInfo { used: 1536, total: 2048, available: 512 }),
        disk: Some(DiskInfo { used: 512, total: 1024, percent_used: 50 }),
        interfaces: vec![
            Interface {
                name: "eth0".to_string(),
                up: true,
                addrs: vec!["192.0.2.1/24".to_string(), "fe80::1/64".to_string()],
                rate: Some((15, 15_625)),
            },
            Interface { name: "a-very-long-interface".to_string(), up: false, addrs: vec![], rate: None },
        ],
        frr_service_active: true,
        frr: FrrStatus {
            daemons: "zebra bgpd".to_string(),
            route_summary: Some("3 routes, 2 FIB".to_string()),
            bgp_vrf_peers: vec![("default".to_string(), 1, 2)],
        },
        sync_units: vec![
            SyncUnit { label: "FRR config sync", service: "frr-config-sync.service", health: SyncHealth::Failed },
            SyncUnit { label: "Network config sync", service: "n.service", health: SyncHealth::Healthy },
            SyncUnit { label: "bootc image sync", service: "b.service", health: SyncHealth::TimerNotActive },
        ],
        bootc_status: Some("one\ntwo".to_string()),
    }
}

#[test]
fn plain_text_tells_everything() {
    assert_eq!(
        print_plain(&snapshot()),
        vec![
            "frr-bootc - router - now",
            "  Uptime: 0d 0h 0m",
            "",
            "System",
            "  Load average (1/5/15m): 0.00 0.00 0.00   (4 CPUs)",
            "  Memory: 1.5Ki used / 2.0Ki total (512B available)",
            "  Disk (/): 512B used / 1.0Ki total (50% used)",
            "",
            "Network Interfaces",
            "  eth0             UP        rx 120 bit/s / tx 125.0 Kbit/s",
            "                   192.0.2.1/24 fe80::1/64",
            "  a-very-long-interface DOWN      throughput: -",
            "",
            "FRR",
            "  frr.service: active",
            "  Active daemons: zebra bgpd",
            "  IPv4 RIB: 3 routes, 2 FIB",
            "  BGP peers (per VRF):",
            "    default              1/2 established",
            "",
            "Sync Services",
            "  FRR config sync          FAILED (see: journalctl -u frr-config-sync.service)",
            "  Network config sync      ok",
            "  bootc image sync         timer not active",
            "",
            "System Image (bootc)",
            "  one",
            "  two",
        ]
    );
}

#[test]
fn plain_text_leaves_out_what_is_not_known() {
    let mut s = snapshot();
    s.memory = None;
    s.disk = None;
    s.interfaces.clear();
    s.frr_service_active = false;
    s.sync_units.clear();
    s.bootc_status = None;
    assert_eq!(
        &print_plain(&s)[5..],
        [
            "  Memory: unknown",
            "  Disk (/): unknown",
            "",
            "Network Interfaces",
            "",
            "FRR",
            "  frr.service: inactive",
            "",
            "Sync Services",
            "",
        ]
    );
}
