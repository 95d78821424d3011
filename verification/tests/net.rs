use frr_bootc::net::{fmt_rate, interface_names, read_counter, Sample, ThroughputSampler};

const SECOND: u64 = 1_000_000_000;

#[test]
fn fmt_rate_picks_the_right_unit() {
    assert_eq!(fmt_rate(0), "0 bit/s");
    assert_eq!(fmt_rate(15), "120 bit/s");
    assert_eq!(fmt_rate(15_625), "125.0 Kbit/s");
    assert_eq!(fmt_rate(15_625_000), "125.0 Mbit/s");
    assert_eq!(fmt_rate(125_000_000), "1.0 Gbit/s");
}

/// The same in floating point.
fn fmt_rate_double(bytes_per_sec: u64) -> String {
    let bits = bytes_per_sec as f64 * 8.0;
    if bits >= 1_000_000_000.0 {
        format!("{:.1} Gbit/s", bits / 1_000_000_000.0)
    } else if bits >= 1_000_000.0 {
        format!("{:.1} Mbit/s", bits / 1_000_000.0)
    } else if bits >= 1_000.0 {
        format!("{:.1} Kbit/s", bits / 1_000.0)
    } else {
        format!("{bits:.0} bit/s")
    }
}

#[test]
fn fmt_rate_rounds_as_doubles_do() {
    let mut x: u64 = 1;
    for i in 0..20_000u64 {
        x = x.wrapping_mul(6364136223846793005).wrapping_add(1442695040888963407);
        let n = x >> (i % 64);
        assert_eq!(fmt_rate(n), fmt_rate_double(n), "{n}");
    }
    for n in [124, 125, 156, 124_999, 125_000, 124_999_999, 125_000_000, 131_250, 118_750, u64::MAX] {
        assert_eq!(fmt_rate(n), fmt_rate_double(n), "{n}");
    }
}

fn sample(rx: u64, tx: u64, at: u64) -> Option<Sample> {
    Some(Sample { rx, tx, at })
}

#[test]
fn the_first_sample_has_no_rate_and_the_second_has_one() {
    let mut net = ThroughputSampler::new();
    assert_eq!(net.sample_rate("eth0", sample(1000, 50, SECOND)), None);
    assert_eq!(
        net.sample_rate("eth0", sample(11_000, 150, 6 * SECOND)),
        Some((2000, 20))
    );
    assert_eq!(net.sample_rate("eth1", sample(1, 1, 6 * SECOND)), None);
}

#[test]
fn samples_less_than_a_second_apart_have_no_rate_but_are_remembered() {
    let mut net = ThroughputSampler::new();
    assert_eq!(net.sample_rate("eth0", sample(0, 0, 0)), None);
    assert_eq!(net.sample_rate("eth0", sample(500, 0, SECOND - 1)), None);
    assert_eq!(
        net.sample_rate("eth0", sample(1500, 0, 2 * SECOND - 1)),
        Some((1000, 0))
    );
}

#[test]
fn a_counter_that_was_reset_counts_as_no_traffic() {
    let mut net = ThroughputSampler::new();
    net.sample_rate("eth0", sample(1000, 1000, 0));
    assert_eq!(net.sample_rate("eth0", sample(10, 3000, 2 * SECOND)), Some((0, 1000)));
}

#[test]
fn counters_that_cannot_be_read_leave_the_memory_as_it_is() {
    let mut net = ThroughputSampler::new();
    net.sample_rate("eth0", sample(0, 0, 0));
    assert_eq!(net.sample_rate("eth0", None), None);
    assert_eq!(net.sample_rate("eth0", sample(400, 800, 4 * SECOND)), Some((100, 200)));
}

#[test]
fn rates_are_those_of_doubles() {
    let mut x: u64 = 7;
    for _ in 0..5_000 {
        x = x.wrapping_mul(6364136223846793005).wrapping_add(1442695040888963407);
        let bytes = x >> (x % 50);
        let nanos = SECOND + (x >> 20) % (100 * SECOND);
        let mut net = ThroughputSampler::new();
        net.sample_rate("e", sample(0, 0, 0));
        let secs = (nanos / SECOND) as f64 + (nanos % SECOND) as u32 as f64 / 1_000_000_000.0;
        let expected = (bytes as f64 / secs) as u64;
        assert_eq!(
            net.sample_rate("e", sample(bytes, 0, nanos)),
            Some((expected, 0)),
            "{bytes} in {nanos}"
        );
    }
}

const IP: &str = "lo               UNKNOWN        127.0.0.1/8 ::1/128 \n\
eth0             UP             192.0.2.1/24 fe80::1/64 \n\
\n\
eth1             DOWN           \n";

#[test]
fn interfaces_are_listed_without_the_loopback() {
    assert_eq!(interface_names(IP), vec!["eth0", "eth1"]);
    let mut net = ThroughputSampler::new();
    let counters = vec![sample(0, 0, 0), None];
    let list = net.list(IP, &counters);
    assert_eq!(list.len(), 2);
    assert_eq!(list[0].name, "eth0");
    assert!(list[0].up);
    assert_eq!(list[0].addrs, vec!["192.0.2.1/24", "fe80::1/64"]);
    assert_eq!(list[0].rate, None);
    assert_eq!(list[1].name, "eth1");
    assert!(!list[1].up);
    assert!(list[1].addrs.is_empty());

    let counters = vec![sample(10, 20, 2 * SECOND), sample(1, 1, 2 * SECOND)];
    let list = net.list(IP, &counters);
    assert_eq!(list[0].rate, Some((5, 10)));
    assert_eq!(list[1].rate, None);
}

#[test]
fn counters_are_trimmed_numbers() {
    assert_eq!(read_counter(&Some("12345\n".to_string())), Some(12345));
    assert_eq!(read_counter(&Some("+5".to_string())), Some(5));
    assert_eq!(read_counter(&Some("x".to_string())), None);
    assert_eq!(read_counter(&Some("".to_string())), None);
    assert_eq!(read_counter(&Some("18446744073709551615".to_string())), Some(u64::MAX));
    assert_eq!(read_counter(&Some("18446744073709551616".to_string())), None);
    assert_eq!(read_counter(&None), None);
}
