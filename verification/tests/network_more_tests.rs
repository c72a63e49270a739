use netspeed::network::{
    counter_step, default_interface, format_bytes, get_interface_stats, interface_status_from_sys, list_interfaces,
    parse_dev_str, traffic_delta, InterfaceStats, InterfaceStatus, NetError,
};

const DEV: &str = "\
Inter-|   Receive                                                |  Transmit
 face |bytes    packets errs drop fifo frame compressed multicast|bytes    packets errs drop fifo colls carrier compressed
    lo:  1234567      8900    0    0    0     0          0         0  1234567      8900    0    0    0     0       0          0
  eth0: 987654321   54321    0    0    0     0          0         0 123456789  12345    0    0    0     0       0          0
 wlan0:    123456    1234    0    0    0     0          0         0    654321    5678    0    0    0     0       0          0
";

/// The count divided by its unit as an `f64`, written with `{:.1}`/`{:.2}`:
/// the text that `format_bytes` promises to reproduce without floating point.
fn float_text(bytes: u64) -> String {
    const KB: u64 = 1_024;
    const MB: u64 = 1_024 * KB;
    const GB: u64 = 1_024 * MB;
    if bytes < KB {
        format!("{} B", bytes)
    } else if bytes < MB {
        format!("{:.1} KB", bytes as f64 / KB as f64)
    } else if bytes < GB {
        format!("{:.2} MB", bytes as f64 / MB as f64)
    } else {
        format!("{:.2} GB", bytes as f64 / GB as f64)
    }
}

#[test]
fn format_bytes_agrees_with_float_formatting() {
    let mut samples: Vec<u64> = vec![
        0, 1, 1023, 1024, 1280, 1536, 1_048_575, 1_048_576, 1_073_741_823, 1_073_741_824,
        1_326_528_512, 5_368_709, 9_007_199_254_740_993, 9_007_199_254_740_995,
        18_014_398_509_481_987, u64::MAX, u64::MAX - 1, 1 << 63,
    ];
    // ties of the one- and two-decimal roundings
    for k in 0..200u64 {
        samples.push((1024 * (5 * k + 12) + 512) / 10);
        samples.push(1_048_576 + 5_243 * k);
        samples.push(1_073_741_824 + 5_368_709 * k * 7919);
    }
    let mut x: u64 = 0x9E37_79B9_7F4A_7C15;
    for _ in 0..20_000 {
        x ^= x << 13;
        x ^= x >> 7;
        x ^= x << 17;
        samples.push(x >> (x % 64));
    }
    for b in samples {
        assert_eq!(format_bytes(b), float_text(b), "{}", b);
    }
}

#[test]
fn stats_lookup_finds_the_named_interface() {
    let s = get_interface_stats(DEV, "wlan0").ok().unwrap();
    assert_eq!((s.name.as_str(), s.rx_bytes, s.tx_bytes), ("wlan0", 123_456, 654_321));
    match get_interface_stats(DEV, "tun0") {
        Err(e @ NetError::InterfaceNotFound(_)) => {
            assert_eq!(e.message(), "Interface 'tun0' not found in /proc/net/dev")
        }
        Ok(_) => panic!("tun0 is not listed"),
    }
}

#[test]
fn interface_list_leaves_out_loopback_and_keeps_order() {
    assert_eq!(list_interfaces(DEV), vec!["eth0".to_string(), "wlan0".to_string()]);
    assert!(list_interfaces("").is_empty());
}

#[test]
fn dev_lines_in_crlf_files_and_signed_fields() {
    let content = "h1\r\nh2\r\n x: +1 2 3 4 5 6 7 8 -9 10\r\n y: 1 2\r\n";
    let stats = parse_dev_str(content);
    // "-9" does not read as a number, so the ninth field is 10
    assert_eq!(stats.len(), 1);
    assert_eq!((stats[0].name.as_str(), stats[0].rx_bytes, stats[0].tx_bytes), ("x", 1, 10));
}

#[test]
fn link_state_from_sys_files() {
    assert_eq!(interface_status_from_sys("up\n", Some("1\n")), InterfaceStatus::Up);
    assert_eq!(interface_status_from_sys("up\n", Some(" 0\n")), InterfaceStatus::NoCarrier);
    assert_eq!(interface_status_from_sys("down\n", None), InterfaceStatus::Down);
    assert_eq!(interface_status_from_sys("down\n", Some("0")), InterfaceStatus::NoCarrier);
    assert_eq!(
        interface_status_from_sys(" dormant \n", Some("1")),
        InterfaceStatus::Unknown("dormant".to_string())
    );
}

#[test]
fn status_words() {
    let all = [
        InterfaceStatus::Up,
        InterfaceStatus::NoCarrier,
        InterfaceStatus::Down,
        InterfaceStatus::Unknown("x".to_string()),
    ];
    let labels: Vec<&str> = all.iter().map(|s| s.label()).collect();
    assert_eq!(labels, vec!["up", "no carrier", "down", "unknown"]);
    let descriptions: Vec<&str> = all.iter().map(|s| s.description()).collect();
    assert_eq!(descriptions, vec!["is up", "has no carrier", "is down", "status is unknown"]);
    let usable: Vec<bool> = all.iter().map(|s| s.is_usable()).collect();
    assert_eq!(usable, vec![true, false, false, false]);
}

#[test]
fn traffic_delta_saturates_on_counter_reset() {
    let a = InterfaceStats { name: "eth0".into(), rx_bytes: 100, tx_bytes: 50 };
    let b = InterfaceStats { name: "eth0".into(), rx_bytes: 150, tx_bytes: 10 };
    assert_eq!(traffic_delta(&a, &b), (50, 0));
}

#[test]
fn counter_steps_need_two_readings() {
    let a = InterfaceStats { name: "eth0".into(), rx_bytes: 100, tx_bytes: 50 };
    let b = InterfaceStats { name: "eth0".into(), rx_bytes: 400, tx_bytes: 90 };
    let (moved, next) = counter_step(None, Some(a.clone()));
    assert_eq!(moved, None);
    let (moved, next) = counter_step(next, Some(b));
    assert_eq!(moved, Some((300, 40)));
    let (moved, next) = counter_step(next, None);
    assert_eq!(moved, None);
    assert!(next.is_none());
}

#[test]
fn default_interface_prefers_the_default_route() {
    let route = "Iface\tDestination\nwlan0\t00000000\n";
    assert_eq!(default_interface(route, DEV), Some("wlan0".to_string()));
    assert_eq!(default_interface(route, ""), Some("wlan0".to_string()));
    let no_default = "Iface\tDestination\neth0\t0001A8C0\n";
    assert_eq!(default_interface(no_default, DEV), Some("eth0".to_string()));
    let only_lo = "h1\nh2\n lo: 1 2 3 4 5 6 7 8 9\n";
    assert_eq!(default_interface(no_default, only_lo), None);
}
