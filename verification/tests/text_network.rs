use dgxtop::cpu::PowerEnergyCounter;
use dgxtop::network::{
    interface_sort_key, is_tracked_interface, operstate_is_up, order_interfaces, parse_speed,
    NetworkCollector, NetworkDelta, NetworkRawCounters,
};
use dgxtop::order::{sort_by_key, str_le};
use dgxtop::text::{
    chars_of, decimal_chars, equal_ignoring_ascii_case, has_prefix, has_substring, parse_u32,
    parse_u64, split_fields, split_lines, string_from_chars, to_ascii_lowercase, trim_chars,
    trimmed_u64,
};

fn cs(s: &str) -> Vec<char> {
    s.chars().collect()
}

#[test]
fn text_helpers() {
    assert_eq!(chars_of("héllo"), cs("héllo"));
    assert_eq!(string_from_chars(&cs("abc")), "abc");
    assert_eq!(trim_chars(&cs(" \t x y \n")), cs("x y"));
    assert_eq!(split_fields(&cs("  a bb\tccc  ")), vec![cs("a"), cs("bb"), cs("ccc")]);
    assert!(split_fields(&cs("   ")).is_empty());
    assert_eq!(split_lines(&cs("a\r\nb\n\nc")), vec![cs("a"), cs("b"), cs(""), cs("c")]);
    assert_eq!(split_lines(&cs("a\n")), vec![cs("a")]);
    assert_eq!(parse_u64(&cs("18446744073709551615")), Some(u64::MAX));
    assert_eq!(parse_u64(&cs("18446744073709551616")), None);
    assert_eq!(parse_u64(&cs("+7")), Some(7));
    assert_eq!(parse_u64(&cs("")), None);
    assert_eq!(parse_u64(&cs("1 2")), None);
    assert_eq!(parse_u32(&cs("4294967296")), None);
    assert_eq!(decimal_chars(0), cs("0"));
    assert_eq!(decimal_chars(9040), cs("9040"));
    assert!(has_prefix(&cs("nvme0n1"), &cs("nvme")));
    assert!(!has_prefix(&cs("nv"), &cs("nvme")));
    assert!(has_substring(&cs("x86_pkg_temp"), &cs("pkg")));
    assert!(has_substring(&cs("abc"), &cs("")));
    assert_eq!(to_ascii_lowercase(&cs("GH200 É")), cs("gh200 É"));
    assert!(equal_ignoring_ascii_case(&cs("CPU_e"), &cs("cpu_E")));
    assert_eq!(trimmed_u64(" 42\n"), Some(42));
    assert_eq!(trimmed_u64("x"), None);
}

#[test]
fn string_order_and_sorting() {
    assert!(str_le("abc", "abd"));
    assert!(str_le("ab", "abc"));
    assert!(str_le("", ""));
    assert!(!str_le("b", "abc"));
    let sorted = sort_by_key(vec!["eth1".to_owned(), "eth0".to_owned(), "bond0".to_owned()]);
    assert_eq!(sorted, vec!["bond0".to_owned(), "eth0".to_owned(), "eth1".to_owned()]);
}

#[test]
fn interfaces_in_display_order() {
    assert!(is_tracked_interface("enP7s7"));
    assert!(!is_tracked_interface("lo"));
    assert!(!is_tracked_interface("docker0"));
    assert!(!is_tracked_interface("veth12ab"));
    assert_eq!(interface_sort_key("wlan0"), (0, "wlan0".to_owned()));
    assert_eq!(interface_sort_key("ibp1s0"), (2, "ibp1s0".to_owned()));
    let names: Vec<String> =
        ["ib0", "eth1", "wlp2s0", "bond0", "eth0"].iter().map(|s| s.to_string()).collect();
    let order: Vec<(String, usize)> =
        order_interfaces(&names).into_iter().map(|k| (k.name, k.position)).collect();
    assert_eq!(
        order,
        vec![
            ("wlp2s0".to_owned(), 2),
            ("eth0".to_owned(), 4),
            ("eth1".to_owned(), 1),
            ("ib0".to_owned(), 0),
            ("bond0".to_owned(), 3),
        ]
    );
}

#[test]
fn interface_state_and_speed() {
    assert!(operstate_is_up("up\n"));
    assert!(!operstate_is_up("down\n"));
    assert!(!operstate_is_up("unknown"));
    assert_eq!(parse_speed("10000\n"), Some(10000));
    assert_eq!(parse_speed("-1\n"), None);
    assert_eq!(parse_speed("0"), None);
    assert_eq!(parse_speed("9223372036854775808"), None);
    assert_eq!(parse_speed("garbage"), None);
}

fn net(name: &str, rx: u64, tx: u64) -> NetworkRawCounters {
    NetworkRawCounters {
        name: name.to_owned(),
        rx_bytes: rx,
        tx_bytes: tx,
        rx_packets: rx / 100,
        tx_packets: tx / 100,
        rx_errors: 0,
        tx_errors: 0,
        rx_dropped: 0,
        tx_dropped: 0,
    }
}

#[test]
fn network_collector_deltas() {
    let mut c = NetworkCollector::new();
    assert_eq!(c.advance(vec![net("eth0", 1000, 2000)], std::time::Instant::now()), vec![None]);
    let d = c.advance(vec![net("wlan0", 5, 5), net("eth0", 1500, 1000)], std::time::Instant::now());
    assert_eq!(
        d,
        vec![
            None,
            Some(NetworkDelta { rx_bytes: 500, tx_bytes: 0, rx_packets: 5, tx_packets: 0 })
        ]
    );
}

#[test]
fn sorting_keeps_order_of_equal_keys() {
    let c = |key: &str, energy: u64| PowerEnergyCounter {
        key: key.to_owned(),
        energy_uj: energy,
        max_energy_range_uj: 0,
    };
    let sorted = sort_by_key(vec![c("b", 1), c("a", 2), c("b", 3), c("a", 4)]);
    let got: Vec<(String, u64)> = sorted.into_iter().map(|p| (p.key, p.energy_uj)).collect();
    assert_eq!(
        got,
        vec![
            ("a".to_owned(), 2),
            ("a".to_owned(), 4),
            ("b".to_owned(), 1),
            ("b".to_owned(), 3)
        ]
    );
}
