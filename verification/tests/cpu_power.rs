use dgxtop::cpu::{
    energy_delta_uj, parse_cpu_line, parse_proc_stat_content, proc_stat_total_fits, time_deltas,
    total_energy_delta, usage_delta, CpuCollector, CpuTimeSample, PowerEnergyCounter,
};
use dgxtop::error::DgxTopError;
use dgxtop::power::{
    best_ranked_domains, hwmon_label_matches, is_cpu_hwmon_name, is_cpu_power_label,
    parse_power_metric_filename, powercap_domain_rank, select_hwmon_power,
    select_spark_hwmon_power, sum_readings, HwmonPowerCandidate, HwmonPowerMetricKind,
    RankedDomain,
};

#[test]
fn powercap_domain_rank_prefers_package_domains() {
    assert_eq!(powercap_domain_rank("package-0"), Some(0));
    assert_eq!(powercap_domain_rank("socket-1"), Some(0));
    assert_eq!(powercap_domain_rank("psys"), Some(1));
    assert_eq!(powercap_domain_rank("dram"), None);
}

#[test]
fn energy_delta_handles_counter_wrap() {
    assert_eq!(energy_delta_uj(100, 160, 200), 60);
    assert_eq!(energy_delta_uj(180, 20, 200), 40);
}

#[test]
fn parse_power_metric_filename_accepts_supported_hwmon_metrics() {
    assert_eq!(
        parse_power_metric_filename("power1_average"),
        Some((1, HwmonPowerMetricKind::Average))
    );
    assert_eq!(
        parse_power_metric_filename("power2_input"),
        Some((2, HwmonPowerMetricKind::Input))
    );
    assert_eq!(parse_power_metric_filename("power1_label"), None);
}

fn candidate(index: u32, microwatts: u64, label: &str) -> HwmonPowerCandidate {
    HwmonPowerCandidate {
        index,
        kind: HwmonPowerMetricKind::Input,
        microwatts,
        label: Some(label.to_owned()),
    }
}

#[test]
fn spark_hwmon_prefers_cpu_clusters_only() {
    let microwatts = select_hwmon_power(
        "spbm-acpi-0",
        &[
            candidate(1, 17_000_000, "soc_pkg"),
            candidate(2, 6_000_000, "cpu_gpu"),
            candidate(3, 8_500_000, "cpu_p"),
            candidate(4, 1_200_000, "cpu_e"),
        ],
    );

    let watts = microwatts.expect("expected Spark CPU power") as f64 / 1e6;
    assert!((watts - 9.7).abs() < 1e-9);
}

#[test]
fn hwmon_falls_back_to_cpu_labels_then_chip_name() {
    // No Grace clusters: the CPU-labelled readings are summed.
    let labelled = [candidate(1, 5_000_000, "Package"), candidate(2, 3_000_000, "gpu")];
    assert_eq!(select_hwmon_power("acpi", &labelled), Some(5_000_000));
    assert_eq!(select_spark_hwmon_power(&labelled), None);
    // No CPU label at all: a CPU sensor chip gives its first reading.
    let unlabelled = [
        HwmonPowerCandidate {
            index: 1,
            kind: HwmonPowerMetricKind::Average,
            microwatts: 42,
            label: None,
        },
        HwmonPowerCandidate {
            index: 2,
            kind: HwmonPowerMetricKind::Input,
            microwatts: 7,
            label: None,
        },
    ];
    assert_eq!(select_hwmon_power("zenpower", &unlabelled), Some(42));
    assert_eq!(select_hwmon_power("nvme", &unlabelled), None);
    assert_eq!(select_hwmon_power("k10temp", &[]), None);
}

#[test]
fn power_names_and_labels() {
    assert_eq!(powercap_domain_rank("  Intel-RAPL-Platform "), Some(1));
    assert_eq!(powercap_domain_rank("die-0"), Some(0));
    assert_eq!(powercap_domain_rank("core"), None);
    assert!(is_cpu_power_label(" SoC "));
    assert!(!is_cpu_power_label("gpu"));
    assert!(is_cpu_hwmon_name("coretemp"));
    assert!(!is_cpu_hwmon_name("nvme"));
    assert!(hwmon_label_matches("  CPU_P\n", "cpu_p"));
    assert!(!hwmon_label_matches("cpu_pe", "cpu_p"));
    assert_eq!(parse_power_metric_filename("power10_input"), Some((10, HwmonPowerMetricKind::Input)));
    assert_eq!(parse_power_metric_filename("power_input"), None);
    assert_eq!(parse_power_metric_filename("temp1_input"), None);
}

#[test]
fn energy_delta_after_unexplained_drop_is_new_reading() {
    assert_eq!(energy_delta_uj(500, 20, 200), 20);
    assert_eq!(energy_delta_uj(7, 7, 0), 0);
}

#[test]
fn sum_readings_skips_missing_values() {
    assert_eq!(sum_readings(&[]), None);
    assert_eq!(sum_readings(&[None, None]), None);
    assert_eq!(sum_readings(&[Some(3), None, Some(4)]), Some(7));
    assert_eq!(sum_readings(&[Some(u64::MAX), Some(1)]), Some(u64::MAX));
}

#[test]
fn best_ranked_domains_keeps_best_rank_sorted() {
    let ranked = vec![
        RankedDomain { rank: 1, path: "/sys/psys".to_owned() },
        RankedDomain { rank: 0, path: "/sys/rapl:1".to_owned() },
        RankedDomain { rank: 0, path: "/sys/rapl:0".to_owned() },
    ];
    assert_eq!(
        best_ranked_domains(ranked),
        vec!["/sys/rapl:0".to_owned(), "/sys/rapl:1".to_owned()]
    );
    assert_eq!(best_ranked_domains(Vec::new()), Vec::<String>::new());
}

#[test]
fn parse_cpu_line_reads_counters() {
    let s = parse_cpu_line("cpu  10 20 30 40 50 60 70 80 90 100").unwrap();
    assert_eq!(
        s,
        CpuTimeSample {
            user: 10,
            nice: 20,
            system: 30,
            idle: 40,
            iowait: 50,
            irq: 60,
            softirq: 70,
            steal: 80
        }
    );
    assert_eq!(s.total(), 360);
    assert_eq!(s.active(), 270);
    // Without a steal column the steal counter is 0.
    let t = parse_cpu_line("cpu0 1 2 3 4 5 6 7").unwrap();
    assert_eq!(t.steal, 0);
    assert_eq!(t.total(), 28);
}

#[test]
fn parse_cpu_line_errors() {
    match parse_cpu_line("cpu 1 2 3") {
        Err(DgxTopError::Parse { field, message }) => {
            assert_eq!(field, "cpu");
            assert_eq!(message, "expected at least 8 fields, got 4");
        }
        _ => panic!("expected a parse error"),
    }
    match parse_cpu_line("cpu 1 2 x 4 5 6 7") {
        Err(DgxTopError::Parse { field, message }) => {
            assert_eq!(field, "system");
            assert_eq!(message, "invalid value: x");
        }
        _ => panic!("expected a parse error"),
    }
}

#[test]
fn parse_proc_stat_reads_total_and_cores() {
    let text = "cpu  4 0 4 8 0 0 0 0\ncpu0 1 0 1 2 0 0 0 0\ncpu1 3 0 3 6 0 0 0 0\nintr 5\n";
    let (total, cores) = parse_proc_stat_content(text).unwrap();
    assert_eq!(total.user, 4);
    assert_eq!(cores.len(), 2);
    assert_eq!(cores[1].idle, 6);
    assert!(parse_proc_stat_content("cpu0 1 2\n").is_err());
    let (empty_total, no_cores) = parse_proc_stat_content("").unwrap();
    assert_eq!(empty_total, CpuTimeSample::default());
    assert!(no_cores.is_empty());
}

#[test]
fn deltas_between_samples() {
    let prev = parse_cpu_line("cpu 10 0 10 80 0 0 0 0").unwrap();
    let curr = parse_cpu_line("cpu 20 5 15 100 2 0 0 0").unwrap();
    let u = usage_delta(&prev, &curr);
    assert_eq!(u.total, 42);
    assert_eq!(u.active, 20);
    let d = time_deltas(&prev, &curr);
    assert_eq!(d.user, 15);
    assert_eq!(d.system, 5);
    assert_eq!(d.iowait, 2);
    assert_eq!(d.idle, 20);
    // A counter that went backwards gives 0, not a wrap.
    let back = usage_delta(&curr, &prev);
    assert_eq!(back.total, 0);
}

#[test]
fn cpu_collector_first_reading_is_baseline() {
    let mut c = CpuCollector::new();
    let first = parse_cpu_line("cpu 10 0 10 80 0 0 0 0").unwrap();
    let d1 = c.advance(first, vec![first], std::time::Instant::now());
    assert!(d1.overall.is_none());
    assert_eq!(d1.cores, vec![None]);
    let second = parse_cpu_line("cpu 20 0 20 160 0 0 0 0").unwrap();
    let d2 = c.advance(second, vec![second, second], std::time::Instant::now());
    let overall = d2.overall.unwrap();
    assert_eq!(overall.usage.total, 100);
    assert_eq!(overall.usage.active, 20);
    assert_eq!(d2.cores.len(), 2);
    assert_eq!(d2.cores[0].unwrap().total, 100);
    assert!(d2.cores[1].is_none());
}

fn counter(key: &str, energy: u64, max: u64) -> PowerEnergyCounter {
    PowerEnergyCounter { key: key.to_owned(), energy_uj: energy, max_energy_range_uj: max }
}

#[test]
fn energy_since_last_matches_counters_by_key() {
    let mut c = CpuCollector::new();
    assert_eq!(c.energy_since_last(vec![counter("a", 100, 1000), counter("b", 50, 1000)]), None);
    assert_eq!(c.energy_since_last(Vec::new()), None);
    assert_eq!(
        c.energy_since_last(vec![counter("b", 70, 1000), counter("a", 90, 1000), counter("c", 1, 9)]),
        // b: 20; a wrapped: 1000 - 100 + 90 = 990; c is new.
        Some(1010)
    );
    let prev = vec![counter("x", 5, 0)];
    let curr = vec![counter("y", 9, 0)];
    assert_eq!(total_energy_delta(&prev, &curr), None);
}

#[test]
fn failed_proc_stat_reading_leaves_collector_as_it_was() {
    let mut c = CpuCollector::new();
    let t0 = std::time::Instant::now();
    assert!(c.read_proc_stat("cpu  10 0 10 80 0 0 0 0\ncpu0 10 0 10 80 0 0 0 0\n", t0).is_ok());
    let t1 = std::time::Instant::now();
    match c.read_proc_stat("cpu  1 2 x 4 5 6 7\n", t1) {
        Err(DgxTopError::Parse { field, message }) => {
            assert_eq!(field, "system");
            assert_eq!(message, "invalid value: x");
        }
        _ => panic!("expected a parse error"),
    }
    assert_eq!(c.prev_time(), t0);
    // The next reading is compared with the one before the failed one.
    let d = c
        .read_proc_stat("cpu  20 0 20 160 0 0 0 0\ncpu0 20 0 20 160 0 0 0 0\n", t1)
        .unwrap();
    let overall = d.overall.unwrap();
    assert_eq!(overall.usage.total, 100);
    assert_eq!(overall.usage.active, 20);
    assert_eq!(d.cores[0].unwrap().total, 100);
    assert!(proc_stat_total_fits("cpu 1 2 3 4 5 6 7"));
    assert!(!proc_stat_total_fits("cpu 18446744073709551615 1 3 4 5 6 7"));
    assert!(proc_stat_total_fits("garbage\ncpu x"));
}
