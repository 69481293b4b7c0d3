use dgxtop::gpu::{
    cuda_version_string, memory_type_label, peer_gpu, shared_memory_figures,
    unified_memory_bandwidth_decigbps,
    GpuProcessType, NvLinkStats,
};
use dgxtop::memory::{meminfo_values_fit, parse_kb_value, parse_meminfo, MemoryCollector, MemoryStats};
use dgxtop::system::{
    clamp_history_length, is_cpu_thermal_zone, kernel_version_from, names_cpu_zone, os_name_from,
    parse_task_counts, SystemInfo,
};

fn info(uptime: u64) -> SystemInfo {
    SystemInfo {
        hostname: "spark".to_owned(),
        kernel_version: "6.8.0".to_owned(),
        os_name: "Ubuntu".to_owned(),
        architecture: "aarch64".to_owned(),
        uptime_seconds: uptime,
        gpu_driver_version: None,
        cuda_version: None,
        gpu_count: 1,
    }
}

#[test]
fn uptime_display_formats() {
    assert_eq!(info(0).uptime_display(), "0m");
    assert_eq!(info(59).uptime_display(), "0m");
    assert_eq!(info(3 * 3600 + 7 * 60).uptime_display(), "3h 7m");
    assert_eq!(info(2 * 86400 + 60).uptime_display(), "2d 0h 1m");
}

#[test]
fn system_text_readers() {
    assert_eq!(
        kernel_version_from("Linux version 6.8.0-1015-nvidia (build@host) #1 SMP").as_deref(),
        Some("6.8.0-1015-nvidia")
    );
    assert_eq!(kernel_version_from("Linux version"), None);
    let os = "NAME=\"Ubuntu\"\nPRETTY_NAME=\"Ubuntu 24.04 LTS\"\nID=ubuntu\n";
    assert_eq!(os_name_from(os).as_deref(), Some("Ubuntu 24.04 LTS"));
    assert_eq!(os_name_from("NAME=x\n"), None);
    assert_eq!(parse_task_counts("0.50 0.40 0.30 3/512 12345\n"), (3, 512));
    assert_eq!(parse_task_counts("0.50 0.40 0.30"), (0, 0));
    assert_eq!(parse_task_counts("0.5 0.4 0.3 x/9 1"), (0, 9));
    assert!(is_cpu_thermal_zone("x86_pkg_temp"));
    assert!(is_cpu_thermal_zone(" CPU-therm\n"));
    assert!(!is_cpu_thermal_zone("gpu-therm"));
    assert_eq!(clamp_history_length(3), 10);
    assert_eq!(clamp_history_length(300), 300);
    assert_eq!(clamp_history_length(50_000), 10_000);
}

#[test]
fn meminfo_parsing() {
    let text = "MemTotal:       16000 kB\nMemFree:         4000 kB\nMemAvailable:    9000 kB\n\
Buffers:          500 kB\nCached:          2500 kB\nSwapCached:         1 kB\n\
SwapTotal:       2000 kB\nSwapFree:        1500 kB\n";
    assert!(meminfo_values_fit(text));
    let m = parse_meminfo(text);
    assert_eq!(
        m,
        MemoryStats {
            total_bytes: 16000 * 1024,
            used_bytes: 9000 * 1024,
            free_bytes: 4000 * 1024,
            available_bytes: 9000 * 1024,
            buffers_bytes: 500 * 1024,
            cached_bytes: 2500 * 1024,
            swap_total_bytes: 2000 * 1024,
            swap_used_bytes: 500 * 1024,
            swap_free_bytes: 1500 * 1024,
        }
    );
    assert!(m.used_bytes <= m.total_bytes);
    assert_eq!(parse_kb_value("MemTotal: 1 kB"), Some(1024));
    assert_eq!(parse_kb_value("MemTotal:"), None);
    assert!(!meminfo_values_fit("MemTotal: 18446744073709551615 kB\n"));
    let empty = parse_meminfo("");
    assert_eq!(empty.total_bytes, 0);
    let _ = MemoryCollector::new();
}

#[test]
fn gpu_descriptions() {
    assert_eq!(GpuProcessType::Compute.label(), "Compute");
    assert_eq!(GpuProcessType::ComputeAndGraphics.to_string(), "C+G");
    assert_eq!(memory_type_label("NVIDIA H100", false), "GDDR/HBM");
    assert_eq!(memory_type_label("NVIDIA GB10", true), "LPDDR5X (Unified)");
    assert_eq!(memory_type_label("Orin", true), "LPDDR5 (Unified)");
    assert_eq!(memory_type_label("Mystery", true), "Unified Memory");
    assert_eq!(unified_memory_bandwidth_decigbps("NVIDIA GB10"), Some(2730));
    assert_eq!(unified_memory_bandwidth_decigbps("NVIDIA Grace Hopper"), Some(5460));
    assert_eq!(unified_memory_bandwidth_decigbps("Jetson AGX Xavier"), Some(1365));
    assert_eq!(unified_memory_bandwidth_decigbps("Xavier NX"), None);
    assert_eq!(unified_memory_bandwidth_decigbps("RTX 4090"), None);
    assert_eq!(cuda_version_string(12040), "12.4");
    assert_eq!(cuda_version_string(11080), "11.8");
    assert_eq!(cuda_version_string(-1500), "-1.-50");
    let link = NvLinkStats {
        gpu_index: 0,
        link_index: 1,
        is_active: true,
        tx_bytes_per_sec: 10,
        rx_bytes_per_sec: 20,
        remote_gpu_index: Some(1),
    };
    assert_eq!(link.clone(), link);
}

#[test]
fn nvlink_peer_is_found_by_bus_id() {
    let ids = vec![
        Some("00000000:07:00.0".to_owned()),
        None,
        Some("00000000:0F:00.0".to_owned()),
        Some("00000000:07:00.0".to_owned()),
    ];
    assert_eq!(peer_gpu(1, "00000000:0F:00.0", &ids), Some(2));
    // A GPU is never its own peer; the next GPU with the id is.
    assert_eq!(peer_gpu(0, "00000000:07:00.0", &ids), Some(3));
    assert_eq!(peer_gpu(3, "00000000:07:00.0", &ids), Some(0));
    assert_eq!(peer_gpu(0, "00000000:AA:00.0", &ids), None);
}

#[test]
fn shared_memory_uses_system_ram() {
    assert_eq!(shared_memory_figures(Some(1000), 300), (300, 1000, 700));
    assert_eq!(shared_memory_figures(Some(100), 300), (300, 100, 0));
    assert_eq!(shared_memory_figures(None, 5), (5, 0, 0));
}

#[test]
fn lowered_zone_names() {
    assert!(names_cpu_zone("cpu-thermal"));
    assert!(names_cpu_zone("soc_dram"));
    assert!(!names_cpu_zone("CPU-therm"));
    assert!(!names_cpu_zone("gpu-thermal"));
}
