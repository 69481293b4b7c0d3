use dgxtop::gpu::GpuProcessType;
use dgxtop::process::{
    add_gpu_processes, assign_utilization, first_kb_bytes, first_kb_value_fits,
    gpu_memory_per_pid, gpu_memory_total_fits, normalize_cmdline, process_cpu_ticks,
    stat_text_ok, status_uids, total_gpu_memory, trim_text, ProcessCpuTracker, ProcessEntry,
    ProcessMemory, UtilizationSample,
};
use dgxtop::table::{
    filtered_pids, filtered_rows, lowered_process_matches, process_matches_filter, truncate_str,
    ProcessIdentity,
};

fn mem(pid: u32, used: Option<u64>) -> ProcessMemory {
    ProcessMemory { pid, used_bytes: used }
}

#[test]
fn gpu_memory_per_pid_merges_compute_and_graphics() {
    let compute = [mem(1, Some(100)), mem(2, None), mem(1, Some(150))];
    let graphics = [mem(2, Some(30)), mem(1, Some(120)), mem(3, Some(7))];
    let usage = gpu_memory_per_pid(&compute, &graphics);
    assert_eq!(usage, vec![(1, 150), (2, 30), (3, 7)]);
    assert!(gpu_memory_total_fits(&usage));
    assert_eq!(total_gpu_memory(&usage), 187);
    assert!(!gpu_memory_total_fits(&[(1, u64::MAX), (2, 1)]));
}

#[test]
fn process_entries_mark_both_kinds() {
    let mut entries = Vec::new();
    add_gpu_processes(&mut entries, 0, &[mem(10, Some(5))], &[mem(10, Some(9)), mem(11, None)]);
    assert_eq!(entries.len(), 2);
    assert_eq!(entries[0].process_type, GpuProcessType::ComputeAndGraphics);
    assert_eq!(entries[0].gpu_memory_bytes, 5);
    assert_eq!(entries[1].process_type, GpuProcessType::Graphics);
    assert_eq!(entries[1].gpu_memory_bytes, 0);
    add_gpu_processes(&mut entries, 1, &[mem(10, Some(1))], &[]);
    assert_eq!(entries.len(), 3);
    assert_eq!(entries[2].gpu_index, 1);
    assert_eq!(entries[2].process_type, GpuProcessType::Compute);
}

#[test]
fn utilization_goes_to_matching_process() {
    let entries = vec![
        ProcessEntry { gpu_index: 0, pid: 5, gpu_memory_bytes: 0, process_type: GpuProcessType::Compute },
        ProcessEntry { gpu_index: 1, pid: 5, gpu_memory_bytes: 0, process_type: GpuProcessType::Compute },
    ];
    let samples = [
        UtilizationSample { gpu_index: 1, pid: 5, sm_util: 40 },
        UtilizationSample { gpu_index: 1, pid: 5, sm_util: 60 },
        UtilizationSample { gpu_index: 2, pid: 5, sm_util: 99 },
    ];
    assert_eq!(assign_utilization(&entries, &samples), vec![None, Some(60)]);
}

#[test]
fn cpu_tracker_reports_time_between_readings() {
    let mut t = ProcessCpuTracker::new();
    assert_eq!(t.observe(7, 100, 1000), None);
    assert_eq!(t.observe(7, 130, 1100), Some((30, 100)));
    assert_eq!(t.observe(7, 140, 1100), None);
    t.retain_active(&[8]);
    assert_eq!(t.observe(7, 150, 1200), None);
}

#[test]
fn proc_file_parsers() {
    let stat = "1234 (my (odd) prog) S 1 2 3 4 5 6 7 8 9 10 111 222 0 0";
    assert!(stat_text_ok(stat));
    assert_eq!(process_cpu_ticks(stat), Some(333));
    assert_eq!(process_cpu_ticks("1 (x) S 1 2"), None);
    assert_eq!(process_cpu_ticks("no paren"), None);
    let status = "Name:\tpython\nUid:\t1000\t1000\t1000\t1000\nVmRSS:\t  2048 kB\n";
    assert_eq!(status_uids(status), vec![1000]);
    assert!(first_kb_value_fits(status, "VmRSS:"));
    assert_eq!(first_kb_bytes(status, "VmRSS:"), Some(2048 * 1024));
    assert_eq!(first_kb_bytes(status, "VmSwap:"), None);
    assert_eq!(normalize_cmdline("python\0train.py\0--epochs\05\0"), "python train.py --epochs 5");
    assert_eq!(trim_text("  host-1\n"), "host-1");
}

fn ident(pid: u32, user: &str, command: &str) -> ProcessIdentity {
    ProcessIdentity { pid, user: user.to_owned(), command: command.to_owned() }
}

#[test]
fn process_filter_matches_command_user_or_pid() {
    assert!(process_matches_filter(42, "alice", "python train.py", ""));
    assert!(process_matches_filter(42, "alice", "Python train.py", "PYTH"));
    assert!(process_matches_filter(42, "Alice", "x", "ali"));
    assert!(process_matches_filter(4242, "bob", "x", "24"));
    assert!(!process_matches_filter(42, "bob", "x", "zzz"));
    let procs = [ident(1, "root", "Xorg"), ident(2, "alice", "python"), ident(3, "bob", "PYTHON3")];
    assert_eq!(filtered_rows(&procs, "python"), vec![1, 2]);
    assert_eq!(filtered_pids(&procs, "python"), vec![2, 3]);
    assert_eq!(filtered_pids(&procs, ""), vec![1, 2, 3]);
}

#[test]
fn truncation_of_cells() {
    assert_eq!(truncate_str("hello", 10), "hello");
    assert_eq!(truncate_str("hello", 5), "hello");
    assert_eq!(truncate_str("hello world", 5), "hell…");
    assert_eq!(truncate_str("hello", 0), "");
    assert_eq!(truncate_str("héllo", 2), "h…");
}

#[test]
fn lowered_filter_matching() {
    assert!(lowered_process_matches(7, "alice", "python train.py", "train"));
    assert!(lowered_process_matches(7, "alice", "python", "lic"));
    assert!(lowered_process_matches(1234, "bob", "x", "23"));
    // The text is compared as given: nothing is lower-cased here.
    assert!(!lowered_process_matches(7, "alice", "python", "PY"));
}
