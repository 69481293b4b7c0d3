use dgxtop::disk::{
    block_total_bytes, capacity_from_statvfs, collect_capacities, decode_mountinfo_path,
    is_tracked_device, mountinfo_escapes_fit, parse_diskstats_content, parse_mountinfo_line,
    record_mount, saturating_mul, unescape_mountinfo_bytes, DiskCapacity, DiskCollector,
};

#[test]
fn decodes_mountinfo_octal_escapes() {
    assert_eq!(decode_mountinfo_path("/mnt/data\\040set"), "/mnt/data set");
    assert_eq!(decode_mountinfo_path("/mnt/backslash\\134x"), "/mnt/backslash\\x");
}

#[test]
fn mountinfo_escapes_edge_cases() {
    // An incomplete escape is kept as it is.
    assert_eq!(decode_mountinfo_path("/a\\04"), "/a\\04");
    assert_eq!(decode_mountinfo_path("/a\\09x"), "/a\\09x");
    assert_eq!(decode_mountinfo_path("/tab\\011end"), "/tab\tend");
    // A byte that is not valid UTF-8 on its own becomes U+FFFD.
    assert_eq!(decode_mountinfo_path("/x\\377"), "/x\u{FFFD}");
    assert!(mountinfo_escapes_fit("/x\\377"));
    assert!(!mountinfo_escapes_fit("/x\\400"));
    assert!(mountinfo_escapes_fit("/plain"));
}

#[test]
fn tracked_devices() {
    assert!(is_tracked_device("nvme0n1"));
    assert!(is_tracked_device("sda"));
    assert!(!is_tracked_device("loop0"));
    assert!(!is_tracked_device("ram1"));
}

const DISKSTATS: &str = "   7       0 loop0 1 0 2 0 0 0 0 0 0 0 0 0 0 0 0\n\
 259       0 nvme0n1 100 5 2000 30 50 6 4000 40 2 70 80 0 0 0 0\n\
   8       0 sda 1 2 3 4 5 6 7 8 9 10\n";

#[test]
fn diskstats_keeps_tracked_complete_rows() {
    let rows = parse_diskstats_content(DISKSTATS);
    assert_eq!(rows.len(), 1);
    let r = &rows[0];
    assert_eq!(r.device_name, "nvme0n1");
    assert_eq!(r.reads_completed, 100);
    assert_eq!(r.sectors_read, 2000);
    assert_eq!(r.writes_completed, 50);
    assert_eq!(r.sectors_written, 4000);
    assert_eq!(r.io_in_progress, 2);
    assert_eq!(r.weighted_io_time_ms, 80);
}

#[test]
fn diskstats_later_row_replaces_same_device() {
    let text = "259 0 nvme0n1 1 0 10 0 0 0 0 0 0 0 0\n259 0 nvme0n1 2 0 20 0 0 0 0 0 0 0 0\n";
    let rows = parse_diskstats_content(text);
    assert_eq!(rows.len(), 1);
    assert_eq!(rows[0].sectors_read, 20);
}

#[test]
fn disk_collector_deltas_on_second_reading() {
    let mut c = DiskCollector::new();
    let first = parse_diskstats_content("259 0 nvme0n1 10 0 100 5 20 0 200 6 1 0 0\n");
    assert!(c.advance(first, std::time::Instant::now()).is_empty());
    let second = parse_diskstats_content(
        "259 0 nvme0n1 15 0 160 9 20 0 150 8 3 0 0\n259 0 sdb 1 0 1 0 1 0 1 0 0 0 0\n",
    );
    let d = c.advance(second, std::time::Instant::now());
    assert_eq!(d.len(), 1);
    assert_eq!(d[0].device_name, "nvme0n1");
    assert_eq!(d[0].read_sectors, 60);
    assert_eq!(d[0].write_sectors, 0);
    assert_eq!(d[0].read_ios, 5);
    assert_eq!(d[0].read_time_ms, 4);
    assert_eq!(d[0].write_time_ms, 2);
    assert_eq!(d[0].io_in_progress, 3);
}

#[test]
fn capacity_arithmetic() {
    assert_eq!(saturating_mul(3, 512), 1536);
    assert_eq!(saturating_mul(u64::MAX, 2), u64::MAX);
    assert_eq!(saturating_mul(0, u64::MAX), 0);
    assert_eq!(block_total_bytes(" 1024\n"), Some(524288));
    assert_eq!(block_total_bytes("abc"), None);
    let c = capacity_from_statvfs(4096, 0, 100, 40, 30, "/".to_owned());
    assert_eq!(c.total_bytes, 409600);
    assert_eq!(c.used_bytes, 245760);
    assert_eq!(c.available_bytes, 122880);
    assert_eq!(c.mount_point.as_deref(), Some("/"));
    let d = capacity_from_statvfs(0, 512, 2, 5, 1, "/x".to_owned());
    assert_eq!(d.total_bytes, 1024);
    assert_eq!(d.used_bytes, 0);
}

#[test]
fn mountinfo_lines() {
    let line = "36 35 98:0 / /mnt/data\\040set rw,noatime master:1 - ext4 /dev/nvme0n1p2 rw";
    let e = parse_mountinfo_line(line).unwrap();
    assert_eq!(e.source, "/dev/nvme0n1p2");
    assert_eq!(e.mount_field, "/mnt/data\\040set");
    assert!(parse_mountinfo_line("36 35 0:5 / /proc rw - proc proc rw").is_none());
    assert!(parse_mountinfo_line("garbage").is_none());
}

fn mounted(total: u64, at: &str) -> DiskCapacity {
    DiskCapacity {
        total_bytes: total,
        used_bytes: 0,
        available_bytes: 0,
        mount_point: Some(at.to_owned()),
    }
}

#[test]
fn record_mount_prefers_shorter_mount_point() {
    let mut mounts = Vec::new();
    record_mount(&mut mounts, "nvme0n1".to_owned(), mounted(1, "/boot/efi"));
    record_mount(&mut mounts, "nvme0n1".to_owned(), mounted(2, "/"));
    record_mount(&mut mounts, "nvme0n1".to_owned(), mounted(3, "/home"));
    record_mount(&mut mounts, "sda".to_owned(), mounted(4, "/data"));
    assert_eq!(mounts.len(), 2);
    assert_eq!(mounts[0].1.total_bytes, 2);
    assert_eq!(mounts[1].0, "sda");

    let devices = parse_diskstats_content(
        "259 0 nvme0n1 0 0 0 0 0 0 0 0 0 0 0\n259 0 nvme1n1 0 0 0 0 0 0 0 0 0 0 0\n",
    );
    let caps = collect_capacities(&devices, &[None, Some(777)], &mounts);
    assert_eq!(caps.len(), 2);
    assert_eq!(caps[0].total_bytes, 2);
    assert_eq!(caps[0].mount_point.as_deref(), Some("/"));
    assert_eq!(caps[1].total_bytes, 777);
    assert!(caps[1].mount_point.is_none());
}

#[test]
fn mountinfo_escapes_become_bytes() {
    assert_eq!(unescape_mountinfo_bytes("/a\\040b"), b"/a b".to_vec());
    assert_eq!(unescape_mountinfo_bytes("/x\\377"), vec![b'/', b'x', 0xFF]);
    assert_eq!(unescape_mountinfo_bytes("/q\\09"), b"/q\\09".to_vec());
}

#[test]
fn escaped_utf8_decodes_to_its_characters() {
    // "\303\251" is the UTF-8 encoding of "é".
    assert_eq!(decode_mountinfo_path("/mnt/caf\\303\\251"), "/mnt/café");
}
