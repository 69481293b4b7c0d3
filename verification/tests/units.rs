use dgxtop::units::{format_bytes, format_bytes_compact, format_bytes_short};

const GIB: f64 = 1024.0 * 1024.0 * 1024.0;
const MIB: f64 = 1024.0 * 1024.0;

fn float_bytes(bytes: u64) -> String {
    if bytes >= 1024 * 1024 * 1024 {
        format!("{:.1} GB", bytes as f64 / GIB)
    } else if bytes >= 1024 * 1024 {
        format!("{:.0} MB", bytes as f64 / MIB)
    } else if bytes >= 1024 {
        format!("{:.0} KB", bytes as f64 / 1024.0)
    } else {
        format!("{bytes} B")
    }
}

fn float_bytes_short(bytes: u64) -> String {
    if bytes >= 1024 * 1024 * 1024 {
        format!("{:.1}G", bytes as f64 / GIB)
    } else if bytes >= 1024 * 1024 {
        format!("{:.0}M", bytes as f64 / MIB)
    } else {
        format!("{:.0}K", bytes as f64 / 1024.0)
    }
}

fn float_bytes_compact(bytes: u64) -> String {
    if bytes as f64 >= GIB {
        format!("{:.1}GB", bytes as f64 / GIB)
    } else if bytes as f64 >= MIB {
        format!("{:.0}MB", bytes as f64 / MIB)
    } else {
        format!("{:.0}KB", bytes as f64 / 1024.0)
    }
}

fn samples() -> Vec<u64> {
    let mut v = vec![
        0,
        1,
        512,
        1023,
        1024,
        1535,
        1536,
        2560,
        1024 * 1024 - 1,
        1024 * 1024,
        3 * 512 * 1024,
        5 * 512 * 1024,
        1024 * 1024 * 1024 - 1,
        1024 * 1024 * 1024,
        5 << 28,
        7 << 28,
        9 << 28,
        123_456_789_012,
        (1 << 53) - 1,
        1 << 53,
        (1 << 53) + 1,
        (1 << 53) + 3,
        (1 << 60) + 12345,
        u64::MAX - 1,
        u64::MAX,
    ];
    let mut x: u64 = 0x9E37_79B9_7F4A_7C15;
    for _ in 0..2000 {
        x ^= x << 13;
        x ^= x >> 7;
        x ^= x << 17;
        v.push(x >> (x % 64));
    }
    v
}

#[test]
fn byte_counts_print_as_float_formatting_does() {
    for n in samples() {
        assert_eq!(format_bytes(n), float_bytes(n), "format_bytes({n})");
        assert_eq!(format_bytes_short(n), float_bytes_short(n), "format_bytes_short({n})");
        assert_eq!(format_bytes_compact(n), float_bytes_compact(n), "format_bytes_compact({n})");
    }
}

#[test]
fn byte_counts_exact_values() {
    assert_eq!(format_bytes(512), "512 B");
    assert_eq!(format_bytes(1536), "2 KB");
    assert_eq!(format_bytes(2560), "2 KB");
    assert_eq!(format_bytes(5 << 28), "1.2 GB");
    assert_eq!(format_bytes(7 << 28), "1.8 GB");
    assert_eq!(format_bytes(u64::MAX), "17179869184.0 GB");
    assert_eq!(format_bytes_short(600), "1K");
    assert_eq!(format_bytes_short(3 * 1024 * 1024), "3M");
    assert_eq!(format_bytes_compact(0), "0KB");
    assert_eq!(format_bytes_compact(1024 * 1024 * 1024), "1.0GB");
}
