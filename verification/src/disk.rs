//! Block devices: which are tracked, their counters from /proc/diskstats,
//! their mounts from /proc/self/mountinfo and their capacity.
use crate::cpu::{now, sat_sub};
use crate::text::string_from_chars;
use crate::text::{
    chars_of, fields, has_prefix, lines, parse_u64, parse_u64_spec, split_fields, split_lines,
    starts_with, trim, trim_chars,
};
use vstd::prelude::*;
use vstd::string::StringSliceAdditionalSpecFns;
use vstd::utf8::{decode_utf8, valid_utf8};

verus! {

// ---------------------------------------------------------------------
// Device names
// ---------------------------------------------------------------------

/// A disk is tracked when its name starts with a disk prefix (sd, nvme,
/// vd, hd, xvd, mmcblk) and not with that of a pseudo device (loop, ram,
/// dm-, sr, fd).
pub open spec fn tracked_device(name: Seq<char>) -> bool {
    let excluded = starts_with(name, "loop"@) || starts_with(name, "ram"@) || starts_with(
        name,
        "dm-"@,
    ) || starts_with(name, "sr"@) || starts_with(name, "fd"@);
    let disk = starts_with(name, "sd"@) || starts_with(name, "nvme"@) || starts_with(name, "vd"@)
        || starts_with(name, "hd"@) || starts_with(name, "xvd"@) || starts_with(name, "mmcblk"@);
    !excluded && disk
}

fn tracked_chars(name: &[char]) -> (b: bool)
    ensures
        b == tracked_device(name@),
{
    if has_prefix(name, &chars_of("loop")) || has_prefix(name, &chars_of("ram")) || has_prefix(
        name,
        &chars_of("dm-"),
    ) || has_prefix(name, &chars_of("sr")) || has_prefix(name, &chars_of("fd")) {
        return false;
    }
    has_prefix(name, &chars_of("sd")) || has_prefix(name, &chars_of("nvme")) || has_prefix(
        name,
        &chars_of("vd"),
    ) || has_prefix(name, &chars_of("hd")) || has_prefix(name, &chars_of("xvd")) || has_prefix(
        name,
        &chars_of("mmcblk"),
    )
}

pub fn is_tracked_device(name: &str) -> (b: bool)
    ensures
        b == tracked_device(name@),
{
    tracked_chars(&chars_of(name))
}

// ---------------------------------------------------------------------
// Octal escapes of mountinfo paths
// ---------------------------------------------------------------------

pub open spec fn is_octal_digit(b: u8) -> bool {
    48 <= b <= 55
}

/// A backslash followed by three octal digits starts at `i`.
pub open spec fn escape_at(b: Seq<u8>, i: int) -> bool {
    &&& 0 <= i
    &&& i + 3 < b.len()
    &&& b[i] == 92
    &&& is_octal_digit(b[i + 1])
    &&& is_octal_digit(b[i + 2])
    &&& is_octal_digit(b[i + 3])
}

pub open spec fn escape_value(b: Seq<u8>, i: int) -> int {
    (b[i + 1] - 48) * 64 + (b[i + 2] - 48) * 8 + (b[i + 3] - 48)
}

/// The bytes from position `i` on with every escape replaced by its byte.
pub open spec fn unescape_from(b: Seq<u8>, i: int) -> Seq<u8>
    decreases b.len() - i,
{
    if i < 0 || i >= b.len() {
        Seq::empty()
    } else if escape_at(b, i) {
        seq![escape_value(b, i) as u8] + unescape_from(b, i + 4)
    } else {
        seq![b[i]] + unescape_from(b, i + 1)
    }
}

/// Every escape met while decoding from `i` stands for a byte (first digit
/// at most 3); a larger one overflows the byte arithmetic.
pub open spec fn escapes_fit_from(b: Seq<u8>, i: int) -> bool
    decreases b.len() - i,
{
    if i < 0 || i >= b.len() {
        true
    } else if escape_at(b, i) {
        b[i + 1] <= 51 && escapes_fit_from(b, i + 4)
    } else {
        escapes_fit_from(b, i + 1)
    }
}

/// Name for what `String::from_utf8_lossy` makes of bytes: their UTF-8
/// decoding with each invalid sequence replaced by U+FFFD.
pub uninterp spec fn utf8_lossy(bytes: Seq<u8>) -> Seq<char>;

/// Calls `String::from_utf8_lossy`; valid UTF-8 comes back unchanged, as
/// its documentation states.
#[verifier::external_body]
fn string_from_utf8_lossy(bytes: &[u8]) -> (r: String)
    ensures
        r@ == utf8_lossy(bytes@),
        valid_utf8(bytes@) ==> r@ == decode_utf8(bytes@),
{
    String::from_utf8_lossy(bytes).into_owned()
}

proof fn lemma_no_escape(b: Seq<u8>, i: int)
    requires
        0 <= i <= b.len(),
        forall|k: int| 0 <= k < b.len() ==> b[k] != 92,
    ensures
        unescape_from(b, i) == b.skip(i),
    decreases b.len() - i,
{
    if i < b.len() {
        lemma_no_escape(b, i + 1);
        assert(b.skip(i) =~= seq![b[i]] + b.skip(i + 1));
    } else {
        assert(b.skip(i) =~= Seq::<u8>::empty());
    }
}

pub open spec fn path_escapes_fit(path: &str) -> bool {
    escapes_fit_from(path.spec_bytes(), 0)
}

/// Whether every escape in the path stands for a byte.
pub fn mountinfo_escapes_fit(path: &str) -> (r: bool)
    ensures
        r == path_escapes_fit(path),
{
    let b = path.as_bytes();
    let n = b.len();
    let mut i: usize = 0;
    while i < n
        invariant
            n == b@.len(),
            b@ == path.spec_bytes(),
            i <= n + 3,
            escapes_fit_from(b@, 0) == escapes_fit_from(b@, i as int),
        decreases n + 3 - i,
    {
        if b[i] == 92 && n - i > 3 && 48 <= b[i + 1] && b[i + 1] <= 55 && 48 <= b[i + 2] && b[i + 2]
            <= 55 && 48 <= b[i + 3] && b[i + 3] <= 55 {
            if b[i + 1] > 51 {
                return false;
            }
            i += 4;
        } else {
            i += 1;
        }
    }
    true
}

/// The bytes of a mountinfo path with each octal escape (`\040` for a
/// space) replaced by the byte it stands for.
pub fn unescape_mountinfo_bytes(path: &str) -> (r: Vec<u8>)
    requires
        path_escapes_fit(path),
    ensures
        r@ == unescape_from(path.spec_bytes(), 0),
{
    let b = path.as_bytes();
    let n = b.len();
    let mut decoded: Vec<u8> = Vec::new();
    let mut i: usize = 0;
    assert(decoded@ + unescape_from(b@, 0) =~= unescape_from(b@, 0));
    while i < n
        invariant
            n == b@.len(),
            i <= n + 3,
            escapes_fit_from(b@, i as int),
            decoded@ + unescape_from(b@, i as int) == unescape_from(b@, 0),
        decreases n + 3 - i,
    {
        if b[i] == 92 && n - i > 3 && 48 <= b[i + 1] && b[i + 1] <= 55 && 48 <= b[i + 2] && b[i + 2]
            <= 55 && 48 <= b[i + 3] && b[i + 3] <= 55 {
            let byte = (b[i + 1] - 48) * 64 + (b[i + 2] - 48) * 8 + (b[i + 3] - 48);
            proof {
                assert(decoded@.push(byte) + unescape_from(b@, i + 4) =~= decoded@ + unescape_from(
                    b@,
                    i as int,
                ));
            }
            decoded.push(byte);
            i += 4;
        } else {
            proof {
                assert(decoded@.push(b@[i as int]) + unescape_from(b@, i + 1) =~= decoded@
                    + unescape_from(b@, i as int));
            }
            decoded.push(b[i]);
            i += 1;
        }
    }
    assert(unescape_from(b@, i as int) =~= Seq::<u8>::empty());
    assert(decoded@ =~= unescape_from(b@, 0));
    decoded
}

/// Decodes the octal escapes (`\040` for a space) that mountinfo writes
/// in paths; bytes that are not UTF-8 become U+FFFD.
pub fn decode_mountinfo_path(path: &str) -> (r: String)
    requires
        path_escapes_fit(path),
    ensures
        r@ == utf8_lossy(unescape_from(path.spec_bytes(), 0)),
        valid_utf8(unescape_from(path.spec_bytes(), 0)) ==> r@ == decode_utf8(
            unescape_from(path.spec_bytes(), 0),
        ),
        (forall|k: int| 0 <= k < path.spec_bytes().len() ==> path.spec_bytes()[k] != 92) ==> r@
            == path@,
{
    let decoded = unescape_mountinfo_bytes(path);
    proof {
        let b = path.spec_bytes();
        if forall|k: int| 0 <= k < b.len() ==> b[k] != 92 {
            lemma_no_escape(b, 0);
            assert(b.skip(0) =~= b);
            vstd::utf8::encode_utf8_valid_utf8(path@);
            vstd::utf8::encode_utf8_decode_utf8(path@);
        }
    }
    string_from_utf8_lossy(decoded.as_slice())
}

// ---------------------------------------------------------------------
// /proc/diskstats
// ---------------------------------------------------------------------

/// Raw counters of one device from /proc/diskstats.
#[derive(Debug, Clone)]
pub struct DiskRawCounters {
    pub device_name: String,
    pub reads_completed: u64,
    pub reads_merged: u64,
    pub sectors_read: u64,
    pub read_time_ms: u64,
    pub writes_completed: u64,
    pub writes_merged: u64,
    pub sectors_written: u64,
    pub write_time_ms: u64,
    pub io_in_progress: u64,
    pub io_time_ms: u64,
    pub weighted_io_time_ms: u64,
}

/// A counter field: its number, or 0 when it is not one.
pub open spec fn field_or_zero(fs: Seq<Seq<char>>, i: int) -> u64 {
    match parse_u64_spec(fs[i]) {
        Some(v) => v,
        None => 0,
    }
}

/// `c` holds the device name and counters of the fields of a diskstats line.
pub open spec fn counters_from_fields(c: DiskRawCounters, fs: Seq<Seq<char>>) -> bool {
    &&& c.device_name@ == fs[2]
    &&& c.reads_completed == field_or_zero(fs, 3)
    &&& c.reads_merged == field_or_zero(fs, 4)
    &&& c.sectors_read == field_or_zero(fs, 5)
    &&& c.read_time_ms == field_or_zero(fs, 6)
    &&& c.writes_completed == field_or_zero(fs, 7)
    &&& c.writes_merged == field_or_zero(fs, 8)
    &&& c.sectors_written == field_or_zero(fs, 9)
    &&& c.write_time_ms == field_or_zero(fs, 10)
    &&& c.io_in_progress == field_or_zero(fs, 11)
    &&& c.io_time_ms == field_or_zero(fs, 12)
    &&& c.weighted_io_time_ms == field_or_zero(fs, 13)
}

/// Position of the first row whose device (third field) is `name`.
pub open spec fn row_of(rows: Seq<Seq<Seq<char>>>, name: Seq<char>, n: nat) -> Option<int>
    decreases n,
{
    if n == 0 {
        None
    } else {
        match row_of(rows, name, (n - 1) as nat) {
            Some(j) => Some(j),
            None => if rows[n - 1][2] == name {
                Some(n - 1)
            } else {
                None
            },
        }
    }
}

/// The rows (field lists) of /proc/diskstats that count: lines with at
/// least 14 fields naming a tracked device; a later line for a device
/// replaces the earlier one.
pub open spec fn diskstats_rows(ls: Seq<Seq<char>>) -> Seq<Seq<Seq<char>>>
    decreases ls.len(),
{
    if ls.len() == 0 {
        Seq::empty()
    } else {
        let before = diskstats_rows(ls.drop_last());
        let fs = fields(ls.last());
        if fs.len() < 14 || !tracked_device(fs[2]) {
            before
        } else {
            match row_of(before, fs[2], before.len()) {
                Some(j) => before.update(j, fs),
                None => before.push(fs),
            }
        }
    }
}

proof fn lemma_row_of_in_range(rows: Seq<Seq<Seq<char>>>, name: Seq<char>, n: nat)
    requires
        n <= rows.len(),
    ensures
        row_of(rows, name, n) matches Some(j) ==> 0 <= j < n && rows[j][2] == name,
    decreases n,
{
    if n > 0 {
        lemma_row_of_in_range(rows, name, (n - 1) as nat);
    }
}

proof fn lemma_row_of_stable(rows: Seq<Seq<Seq<char>>>, name: Seq<char>, m: nat, n: nat)
    requires
        m <= n,
        row_of(rows, name, m) is Some,
    ensures
        row_of(rows, name, n) == row_of(rows, name, m),
    decreases n - m,
{
    if m < n {
        lemma_row_of_stable(rows, name, m, (n - 1) as nat);
    }
}

fn field_value(fs: &Vec<Vec<char>>, i: usize) -> (r: u64)
    requires
        i < fs@.len(),
    ensures
        r == field_or_zero(fs@.map_values(|f: Vec<char>| f@), i as int),
{
    match parse_u64(&fs[i]) {
        Some(v) => v,
        None => 0,
    }
}

fn find_device(r: &Vec<DiskRawCounters>, name: &Vec<char>, Ghost(rows): Ghost<Seq<Seq<Seq<char>>>>) -> (res:
    Option<usize>)
    requires
        r@.len() == rows.len(),
        forall|k: int| 0 <= k < r@.len() ==> (#[trigger] r@[k]).device_name@ == rows[k][2],
    ensures
        match res {
            Some(j) => row_of(rows, name@, rows.len()) == Some(j as int),
            None => row_of(rows, name@, rows.len()) is None,
        },
{
    let mut j: usize = 0;
    while j < r.len()
        invariant
            j <= r@.len(),
            r@.len() == rows.len(),
            forall|k: int| 0 <= k < r@.len() ==> (#[trigger] r@[k]).device_name@ == rows[k][2],
            row_of(rows, name@, j as nat) is None,
        decreases r.len() - j,
    {
        let existing = chars_of(r[j].device_name.as_str());
        if crate::text::chars_equal(&existing, name) {
            proof {
                assert(row_of(rows, name@, (j + 1) as nat) == Some(j as int));
                lemma_row_of_stable(rows, name@, (j + 1) as nat, rows.len());
            }
            return Some(j);
        }
        j += 1;
    }
    None
}

/// Reads the counters of the tracked devices from the text of
/// /proc/diskstats, one entry per device.
pub fn parse_diskstats_content(content: &str) -> (r: Vec<DiskRawCounters>)
    ensures
        r@.len() == diskstats_rows(lines(content@)).len(),
        forall|k: int|
            0 <= k < r@.len() ==> counters_from_fields(
                #[trigger] r@[k],
                diskstats_rows(lines(content@))[k],
            ),
{
    let chars = chars_of(content);
    let ls = split_lines(&chars);
    let ghost all = lines(content@);
    let mut r: Vec<DiskRawCounters> = Vec::new();
    let ghost mut rows: Seq<Seq<Seq<char>>> = Seq::empty();
    let mut i: usize = 0;
    while i < ls.len()
        invariant
            ls@.len() == all.len(),
            forall|k: int| 0 <= k < ls@.len() ==> #[trigger] ls@[k]@ == all[k],
            all == lines(content@),
            i <= ls@.len(),
            rows == diskstats_rows(all.take(i as int)),
            r@.len() == rows.len(),
            forall|k: int| 0 <= k < r@.len() ==> counters_from_fields(#[trigger] r@[k], rows[k]),
            forall|k: int| 0 <= k < rows.len() ==> (#[trigger] rows[k]).len() >= 14,
        decreases ls.len() - i,
    {
        assert(all.take(i + 1).drop_last() =~= all.take(i as int));
        assert(all.take(i + 1).last() == ls@[i as int]@);
        let fs = split_fields(&ls[i]);
        let ghost f = fields(ls@[i as int]@);
        assert(fs@.map_values(|v: Vec<char>| v@) =~= f);
        if fs.len() >= 14 && tracked_chars(&fs[2]) {
            let c = DiskRawCounters {
                device_name: string_from_chars(&fs[2]),
                reads_completed: field_value(&fs, 3),
                reads_merged: field_value(&fs, 4),
                sectors_read: field_value(&fs, 5),
                read_time_ms: field_value(&fs, 6),
                writes_completed: field_value(&fs, 7),
                writes_merged: field_value(&fs, 8),
                sectors_written: field_value(&fs, 9),
                write_time_ms: field_value(&fs, 10),
                io_in_progress: field_value(&fs, 11),
                io_time_ms: field_value(&fs, 12),
                weighted_io_time_ms: field_value(&fs, 13),
            };
            let found = find_device(&r, &fs[2], Ghost(rows));
            proof {
                lemma_row_of_in_range(rows, f[2], rows.len());
                rows = match found {
                    Some(j) => rows.update(j as int, f),
                    None => rows.push(f),
                };
            }
            match found {
                Some(j) => {
                    r.set(j, c);
                },
                None => {
                    r.push(c);
                },
            }
        }
        i += 1;
    }
    assert(all.take(ls@.len() as int) =~= all);
    r
}

// ---------------------------------------------------------------------
// Deltas between readings
// ---------------------------------------------------------------------

/// What changed on one device between two readings (saturating at 0),
/// and the I/O in flight now.
#[derive(Debug, Clone)]
pub struct DiskDelta {
    pub device_name: String,
    pub read_sectors: u64,
    pub write_sectors: u64,
    pub read_ios: u64,
    pub write_ios: u64,
    pub read_time_ms: u64,
    pub write_time_ms: u64,
    pub io_in_progress: u64,
}

pub open spec fn delta_of(d: DiskDelta, prev: DiskRawCounters, curr: DiskRawCounters) -> bool {
    &&& d.device_name@ == curr.device_name@
    &&& d.read_sectors == sat_sub(curr.sectors_read, prev.sectors_read)
    &&& d.write_sectors == sat_sub(curr.sectors_written, prev.sectors_written)
    &&& d.read_ios == sat_sub(curr.reads_completed, prev.reads_completed)
    &&& d.write_ios == sat_sub(curr.writes_completed, prev.writes_completed)
    &&& d.read_time_ms == sat_sub(curr.read_time_ms, prev.read_time_ms)
    &&& d.write_time_ms == sat_sub(curr.write_time_ms, prev.write_time_ms)
    &&& d.io_in_progress == curr.io_in_progress
}

/// Position of the first device named `name` among the first `n`.
pub open spec fn device_of(ds: Seq<DiskRawCounters>, name: Seq<char>, n: nat) -> Option<int>
    decreases n,
{
    if n == 0 {
        None
    } else {
        match device_of(ds, name, (n - 1) as nat) {
            Some(j) => Some(j),
            None => if ds[n - 1].device_name@ == name {
                Some(n - 1)
            } else {
                None
            },
        }
    }
}

/// For the first `n` current devices that the previous reading also had,
/// in order: (position now, position before).
pub open spec fn matched_devices(prev: Seq<DiskRawCounters>, curr: Seq<DiskRawCounters>, n: nat) -> Seq<
    (int, int),
>
    decreases n,
{
    if n == 0 {
        Seq::empty()
    } else {
        let before = matched_devices(prev, curr, (n - 1) as nat);
        match device_of(prev, curr[n - 1].device_name@, prev.len()) {
            Some(j) => before.push((n - 1, j)),
            None => before,
        }
    }
}

proof fn lemma_device_of_in_range(ds: Seq<DiskRawCounters>, name: Seq<char>, n: nat)
    requires
        n <= ds.len(),
    ensures
        device_of(ds, name, n) matches Some(j) ==> 0 <= j < n && ds[j].device_name@ == name,
    decreases n,
{
    if n > 0 {
        lemma_device_of_in_range(ds, name, (n - 1) as nat);
    }
}

proof fn lemma_device_of_stable(ds: Seq<DiskRawCounters>, name: Seq<char>, m: nat, n: nat)
    requires
        m <= n,
        device_of(ds, name, m) is Some,
    ensures
        device_of(ds, name, n) == device_of(ds, name, m),
    decreases n - m,
{
    if m < n {
        lemma_device_of_stable(ds, name, m, (n - 1) as nat);
    }
}

proof fn lemma_matched_in_range(prev: Seq<DiskRawCounters>, curr: Seq<DiskRawCounters>, n: nat)
    requires
        n <= curr.len(),
    ensures
        forall|k: int|
            0 <= k < matched_devices(prev, curr, n).len() ==> {
                let (a, b) = #[trigger] matched_devices(prev, curr, n)[k];
                0 <= a < n && 0 <= b < prev.len() && prev[b].device_name@ == curr[a].device_name@
            },
    decreases n,
{
    if n > 0 {
        lemma_matched_in_range(prev, curr, (n - 1) as nat);
        lemma_device_of_in_range(prev, curr[n - 1].device_name@, prev.len());
        let before = matched_devices(prev, curr, (n - 1) as nat);
        let now = matched_devices(prev, curr, n);
        assert forall|k: int| 0 <= k < now.len() implies {
            let (a, b) = #[trigger] now[k];
            0 <= a < n && 0 <= b < prev.len() && prev[b].device_name@ == curr[a].device_name@
        } by {
            if k < before.len() {
                assert(now[k] == before[k]);
            }
        }
    }
}

fn find_disk(ds: &Vec<DiskRawCounters>, name: &String) -> (res: Option<usize>)
    ensures
        match res {
            Some(j) => device_of(ds@, name@, ds@.len()) == Some(j as int),
            None => device_of(ds@, name@, ds@.len()) is None,
        },
{
    let mut j: usize = 0;
    while j < ds.len()
        invariant
            j <= ds@.len(),
            device_of(ds@, name@, j as nat) is None,
        decreases ds.len() - j,
    {
        if ds[j].device_name == *name {
            proof {
                assert(device_of(ds@, name@, (j + 1) as nat) == Some(j as int));
                lemma_device_of_stable(ds@, name@, (j + 1) as nat, ds@.len());
            }
            return Some(j);
        }
        j += 1;
    }
    None
}

fn clone_string(s: &String) -> (r: String)
    ensures
        r@ == s@,
{
    s.clone()
}

/// What the disk collector remembers between readings.
pub struct DiskCollector {
    prev_counters: Vec<DiskRawCounters>,
    prev_time: std::time::Instant,
}

impl DiskCollector {
    pub closed spec fn last_counters(self) -> Seq<DiskRawCounters> {
        self.prev_counters@
    }

    /// When the previous reading was taken (creation time before the first).
    pub closed spec fn last_time(self) -> std::time::Instant {
        self.prev_time
    }

    pub fn new() -> (r: Self)
        ensures
            r.last_counters() == Seq::<DiskRawCounters>::empty(),
    {
        DiskCollector { prev_counters: Vec::new(), prev_time: now() }
    }

    /// When the previous reading was taken (creation time before the first).
    pub fn prev_time(&self) -> (r: std::time::Instant)
        ensures
            r == self.last_time(),
    {
        self.prev_time
    }

    /// Takes in a new reading taken at `now`; gives, for each device of this
    /// reading that the previous one had too (in this reading's order), what
    /// changed in between.
    pub fn advance(&mut self, current: Vec<DiskRawCounters>, now: std::time::Instant) -> (r: Vec<
        DiskDelta,
    >)
        ensures
            r@.len() == matched_devices(old(self).last_counters(), current@, current@.len()).len(),
            forall|k: int|
                0 <= k < r@.len() ==> {
                    let (a, b) = #[trigger] matched_devices(
                        old(self).last_counters(),
                        current@,
                        current@.len(),
                    )[k];
                    &&& delta_of(r@[k], old(self).last_counters()[b], current@[a])
                    &&& r@[k].device_name@ == current@[a].device_name@
                    &&& old(self).last_counters()[b].device_name@ == current@[a].device_name@
                    &&& r@[k].read_ios == sat_sub(
                        current@[a].reads_completed,
                        old(self).last_counters()[b].reads_completed,
                    )
                    &&& r@[k].write_ios == sat_sub(
                        current@[a].writes_completed,
                        old(self).last_counters()[b].writes_completed,
                    )
                    &&& r@[k].read_sectors == sat_sub(
                        current@[a].sectors_read,
                        old(self).last_counters()[b].sectors_read,
                    )
                    &&& r@[k].write_sectors == sat_sub(
                        current@[a].sectors_written,
                        old(self).last_counters()[b].sectors_written,
                    )
                },
            final(self).last_counters() == current@,
            final(self).last_time() == now,
    {
        let mut out: Vec<DiskDelta> = Vec::new();
        let mut i: usize = 0;
        let ghost prev = self.prev_counters@;
        while i < current.len()
            invariant
                i <= current@.len(),
                prev == self.prev_counters@,
                out@.len() == matched_devices(prev, current@, i as nat).len(),
                forall|k: int|
                    0 <= k < out@.len() ==> {
                        let (a, b) = #[trigger] matched_devices(prev, current@, i as nat)[k];
                        delta_of(out@[k], prev[b], current@[a])
                    },
            decreases current.len() - i,
        {
            let curr = &current[i];
            match find_disk(&self.prev_counters, &curr.device_name) {
                Some(j) => {
                    proof {
                        lemma_device_of_in_range(prev, curr.device_name@, prev.len());
                    }
                    let p = &self.prev_counters[j];
                    out.push(
                        DiskDelta {
                            device_name: clone_string(&curr.device_name),
                            read_sectors: curr.sectors_read.saturating_sub(p.sectors_read),
                            write_sectors: curr.sectors_written.saturating_sub(p.sectors_written),
                            read_ios: curr.reads_completed.saturating_sub(p.reads_completed),
                            write_ios: curr.writes_completed.saturating_sub(p.writes_completed),
                            read_time_ms: curr.read_time_ms.saturating_sub(p.read_time_ms),
                            write_time_ms: curr.write_time_ms.saturating_sub(p.write_time_ms),
                            io_in_progress: curr.io_in_progress,
                        },
                    );
                    proof {
                        let m_old = matched_devices(prev, current@, i as nat);
                        let m_new = matched_devices(prev, current@, (i + 1) as nat);
                        assert(m_new == m_old.push((i as int, j as int)));
                        assert forall|k: int| 0 <= k < out@.len() implies {
                            let (a, b) = #[trigger] m_new[k];
                            delta_of(out@[k], prev[b], current@[a])
                        } by {
                            if k < m_old.len() {
                                assert(m_new[k] == m_old[k]);
                            }
                        }
                    }
                },
                None => {},
            }
            i += 1;
        }
        proof {
            lemma_matched_in_range(prev, current@, current@.len());
        }
        self.prev_counters = current;
        self.prev_time = now;
        out
    }
}

// ---------------------------------------------------------------------
// Capacity
// ---------------------------------------------------------------------

/// Size and usage of the file system on a device, in bytes, and where it is
/// mounted (nothing known when not mounted).
#[derive(Debug, Clone)]
pub struct DiskCapacity {
    pub total_bytes: u64,
    pub used_bytes: u64,
    pub available_bytes: u64,
    pub mount_point: Option<String>,
}

pub open spec fn sat_mul(a: u64, b: u64) -> u64 {
    if a * b > u64::MAX {
        u64::MAX
    } else {
        (a * b) as u64
    }
}

/// Bytes of a block device from its `size` file (counted in 512-byte
/// sectors).
pub open spec fn block_bytes_spec(size_text: Seq<char>) -> Option<u64> {
    match parse_u64_spec(trim(size_text)) {
        Some(sectors) => Some(sat_mul(sectors, 512)),
        None => None,
    }
}

/// Product of two counters, saturating at the top of the range.
pub fn saturating_mul(a: u64, b: u64) -> (r: u64)
    ensures
        r == sat_mul(a, b),
{
    if a == 0 {
        return 0;
    }
    if b > u64::MAX / a {
        assert(a * b > u64::MAX) by (nonlinear_arith)
            requires
                a > 0,
                b > u64::MAX / a,
        ;
        u64::MAX
    } else {
        assert(a * b <= u64::MAX) by (nonlinear_arith)
            requires
                a > 0,
                b <= u64::MAX / a,
        ;
        a * b
    }
}

pub fn block_total_bytes(size_text: &str) -> (r: Option<u64>)
    ensures
        r == block_bytes_spec(size_text@),
{
    let t = trim_chars(&chars_of(size_text));
    match parse_u64(&t) {
        Some(sectors) => Some(saturating_mul(sectors, 512)),
        None => None,
    }
}

/// The capacity that statvfs figures describe: blocks of the fragment size
/// (the block size when that is 0); used is total less free.
pub fn capacity_from_statvfs(
    frsize: u64,
    bsize: u64,
    blocks: u64,
    bfree: u64,
    bavail: u64,
    mount_point: String,
) -> (r: DiskCapacity)
    ensures
        ({
            let bs = if frsize > 0 { frsize } else { bsize };
            &&& r.total_bytes == sat_mul(blocks, bs)
            &&& r.used_bytes == sat_sub(sat_mul(blocks, bs), sat_mul(bfree, bs))
            &&& r.available_bytes == sat_mul(bavail, bs)
            &&& r.mount_point == Some(mount_point)
        }),
{
    let block_size = if frsize > 0 {
        frsize
    } else {
        bsize
    };
    let total_bytes = saturating_mul(blocks, block_size);
    let free_bytes = saturating_mul(bfree, block_size);
    let available_bytes = saturating_mul(bavail, block_size);
    DiskCapacity {
        total_bytes,
        used_bytes: total_bytes.saturating_sub(free_bytes),
        available_bytes,
        mount_point: Some(mount_point),
    }
}

/// A mounted file system as a mountinfo line names it: the source device
/// path and the (still escaped) mount point.
#[derive(Debug, Clone)]
pub struct MountEntry {
    pub source: String,
    pub mount_field: String,
}

/// Position of the first field that is `-`.
pub open spec fn separator_pos(fs: Seq<Seq<char>>, n: nat) -> Option<int>
    decreases n,
{
    if n == 0 {
        None
    } else {
        match separator_pos(fs, (n - 1) as nat) {
            Some(p) => Some(p),
            None => if fs[n - 1] == "-"@ {
                Some(n - 1)
            } else {
                None
            },
        }
    }
}

/// The mount of a mountinfo line whose source is a `/dev/` path: the
/// fields after the `-` separator give the source, the fifth field the
/// mount point.
pub open spec fn mount_entry_spec(line: Seq<char>) -> Option<(Seq<char>, Seq<char>)> {
    let fs = fields(line);
    match separator_pos(fs, fs.len()) {
        None => None,
        Some(p) => if fs.len() <= p + 2 || fs.len() <= 4 {
            None
        } else if !starts_with(fs[p + 2], "/dev/"@) {
            None
        } else {
            Some((fs[p + 2], fs[4]))
        },
    }
}

proof fn lemma_separator_stable(fs: Seq<Seq<char>>, m: nat, n: nat)
    requires
        m <= n,
        separator_pos(fs, m) is Some,
    ensures
        separator_pos(fs, n) == separator_pos(fs, m),
    decreases n - m,
{
    if m < n {
        lemma_separator_stable(fs, m, (n - 1) as nat);
    }
}

proof fn lemma_separator_in_range(fs: Seq<Seq<char>>, n: nat)
    requires
        n <= fs.len(),
    ensures
        separator_pos(fs, n) matches Some(p) ==> 0 <= p < n,
    decreases n,
{
    if n > 0 {
        lemma_separator_in_range(fs, (n - 1) as nat);
    }
}

pub fn parse_mountinfo_line(line: &str) -> (r: Option<MountEntry>)
    ensures
        match (r, mount_entry_spec(line@)) {
            (Some(e), Some((src, mp))) => e.source@ == src && e.mount_field@ == mp,
            (None, None) => true,
            _ => false,
        },
{
    let chars = chars_of(line);
    let fs = split_fields(&chars);
    let ghost f = fields(line@);
    let dash = chars_of("-");
    let mut p: usize = 0;
    let mut found = false;
    while p < fs.len()
        invariant_except_break
            separator_pos(f, p as nat) is None,
            !found,
        invariant
            fs@.len() == f.len(),
            forall|k: int| 0 <= k < fs@.len() ==> #[trigger] fs@[k]@ == f[k],
            dash@ == "-"@,
            p <= fs@.len(),
        ensures
            found ==> p < fs@.len() && separator_pos(f, f.len()) == Some(p as int),
            !found ==> separator_pos(f, f.len()) is None,
        decreases fs.len() - p,
    {
        if crate::text::chars_equal(&fs[p], &dash) {
            proof {
                assert(separator_pos(f, (p + 1) as nat) == Some(p as int));
                lemma_separator_stable(f, (p + 1) as nat, f.len());
            }
            found = true;
            break;
        }
        p += 1;
    }
    if !found {
        return None;
    }
    if fs.len() - p <= 2 || fs.len() <= 4 {
        return None;
    }
    if !has_prefix(&fs[p + 2], &chars_of("/dev/")) {
        return None;
    }
    Some(MountEntry { source: string_from_chars(&fs[p + 2]), mount_field: string_from_chars(&fs[4]) })
}

/// Byte length of the mount point of a capacity (0 when it has none).
pub open spec fn mount_len(c: DiskCapacity) -> nat {
    match c.mount_point {
        Some(m) => (vstd::utf8::encode_utf8(m@).len() as usize) as nat,
        None => 0,
    }
}

/// Position of the first entry for `name` among the first `n`.
pub open spec fn entry_of(es: Seq<(String, DiskCapacity)>, name: Seq<char>, n: nat) -> Option<int>
    decreases n,
{
    if n == 0 {
        None
    } else {
        match entry_of(es, name, (n - 1) as nat) {
            Some(j) => Some(j),
            None => if es[n - 1].0@ == name {
                Some(n - 1)
            } else {
                None
            },
        }
    }
}

proof fn lemma_entry_of_in_range(es: Seq<(String, DiskCapacity)>, name: Seq<char>, n: nat)
    requires
        n <= es.len(),
    ensures
        entry_of(es, name, n) matches Some(j) ==> 0 <= j < n && es[j].0@ == name,
    decreases n,
{
    if n > 0 {
        lemma_entry_of_in_range(es, name, (n - 1) as nat);
    }
}

proof fn lemma_entry_of_stable(es: Seq<(String, DiskCapacity)>, name: Seq<char>, m: nat, n: nat)
    requires
        m <= n,
        entry_of(es, name, m) is Some,
    ensures
        entry_of(es, name, n) == entry_of(es, name, m),
    decreases n - m,
{
    if m < n {
        lemma_entry_of_stable(es, name, m, (n - 1) as nat);
    }
}

fn find_entry(es: &Vec<(String, DiskCapacity)>, name: &String) -> (r: Option<usize>)
    ensures
        match r {
            Some(j) => entry_of(es@, name@, es@.len()) == Some(j as int),
            None => entry_of(es@, name@, es@.len()) is None,
        },
{
    let mut j: usize = 0;
    while j < es.len()
        invariant
            j <= es@.len(),
            entry_of(es@, name@, j as nat) is None,
        decreases es.len() - j,
    {
        if es[j].0 == *name {
            proof {
                assert(entry_of(es@, name@, (j + 1) as nat) == Some(j as int));
                lemma_entry_of_stable(es@, name@, (j + 1) as nat, es@.len());
            }
            return Some(j);
        }
        j += 1;
    }
    None
}

/// Byte length of the mount point of a capacity (0 when it has none).
fn mount_point_len(c: &DiskCapacity) -> (r: usize)
    ensures
        r == mount_len(*c),
{
    match &c.mount_point {
        Some(m) => m.as_str().len(),
        None => 0,
    }
}

/// Records the capacity of a mounted device: the first mount seen for a
/// device is kept unless a later one has a shorter mount point (so `/`
/// wins over `/boot/efi`).
pub fn record_mount(mounts: &mut Vec<(String, DiskCapacity)>, device: String, capacity: DiskCapacity)
    ensures
        match entry_of(old(mounts)@, device@, old(mounts)@.len()) {
            None => final(mounts)@ == old(mounts)@.push((device, capacity)),
            Some(j) => if old(mounts)@[j].1.mount_point is None || mount_len(capacity) < mount_len(
                old(mounts)@[j].1,
            ) {
                final(mounts)@ == old(mounts)@.update(j, (device, capacity))
            } else {
                final(mounts)@ == old(mounts)@
            },
        },
{
    match find_entry(mounts, &device) {
        None => {
            mounts.push((device, capacity));
        },
        Some(j) => {
            proof {
                lemma_entry_of_in_range(mounts@, device@, mounts@.len());
            }
            let replace = match &mounts[j].1.mount_point {
                None => true,
                Some(_) => mount_point_len(&capacity) < mount_point_len(&mounts[j].1),
            };
            if replace {
                mounts.set(j, (device, capacity));
            }
        },
    }
}

fn clone_capacity(c: &DiskCapacity) -> (r: DiskCapacity)
    ensures
        r == *c,
{
    DiskCapacity {
        total_bytes: c.total_bytes,
        used_bytes: c.used_bytes,
        available_bytes: c.available_bytes,
        mount_point: match &c.mount_point {
            Some(m) => Some(m.clone()),
            None => None,
        },
    }
}

/// The capacity of a device: that of its mounted file system when it has
/// one, else its raw size (0 when unknown) with nothing used or available.
pub open spec fn capacity_for(
    name: Seq<char>,
    block_total: Option<u64>,
    mounts: Seq<(String, DiskCapacity)>,
    c: DiskCapacity,
) -> bool {
    match entry_of(mounts, name, mounts.len()) {
        Some(j) => c == mounts[j].1,
        None => c.total_bytes == (match block_total {
            Some(t) => t,
            None => 0,
        }) && c.used_bytes == 0 && c.available_bytes == 0 && c.mount_point is None,
    }
}

/// The capacity of each device, in the order of `devices`.
pub fn collect_capacities(
    devices: &[DiskRawCounters],
    block_totals: &[Option<u64>],
    mounts: &Vec<(String, DiskCapacity)>,
) -> (r: Vec<DiskCapacity>)
    requires
        block_totals@.len() == devices@.len(),
    ensures
        r@.len() == devices@.len(),
        forall|i: int|
            0 <= i < r@.len() ==> capacity_for(
                devices@[i].device_name@,
                block_totals@[i],
                mounts@,
                #[trigger] r@[i],
            ),
{
    let mut r: Vec<DiskCapacity> = Vec::new();
    let mut i: usize = 0;
    while i < devices.len()
        invariant
            block_totals@.len() == devices@.len(),
            i <= devices@.len(),
            r@.len() == i,
            forall|k: int|
                0 <= k < i ==> capacity_for(
                    devices@[k].device_name@,
                    block_totals@[k],
                    mounts@,
                    #[trigger] r@[k],
                ),
        decreases devices.len() - i,
    {
        match find_entry(mounts, &devices[i].device_name) {
            Some(j) => {
                proof {
                    lemma_entry_of_in_range(mounts@, devices@[i as int].device_name@, mounts@.len());
                }
                r.push(clone_capacity(&mounts[j].1));
            },
            None => {
                let total = match block_totals[i] {
                    Some(t) => t,
                    None => 0,
                };
                r.push(
                    DiskCapacity {
                        total_bytes: total,
                        used_bytes: 0,
                        available_bytes: 0,
                        mount_point: None,
                    },
                );
            },
        }
        i += 1;
    }
    r
}

/// Law: the first reading only sets the baseline: a collector that has
/// seen nothing gives no deltas.
pub proof fn lemma_first_reading_has_no_deltas(curr: Seq<DiskRawCounters>, n: nat)
    requires
        n <= curr.len(),
    ensures
        matched_devices(Seq::empty(), curr, n).len() == 0,
    decreases n,
{
    if n > 0 {
        lemma_first_reading_has_no_deltas(curr, (n - 1) as nat);
    }
}

/// Law: a delta counts completed requests, not merged ones: the write
/// count is how far the writes-completed counter (the eighth field of a
/// diskstats line) moved on, and the read count how far the reads-completed
/// counter moved on; a counter that went back (a reset) counts as no change.
pub proof fn lemma_delta_counts_completed_ios(d: DiskDelta, prev: DiskRawCounters, curr: DiskRawCounters)
    requires
        delta_of(d, prev, curr),
    ensures
        curr.writes_completed >= prev.writes_completed ==> prev.writes_completed + d.write_ios
            == curr.writes_completed,
        curr.writes_completed < prev.writes_completed ==> d.write_ios == 0,
        curr.reads_completed >= prev.reads_completed ==> prev.reads_completed + d.read_ios
            == curr.reads_completed,
        curr.reads_completed < prev.reads_completed ==> d.read_ios == 0,
        curr.sectors_written >= prev.sectors_written ==> prev.sectors_written + d.write_sectors
            == curr.sectors_written,
        curr.sectors_written < prev.sectors_written ==> d.write_sectors == 0,
        curr.sectors_read >= prev.sectors_read ==> prev.sectors_read + d.read_sectors
            == curr.sectors_read,
        curr.sectors_read < prev.sectors_read ==> d.read_sectors == 0,
        d.io_in_progress == curr.io_in_progress,
{
}

/// Law: of a diskstats line, the writes-completed counter is the eighth
/// field and the writes-merged counter the ninth; reads likewise the fourth
/// and fifth.
pub proof fn lemma_counter_fields(c: DiskRawCounters, fs: Seq<Seq<char>>)
    requires
        counters_from_fields(c, fs),
    ensures
        parse_u64_spec(fs[7]) matches Some(v) ==> c.writes_completed == v,
        parse_u64_spec(fs[7]) is None ==> c.writes_completed == 0,
        parse_u64_spec(fs[8]) matches Some(v) ==> c.writes_merged == v,
        parse_u64_spec(fs[3]) matches Some(v) ==> c.reads_completed == v,
        parse_u64_spec(fs[4]) matches Some(v) ==> c.reads_merged == v,
        parse_u64_spec(fs[9]) matches Some(v) ==> c.sectors_written == v,
        parse_u64_spec(fs[5]) matches Some(v) ==> c.sectors_read == v,
{
}

} // verus!
