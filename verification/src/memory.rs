//! System memory figures from /proc/meminfo.
use crate::cpu::sat_sub;
use crate::text::{chars_of, fields, has_prefix, lines, parse_u64, parse_u64_spec, split_fields, split_lines, starts_with};
use vstd::prelude::*;

verus! {

/// System memory statistics, in bytes.
#[derive(PartialEq, Eq, Structural, Clone, Copy, Debug)]
pub struct MemoryStats {
    pub total_bytes: u64,
    pub used_bytes: u64,
    pub free_bytes: u64,
    pub available_bytes: u64,
    pub buffers_bytes: u64,
    pub cached_bytes: u64,
    pub swap_total_bytes: u64,
    pub swap_used_bytes: u64,
    pub swap_free_bytes: u64,
}

/// Collects memory statistics; it keeps nothing between readings.
pub struct MemoryCollector;

impl MemoryCollector {
    pub fn new() -> Self {
        MemoryCollector
    }
}

/// The number in the second field of a /proc/meminfo line (kB).
pub open spec fn kb_number(line: Seq<char>) -> Option<u64> {
    let fs = fields(line);
    if fs.len() >= 2 {
        parse_u64_spec(fs[1])
    } else {
        None
    }
}

/// The kB number of a line fits in 64 bits once turned into bytes.
pub open spec fn kb_fits(line: Seq<char>) -> bool {
    kb_number(line) matches Some(kb) ==> kb * 1024 <= u64::MAX
}

pub open spec fn kb_value_spec(line: Seq<char>) -> Option<u64> {
    match kb_number(line) {
        Some(kb) => Some((kb * 1024) as u64),
        None => None,
    }
}

fn kb_number_chars(line: &[char]) -> (r: Option<u64>)
    ensures
        r == kb_number(line@),
{
    let fs = split_fields(line);
    if fs.len() >= 2 {
        parse_u64(&fs[1])
    } else {
        None
    }
}

/// The byte value of a `Name:  <n> kB` line.
pub fn parse_kb_value(line: &str) -> (r: Option<u64>)
    requires
        kb_fits(line@),
    ensures
        r == kb_value_spec(line@),
{
    let c = chars_of(line);
    match kb_number_chars(&c) {
        Some(kb) => Some(kb * 1024),
        None => None,
    }
}

/// Whether the kB number of a line fits in 64 bits as bytes.
pub fn kb_value_fits(line: &str) -> (b: bool)
    ensures
        b == kb_fits(line@),
{
    let c = chars_of(line);
    match kb_number_chars(&c) {
        Some(kb) => kb <= u64::MAX / 1024,
        None => true,
    }
}

/// The seven figures read from /proc/meminfo, in bytes.
pub ghost struct MemInfoFigures {
    pub total: u64,
    pub free: u64,
    pub available: u64,
    pub buffers: u64,
    pub cached: u64,
    pub swap_total: u64,
    pub swap_free: u64,
}

pub open spec fn no_figures() -> MemInfoFigures {
    MemInfoFigures {
        total: 0,
        free: 0,
        available: 0,
        buffers: 0,
        cached: 0,
        swap_total: 0,
        swap_free: 0,
    }
}

/// The figures after one more line: a line with a number sets the figure
/// its name starts with; other lines change nothing.
pub open spec fn meminfo_line(f: MemInfoFigures, line: Seq<char>) -> MemInfoFigures {
    match kb_value_spec(line) {
        None => f,
        Some(v) => if starts_with(line, "MemTotal:"@) {
            MemInfoFigures { total: v, ..f }
        } else if starts_with(line, "MemFree:"@) {
            MemInfoFigures { free: v, ..f }
        } else if starts_with(line, "MemAvailable:"@) {
            MemInfoFigures { available: v, ..f }
        } else if starts_with(line, "Buffers:"@) {
            MemInfoFigures { buffers: v, ..f }
        } else if starts_with(line, "Cached:"@) {
            MemInfoFigures { cached: v, ..f }
        } else if starts_with(line, "SwapTotal:"@) {
            MemInfoFigures { swap_total: v, ..f }
        } else if starts_with(line, "SwapFree:"@) {
            MemInfoFigures { swap_free: v, ..f }
        } else {
            f
        },
    }
}

pub open spec fn meminfo_fold(ls: Seq<Seq<char>>, f: MemInfoFigures) -> MemInfoFigures
    decreases ls.len(),
{
    if ls.len() == 0 {
        f
    } else {
        meminfo_fold(ls.drop_first(), meminfo_line(f, ls[0]))
    }
}

/// Every line's kB number fits in 64 bits as bytes.
pub open spec fn meminfo_fits(content: Seq<char>) -> bool {
    forall|k: int| 0 <= k < lines(content).len() ==> kb_fits(#[trigger] lines(content)[k])
}

/// Memory statistics from the figures: used memory is total less free,
/// buffers and cache; swap used is swap total less swap free (saturating).
pub open spec fn stats_from(f: MemInfoFigures) -> MemoryStats {
    MemoryStats {
        total_bytes: f.total,
        used_bytes: sat_sub(sat_sub(sat_sub(f.total, f.free), f.buffers), f.cached),
        free_bytes: f.free,
        available_bytes: f.available,
        buffers_bytes: f.buffers,
        cached_bytes: f.cached,
        swap_total_bytes: f.swap_total,
        swap_used_bytes: sat_sub(f.swap_total, f.swap_free),
        swap_free_bytes: f.swap_free,
    }
}

pub open spec fn meminfo_spec(content: Seq<char>) -> MemoryStats {
    stats_from(meminfo_fold(lines(content), no_figures()))
}

/// Whether every line of the text has a kB number that fits as bytes.
pub fn meminfo_values_fit(content: &str) -> (b: bool)
    ensures
        b == meminfo_fits(content@),
{
    let chars = chars_of(content);
    let ls = split_lines(&chars);
    let mut i: usize = 0;
    while i < ls.len()
        invariant
            ls@.len() == lines(content@).len(),
            forall|k: int| 0 <= k < ls@.len() ==> #[trigger] ls@[k]@ == lines(content@)[k],
            i <= ls@.len(),
            forall|k: int| 0 <= k < i ==> kb_fits(#[trigger] lines(content@)[k]),
        decreases ls.len() - i,
    {
        let ok = match kb_number_chars(&ls[i]) {
            Some(kb) => kb <= u64::MAX / 1024,
            None => true,
        };
        if !ok {
            assert(!kb_fits(lines(content@)[i as int]));
            return false;
        }
        i += 1;
    }
    true
}

/// Reads memory statistics from the text of /proc/meminfo.
pub fn parse_meminfo(content: &str) -> (r: MemoryStats)
    requires
        meminfo_fits(content@),
    ensures
        r == meminfo_spec(content@),
{
    let chars = chars_of(content);
    let ls = split_lines(&chars);
    let ghost all = lines(content@);
    let mut total: u64 = 0;
    let mut free: u64 = 0;
    let mut available: u64 = 0;
    let mut buffers: u64 = 0;
    let mut cached: u64 = 0;
    let mut swap_total: u64 = 0;
    let mut swap_free: u64 = 0;
    let p_total = chars_of("MemTotal:");
    let p_free = chars_of("MemFree:");
    let p_avail = chars_of("MemAvailable:");
    let p_buffers = chars_of("Buffers:");
    let p_cached = chars_of("Cached:");
    let p_swap_total = chars_of("SwapTotal:");
    let p_swap_free = chars_of("SwapFree:");
    let mut i: usize = 0;
    assert(all.skip(0) =~= all);
    while i < ls.len()
        invariant
            ls@.len() == all.len(),
            forall|k: int| 0 <= k < ls@.len() ==> #[trigger] ls@[k]@ == all[k],
            all == lines(content@),
            meminfo_fits(content@),
            i <= ls@.len(),
            p_total@ == "MemTotal:"@,
            p_free@ == "MemFree:"@,
            p_avail@ == "MemAvailable:"@,
            p_buffers@ == "Buffers:"@,
            p_cached@ == "Cached:"@,
            p_swap_total@ == "SwapTotal:"@,
            p_swap_free@ == "SwapFree:"@,
            meminfo_fold(all, no_figures()) == meminfo_fold(
                all.skip(i as int),
                MemInfoFigures {
                    total,
                    free,
                    available,
                    buffers,
                    cached,
                    swap_total,
                    swap_free,
                },
            ),
        decreases ls.len() - i,
    {
        let ghost rest = all.skip(i as int);
        assert(rest[0] == ls@[i as int]@);
        assert(rest.drop_first() =~= all.skip(i + 1));
        let line = &ls[i];
        assert(kb_fits(all[i as int]));
        if let Some(kb) = kb_number_chars(line) {
            let val = kb * 1024;
            if has_prefix(line, &p_total) {
                total = val;
            } else if has_prefix(line, &p_free) {
                free = val;
            } else if has_prefix(line, &p_avail) {
                available = val;
            } else if has_prefix(line, &p_buffers) {
                buffers = val;
            } else if has_prefix(line, &p_cached) {
                cached = val;
            } else if has_prefix(line, &p_swap_total) {
                swap_total = val;
            } else if has_prefix(line, &p_swap_free) {
                swap_free = val;
            }
        }
        i += 1;
    }
    let used = total.saturating_sub(free).saturating_sub(buffers).saturating_sub(cached);
    MemoryStats {
        total_bytes: total,
        used_bytes: used,
        free_bytes: free,
        available_bytes: available,
        buffers_bytes: buffers,
        cached_bytes: cached,
        swap_total_bytes: swap_total,
        swap_used_bytes: swap_total.saturating_sub(swap_free),
        swap_free_bytes: swap_free,
    }
}

/// Law: used memory never exceeds total memory, and swap used never
/// exceeds swap total.
pub proof fn lemma_used_within_total(f: MemInfoFigures)
    ensures
        stats_from(f).used_bytes <= stats_from(f).total_bytes,
        stats_from(f).swap_used_bytes <= stats_from(f).swap_total_bytes,
{
}

} // verus!
