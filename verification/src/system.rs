//! Static facts about the machine, and small readings of /proc and /etc
//! files that need no floating point.
use crate::text::{
    chars_of, contains, decimal, fields, has_prefix, lines, parse_u32, parse_u32_spec, push_decimal, push_str,
    split_fields, split_lines, starts_with, string_from_chars, to_lowercase, trim, trim_chars,
    unicode_lowercase, has_substring,
};
use vstd::prelude::*;

verus! {

/// Static system information gathered once at startup.
#[derive(Debug, Clone)]
pub struct SystemInfo {
    pub hostname: String,
    pub kernel_version: String,
    pub os_name: String,
    pub architecture: String,
    pub uptime_seconds: u64,
    pub gpu_driver_version: Option<String>,
    pub cuda_version: Option<String>,
    pub gpu_count: u32,
}

/// Uptime as days, hours and minutes, leaving out leading zero units:
/// `3d 4h 5m`, `4h 5m` or `5m`.
pub open spec fn uptime_text(secs: nat) -> Seq<char> {
    let days = secs / 86400;
    let hours = (secs % 86400) / 3600;
    let minutes = (secs % 3600) / 60;
    if days > 0 {
        decimal(days) + "d "@ + decimal(hours) + "h "@ + decimal(minutes) + "m"@
    } else if hours > 0 {
        decimal(hours) + "h "@ + decimal(minutes) + "m"@
    } else {
        decimal(minutes) + "m"@
    }
}

impl SystemInfo {
    pub fn uptime_display(&self) -> (r: String)
        ensures
            r@ == uptime_text(self.uptime_seconds as nat),
    {
        let secs = self.uptime_seconds;
        let days = secs / 86400;
        let hours = (secs % 86400) / 3600;
        let minutes = (secs % 3600) / 60;
        let mut out: Vec<char> = Vec::new();
        if days > 0 {
            push_decimal(days, &mut out);
            push_str(&mut out, "d ");
            push_decimal(hours, &mut out);
            push_str(&mut out, "h ");
            push_decimal(minutes, &mut out);
            push_str(&mut out, "m");
        } else if hours > 0 {
            push_decimal(hours, &mut out);
            push_str(&mut out, "h ");
            push_decimal(minutes, &mut out);
            push_str(&mut out, "m");
        } else {
            push_decimal(minutes, &mut out);
            push_str(&mut out, "m");
        }
        assert(out@ =~= uptime_text(secs as nat));
        string_from_chars(&out)
    }
}

/// The third whitespace-separated field of /proc/version: the kernel
/// release.
pub open spec fn kernel_version_spec(text: Seq<char>) -> Option<Seq<char>> {
    if fields(text).len() > 2 {
        Some(fields(text)[2])
    } else {
        None
    }
}

pub fn kernel_version_from(text: &str) -> (r: Option<String>)
    ensures
        match (r, kernel_version_spec(text@)) {
            (Some(s), Some(t)) => s@ == t,
            (None, None) => true,
            _ => false,
        },
{
    let fs = split_fields(&chars_of(text));
    if fs.len() > 2 {
        Some(string_from_chars(&fs[2]))
    } else {
        None
    }
}

/// `s` with every leading copy of `p` removed (`str::trim_start_matches`).
pub open spec fn strip_leading(s: Seq<char>, p: Seq<char>) -> Seq<char>
    decreases s.len(),
{
    if p.len() > 0 && starts_with(s, p) {
        strip_leading(s.skip(p.len() as int), p)
    } else {
        s
    }
}

/// `s` without `"` at either end (`str::trim_matches('"')`).
pub open spec fn strip_quotes(s: Seq<char>) -> Seq<char>
    decreases s.len(),
{
    if s.len() > 0 && s[0] == '"' {
        strip_quotes(s.drop_first())
    } else if s.len() > 0 && s.last() == '"' {
        strip_quotes(s.drop_last())
    } else {
        s
    }
}

/// The operating system's name: the value of the first `PRETTY_NAME=` line
/// of /etc/os-release, unquoted.
pub open spec fn os_name_in(ls: Seq<Seq<char>>) -> Option<Seq<char>>
    decreases ls.len(),
{
    if ls.len() == 0 {
        None
    } else if starts_with(ls[0], "PRETTY_NAME="@) {
        Some(strip_quotes(strip_leading(ls[0], "PRETTY_NAME="@)))
    } else {
        os_name_in(ls.drop_first())
    }
}

fn strip_leading_exec(s: &Vec<char>, p: &Vec<char>) -> (r: Vec<char>)
    ensures
        r@ == strip_leading(s@, p@),
{
    let mut i: usize = 0;
    let n = s.len();
    assert(s@.skip(0) =~= s@);
    if p.len() == 0 {
        return s.clone();
    }
    while n - i >= p.len() && has_prefix_at(s, i, p)
        invariant
            i <= n,
            n == s@.len(),
            p@.len() > 0,
            strip_leading(s@, p@) == strip_leading(s@.skip(i as int), p@),
        decreases n - i,
    {
        assert(s@.skip(i as int).skip(p@.len() as int) =~= s@.skip(i + p@.len()));
        i += p.len();
    }
    let mut r: Vec<char> = Vec::new();
    let mut k = i;
    while k < n
        invariant
            i <= k <= n,
            n == s@.len(),
            r@ == s@.subrange(i as int, k as int),
        decreases n - k,
    {
        r.push(s[k]);
        assert(s@.subrange(i as int, k + 1) =~= s@.subrange(i as int, k as int).push(s@[k as int]));
        k += 1;
    }
    assert(r@ =~= s@.skip(i as int));
    r
}

fn has_prefix_at(s: &Vec<char>, i: usize, p: &Vec<char>) -> (b: bool)
    requires
        i <= s@.len(),
    ensures
        b == starts_with(s@.skip(i as int), p@),
{
    if s.len() - i < p.len() {
        return false;
    }
    let mut k: usize = 0;
    while k < p.len()
        invariant
            i + p@.len() <= s@.len(),
            s@.len() == s.len(),
            p@.len() == p.len(),
            k <= p@.len(),
            forall|m: int| 0 <= m < k ==> s@[i + m] == p@[m],
        decreases p.len() - k,
    {
        if s[i + k] != p[k] {
            assert(s@.skip(i as int).take(p@.len() as int)[k as int] != p@[k as int]);
            return false;
        }
        k += 1;
    }
    assert(s@.skip(i as int).take(p@.len() as int) =~= p@);
    true
}

fn strip_quotes_exec(s: &Vec<char>) -> (r: Vec<char>)
    ensures
        r@ == strip_quotes(s@),
{
    let mut lo: usize = 0;
    let mut hi: usize = s.len();
    assert(s@.subrange(0, s@.len() as int) =~= s@);
    while lo < hi && (s[lo] == '"' || s[hi - 1] == '"')
        invariant
            lo <= hi <= s@.len(),
            strip_quotes(s@) == strip_quotes(s@.subrange(lo as int, hi as int)),
        decreases hi - lo,
    {
        let ghost t = s@.subrange(lo as int, hi as int);
        if s[lo] == '"' {
            assert(t.drop_first() =~= s@.subrange(lo + 1, hi as int));
            lo += 1;
        } else {
            assert(t.drop_last() =~= s@.subrange(lo as int, hi - 1));
            hi -= 1;
        }
    }
    let mut r: Vec<char> = Vec::new();
    let mut k = lo;
    while k < hi
        invariant
            lo <= k <= hi <= s@.len(),
            r@ == s@.subrange(lo as int, k as int),
        decreases hi - k,
    {
        r.push(s[k]);
        assert(s@.subrange(lo as int, k + 1) =~= s@.subrange(lo as int, k as int).push(s@[k as int]));
        k += 1;
    }
    r
}

/// The operating system's name from the text of /etc/os-release.
pub fn os_name_from(text: &str) -> (r: Option<String>)
    ensures
        match (r, os_name_in(lines(text@))) {
            (Some(s), Some(t)) => s@ == t,
            (None, None) => true,
            _ => false,
        },
{
    let chars = chars_of(text);
    let ls = split_lines(&chars);
    let ghost all = lines(text@);
    let key = chars_of("PRETTY_NAME=");
    let mut i: usize = 0;
    assert(all.skip(0) =~= all);
    while i < ls.len()
        invariant
            ls@.len() == all.len(),
            forall|k: int| 0 <= k < ls@.len() ==> #[trigger] ls@[k]@ == all[k],
            all == lines(text@),
            key@ == "PRETTY_NAME="@,
            i <= ls@.len(),
            os_name_in(all) == os_name_in(all.skip(i as int)),
        decreases ls.len() - i,
    {
        assert(all.skip(i as int)[0] == ls@[i as int]@);
        assert(all.skip(i as int).drop_first() =~= all.skip(i + 1));
        if has_prefix(&ls[i], &key) {
            let stripped = strip_leading_exec(&ls[i], &key);
            return Some(string_from_chars(&strip_quotes_exec(&stripped)));
        }
        i += 1;
    }
    None
}

/// Running and total task counts of /proc/loadavg (`3/500` in the fourth
/// field; 0 for a count that is not a number).
pub open spec fn task_counts_spec(text: Seq<char>) -> (u32, u32) {
    let fs = fields(text);
    if fs.len() < 4 {
        (0, 0)
    } else {
        match slash_pos(fs[3]) {
            None => (0, 0),
            Some(p) => (
                match parse_u32_spec(fs[3].take(p)) {
                    Some(v) => v,
                    None => 0,
                },
                match parse_u32_spec(fs[3].skip(p + 1)) {
                    Some(v) => v,
                    None => 0,
                },
            ),
        }
    }
}

/// Position of the first `/`.
pub open spec fn slash_pos(s: Seq<char>) -> Option<int>
    decreases s.len(),
{
    if s.len() == 0 {
        None
    } else if s[0] == '/' {
        Some(0)
    } else {
        match slash_pos(s.drop_first()) {
            Some(p) => Some(p + 1),
            None => None,
        }
    }
}

proof fn lemma_slash_pos(s: Seq<char>, p: int)
    requires
        0 <= p <= s.len(),
        forall|k: int| 0 <= k < p ==> #[trigger] s[k] != '/',
        p == s.len() || s[p] == '/',
    ensures
        slash_pos(s) == if p == s.len() {
            None
        } else {
            Some(p)
        },
    decreases p,
{
    if p > 0 {
        let t = s.drop_first();
        assert forall|k: int| 0 <= k < p - 1 implies #[trigger] t[k] != '/' by {
            assert(t[k] == s[k + 1]);
        }
        if p - 1 < t.len() {
            assert(t[p - 1] == s[p]);
        }
        lemma_slash_pos(t, p - 1);
    }
}

fn parse_u32_or_zero(s: &[char]) -> (r: u32)
    ensures
        r == match parse_u32_spec(s@) {
            Some(v) => v,
            None => 0,
        },
{
    match parse_u32(s) {
        Some(v) => v,
        None => 0,
    }
}

pub fn parse_task_counts(text: &str) -> (r: (u32, u32))
    ensures
        r == task_counts_spec(text@),
{
    let fs = split_fields(&chars_of(text));
    if fs.len() < 4 {
        return (0, 0);
    }
    let f = &fs[3];
    let mut p: usize = 0;
    while p < f.len() && f[p] != '/'
        invariant
            p <= f@.len(),
            forall|k: int| 0 <= k < p ==> #[trigger] f@[k] != '/',
        decreases f.len() - p,
    {
        p += 1;
    }
    proof {
        lemma_slash_pos(f@, p as int);
    }
    if p == f.len() {
        return (0, 0);
    }
    let mut a: Vec<char> = Vec::new();
    let mut i: usize = 0;
    while i < p
        invariant
            i <= p < f@.len(),
            a@ == f@.take(i as int),
        decreases p - i,
    {
        a.push(f[i]);
        assert(f@.take(i + 1) =~= f@.take(i as int).push(f@[i as int]));
        i += 1;
    }
    let mut b: Vec<char> = Vec::new();
    let mut j: usize = p + 1;
    while j < f.len()
        invariant
            p + 1 <= j <= f@.len(),
            b@ == f@.subrange(p + 1, j as int),
        decreases f.len() - j,
    {
        b.push(f[j]);
        assert(f@.subrange(p + 1, j + 1) =~= f@.subrange(p + 1, j as int).push(f@[j as int]));
        j += 1;
    }
    assert(b@ =~= f@.skip(p + 1));
    (parse_u32_or_zero(&a), parse_u32_or_zero(&b))
}

/// A lower-cased thermal zone type that names a CPU sensor.
pub open spec fn cpu_zone_lowered(zone_type: Seq<char>) -> bool {
    contains(zone_type, "cpu"@) || contains(zone_type, "x86_pkg"@) || contains(zone_type, "coretemp"@)
        || contains(zone_type, "soc"@)
}

/// A thermal zone type that names a CPU sensor: its trimmed, lower-cased
/// text names one.
pub open spec fn cpu_thermal_zone_spec(zone_type: Seq<char>) -> bool {
    cpu_zone_lowered(unicode_lowercase(trim(zone_type)))
}

/// Whether a lower-cased thermal zone type names a CPU sensor.
pub fn names_cpu_zone(lowered: &str) -> (b: bool)
    ensures
        b == cpu_zone_lowered(lowered@),
{
    let l = chars_of(lowered);
    has_substring(&l, &chars_of("cpu")) || has_substring(&l, &chars_of("x86_pkg")) || has_substring(
        &l,
        &chars_of("coretemp"),
    ) || has_substring(&l, &chars_of("soc"))
}

pub fn is_cpu_thermal_zone(zone_type: &str) -> (b: bool)
    ensures
        b == cpu_thermal_zone_spec(zone_type@),
{
    let t = string_from_chars(&trim_chars(&chars_of(zone_type)));
    names_cpu_zone(to_lowercase(t.as_str()).as_str())
}

/// History length kept within 10..=10000 samples.
pub fn clamp_history_length(n: usize) -> (r: usize)
    ensures
        r == if n < 10 {
            10
        } else if n > 10000 {
            10000
        } else {
            n
        },
{
    if n < 10 {
        10
    } else if n > 10000 {
        10000
    } else {
        n
    }
}

} // verus!
