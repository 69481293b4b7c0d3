//! Which sysfs power sources describe the CPU, and how their readings
//! (in microwatts) are chosen and summed.
use crate::cpu::sat_add;
use crate::text::{
    ascii_lowercase, chars_of, contains, eq_ignore_ascii_case, equal_ignoring_ascii_case,
    has_prefix, has_substring, parse_u32, parse_u32_spec, starts_with, to_ascii_lowercase, trim,
    trim_chars, chars_equal,
};
use crate::order::{lemma_text_le_total, lemma_text_le_transitive, sort_by_key, sorted_by_key, str_le, text_le, SortKey};
use crate::cpu::PowerEnergyCounter;
use vstd::prelude::*;

verus! {

/// A name as the power code compares it: trimmed, ASCII-lower-cased.
pub open spec fn normalized(s: Seq<char>) -> Seq<char> {
    ascii_lowercase(trim(s))
}

fn normalize(s: &str) -> (r: Vec<char>)
    ensures
        r@ == normalized(s@),
{
    let c = chars_of(s);
    let t = trim_chars(&c);
    to_ascii_lowercase(&t)
}

/// Rank of a powercap domain by its name: 0 for a CPU package (or socket,
/// die, cpu) domain, 1 for a platform domain, none for others.
pub open spec fn domain_rank_spec(name: Seq<char>) -> Option<u8> {
    let l = normalized(name);
    if starts_with(l, "package-"@) || contains(l, "package"@) || contains(l, "socket"@) || contains(
        l,
        "pkg"@,
    ) || starts_with(l, "die-"@) || contains(l, "cpu"@) {
        Some(0)
    } else if l == "psys"@ || contains(l, "platform"@) {
        Some(1)
    } else {
        None
    }
}

pub fn powercap_domain_rank(name: &str) -> (r: Option<u8>)
    ensures
        r == domain_rank_spec(name@),
{
    let l = normalize(name);
    if has_prefix(&l, &chars_of("package-")) || has_substring(&l, &chars_of("package"))
        || has_substring(&l, &chars_of("socket")) || has_substring(&l, &chars_of("pkg"))
        || has_prefix(&l, &chars_of("die-")) || has_substring(&l, &chars_of("cpu")) {
        Some(0)
    } else if chars_equal(&l, &chars_of("psys")) || has_substring(&l, &chars_of("platform")) {
        Some(1)
    } else {
        None
    }
}

/// Kind of hwmon power reading.
#[derive(PartialEq, Eq, Structural, Clone, Copy, Debug)]
pub enum HwmonPowerMetricKind {
    Average,
    Input,
}

/// Position of the first `_` in `s`.
pub open spec fn underscore_pos(s: Seq<char>) -> Option<int>
    decreases s.len(),
{
    if s.len() == 0 {
        None
    } else if s[0] == '_' {
        Some(0)
    } else {
        match underscore_pos(s.drop_first()) {
            Some(p) => Some(p + 1),
            None => None,
        }
    }
}

/// The sensor number and kind of an hwmon file named `power<N>_average` or
/// `power<N>_input`.
pub open spec fn power_metric_spec(name: Seq<char>) -> Option<(u32, HwmonPowerMetricKind)> {
    if !starts_with(name, "power"@) {
        None
    } else {
        let rest = name.skip(5);
        match underscore_pos(rest) {
            None => None,
            Some(p) => {
                let index = rest.take(p);
                let suffix = rest.skip(p + 1);
                match parse_u32_spec(index) {
                    None => None,
                    Some(n) => if suffix == "average"@ {
                        Some((n, HwmonPowerMetricKind::Average))
                    } else if suffix == "input"@ {
                        Some((n, HwmonPowerMetricKind::Input))
                    } else {
                        None
                    },
                }
            },
        }
    }
}

proof fn lemma_underscore_pos(s: Seq<char>, p: int)
    requires
        0 <= p < s.len(),
        s[p] == '_',
        forall|k: int| 0 <= k < p ==> #[trigger] s[k] != '_',
    ensures
        underscore_pos(s) == Some(p),
    decreases p,
{
    if p > 0 {
        let t = s.drop_first();
        assert forall|k: int| 0 <= k < p - 1 implies #[trigger] t[k] != '_' by {
            assert(t[k] == s[k + 1]);
        }
        lemma_underscore_pos(t, p - 1);
    }
}

proof fn lemma_no_underscore(s: Seq<char>)
    requires
        forall|k: int| 0 <= k < s.len() ==> #[trigger] s[k] != '_',
    ensures
        underscore_pos(s) is None,
    decreases s.len(),
{
    if s.len() > 0 {
        let t = s.drop_first();
        assert forall|k: int| 0 <= k < t.len() implies #[trigger] t[k] != '_' by {
            assert(t[k] == s[k + 1]);
        }
        lemma_no_underscore(t);
    }
}

/// Reads the sensor number and kind from an hwmon file name.
pub fn parse_power_metric_filename(file_name: &str) -> (r: Option<(u32, HwmonPowerMetricKind)>)
    ensures
        r == power_metric_spec(file_name@),
{
    let name = chars_of(file_name);
    proof {
        reveal_strlit("power");
    }
    if !has_prefix(&name, &chars_of("power")) {
        return None;
    }
    let ghost rest = name@.skip(5);
    let mut p: usize = 5;
    while p < name.len() && name[p] != '_'
        invariant
            5 <= p <= name@.len(),
            rest == name@.skip(5),
            forall|k: int| 5 <= k < p ==> #[trigger] name@[k] != '_',
        decreases name.len() - p,
    {
        p += 1;
    }
    if p == name.len() {
        proof {
            assert forall|k: int| 0 <= k < rest.len() implies #[trigger] rest[k] != '_' by {
                assert(rest[k] == name@[k + 5]);
            }
            lemma_no_underscore(rest);
        }
        return None;
    }
    proof {
        assert forall|k: int| 0 <= k < p - 5 implies #[trigger] rest[k] != '_' by {
            assert(rest[k] == name@[k + 5]);
        }
        lemma_underscore_pos(rest, p - 5);
    }
    let mut index: Vec<char> = Vec::new();
    let mut i: usize = 5;
    while i < p
        invariant
            5 <= i <= p < name@.len(),
            index@ == name@.subrange(5, i as int),
        decreases p - i,
    {
        index.push(name[i]);
        assert(name@.subrange(5, i + 1) =~= name@.subrange(5, i as int).push(name@[i as int]));
        i += 1;
    }
    let mut suffix: Vec<char> = Vec::new();
    let mut j: usize = p + 1;
    while j < name.len()
        invariant
            p + 1 <= j <= name@.len(),
            suffix@ == name@.subrange(p + 1, j as int),
        decreases name.len() - j,
    {
        suffix.push(name[j]);
        assert(name@.subrange(p + 1, j + 1) =~= name@.subrange(p + 1, j as int).push(
            name@[j as int],
        ));
        j += 1;
    }
    assert(index@ =~= rest.take(p - 5));
    assert(suffix@ =~= rest.skip(p - 5 + 1));
    let n = match parse_u32(&index) {
        Some(n) => n,
        None => {
            return None;
        },
    };
    if chars_equal(&suffix, &chars_of("average")) {
        Some((n, HwmonPowerMetricKind::Average))
    } else if chars_equal(&suffix, &chars_of("input")) {
        Some((n, HwmonPowerMetricKind::Input))
    } else {
        None
    }
}

/// A label naming CPU power: it mentions cpu, package, pkg, socket or soc.
pub open spec fn cpu_power_label_spec(label: Seq<char>) -> bool {
    let l = normalized(label);
    contains(l, "cpu"@) || contains(l, "package"@) || contains(l, "pkg"@) || contains(
        l,
        "socket"@,
    ) || contains(l, "soc"@)
}

pub fn is_cpu_power_label(label: &str) -> (b: bool)
    ensures
        b == cpu_power_label_spec(label@),
{
    let l = normalize(label);
    has_substring(&l, &chars_of("cpu")) || has_substring(&l, &chars_of("package"))
        || has_substring(&l, &chars_of("pkg")) || has_substring(&l, &chars_of("socket"))
        || has_substring(&l, &chars_of("soc"))
}

/// An hwmon driver name of a CPU sensor chip.
pub open spec fn cpu_hwmon_name_spec(name: Seq<char>) -> bool {
    let l = normalized(name);
    contains(l, "coretemp"@) || contains(l, "k10temp"@) || contains(l, "zenpower"@) || contains(
        l,
        "fam15h_power"@,
    ) || contains(l, "cpu"@)
}

pub fn is_cpu_hwmon_name(name: &str) -> (b: bool)
    ensures
        b == cpu_hwmon_name_spec(name@),
{
    let l = normalize(name);
    has_substring(&l, &chars_of("coretemp")) || has_substring(&l, &chars_of("k10temp"))
        || has_substring(&l, &chars_of("zenpower")) || has_substring(&l, &chars_of("fam15h_power"))
        || has_substring(&l, &chars_of("cpu"))
}

pub open spec fn label_matches_spec(label: Seq<char>, expected: Seq<char>) -> bool {
    eq_ignore_ascii_case(trim(label), expected)
}

/// The trimmed label equals `expected` up to ASCII case.
pub fn hwmon_label_matches(label: &str, expected: &str) -> (b: bool)
    ensures
        b == label_matches_spec(label@, expected@),
{
    let c = chars_of(label);
    let t = trim_chars(&c);
    let e = chars_of(expected);
    equal_ignoring_ascii_case(&t, &e)
}

// ---------------------------------------------------------------------
// Choosing among hwmon readings
// ---------------------------------------------------------------------

/// One hwmon power reading: sensor number, kind, value in microwatts, and
/// the sensor's label when it has one.
#[derive(Debug, Clone)]
pub struct HwmonPowerCandidate {
    pub index: u32,
    pub kind: HwmonPowerMetricKind,
    pub microwatts: u64,
    pub label: Option<String>,
}

/// A Grace-style CPU cluster label: `cpu_p` or `cpu_e`.
pub open spec fn cluster_label(l: Seq<char>) -> bool {
    label_matches_spec(l, "cpu_p"@) || label_matches_spec(l, "cpu_e"@)
}

/// Saturating sum of the readings among the first `n` whose label passes
/// `pred` (readings without a label never pass).
pub open spec fn labeled_sum(
    cs: Seq<HwmonPowerCandidate>,
    n: nat,
    pred: spec_fn(Seq<char>) -> bool,
) -> u64
    decreases n,
{
    if n == 0 {
        0
    } else {
        let before = labeled_sum(cs, (n - 1) as nat, pred);
        match cs[n - 1].label {
            Some(l) => if pred(l@) {
                sat_add(before, cs[n - 1].microwatts)
            } else {
                before
            },
            None => before,
        }
    }
}

pub open spec fn positive(v: u64) -> Option<u64> {
    if v > 0 {
        Some(v)
    } else {
        None
    }
}

/// On Grace (DGX Spark) the CPU draw is the sum of the `cpu_p` and `cpu_e`
/// clusters, when that is positive.
pub open spec fn spark_power_spec(cs: Seq<HwmonPowerCandidate>) -> Option<u64> {
    positive(labeled_sum(cs, cs.len(), |l: Seq<char>| cluster_label(l)))
}

/// The CPU draw an hwmon device reports: the Grace cluster sum, else the
/// sum of readings with a CPU label, else — for a CPU sensor chip — its
/// first reading.
pub open spec fn hwmon_power_spec(name: Seq<char>, cs: Seq<HwmonPowerCandidate>) -> Option<u64> {
    match spark_power_spec(cs) {
        Some(w) => Some(w),
        None => {
            let labeled = labeled_sum(cs, cs.len(), |l: Seq<char>| cpu_power_label_spec(l));
            if labeled > 0 {
                Some(labeled)
            } else if cpu_hwmon_name_spec(name) && cs.len() > 0 {
                Some(cs[0].microwatts)
            } else {
                None
            }
        },
    }
}

fn cluster_label_exec(l: &String) -> (b: bool)
    ensures
        b == cluster_label(l@),
{
    hwmon_label_matches(l.as_str(), "cpu_p") || hwmon_label_matches(l.as_str(), "cpu_e")
}

fn spark_sum(cs: &[HwmonPowerCandidate]) -> (r: u64)
    ensures
        r == labeled_sum(cs@, cs@.len(), |l: Seq<char>| cluster_label(l)),
{
    let ghost pred = |l: Seq<char>| cluster_label(l);
    let mut sum: u64 = 0;
    let mut i: usize = 0;
    while i < cs.len()
        invariant
            i <= cs@.len(),
            sum == labeled_sum(cs@, i as nat, pred),
            forall|l: Seq<char>| #[trigger] pred(l) == cluster_label(l),
        decreases cs.len() - i,
    {
        match &cs[i].label {
            Some(l) => {
                if cluster_label_exec(l) {
                    sum = sum.saturating_add(cs[i].microwatts);
                }
            },
            None => {},
        }
        i += 1;
    }
    sum
}

fn cpu_label_sum(cs: &[HwmonPowerCandidate]) -> (r: u64)
    ensures
        r == labeled_sum(cs@, cs@.len(), |l: Seq<char>| cpu_power_label_spec(l)),
{
    let ghost pred = |l: Seq<char>| cpu_power_label_spec(l);
    let mut sum: u64 = 0;
    let mut i: usize = 0;
    while i < cs.len()
        invariant
            i <= cs@.len(),
            sum == labeled_sum(cs@, i as nat, pred),
            forall|l: Seq<char>| #[trigger] pred(l) == cpu_power_label_spec(l),
        decreases cs.len() - i,
    {
        match &cs[i].label {
            Some(l) => {
                if is_cpu_power_label(l.as_str()) {
                    sum = sum.saturating_add(cs[i].microwatts);
                }
            },
            None => {},
        }
        i += 1;
    }
    sum
}

/// The Grace cluster sum, when positive.
pub fn select_spark_hwmon_power(candidates: &[HwmonPowerCandidate]) -> (r: Option<u64>)
    ensures
        r == spark_power_spec(candidates@),
{
    let sum = spark_sum(candidates);
    if sum > 0 {
        Some(sum)
    } else {
        None
    }
}

/// The CPU draw in microwatts that one hwmon device reports, if any.
pub fn select_hwmon_power(name: &str, candidates: &[HwmonPowerCandidate]) -> (r: Option<u64>)
    ensures
        r == hwmon_power_spec(name@, candidates@),
{
    if let Some(w) = select_spark_hwmon_power(candidates) {
        return Some(w);
    }
    let labeled = cpu_label_sum(candidates);
    if labeled > 0 {
        return Some(labeled);
    }
    if is_cpu_hwmon_name(name) && candidates.len() > 0 {
        return Some(candidates[0].microwatts);
    }
    None
}

/// Saturating sum of the readings that were found among the first `n`,
/// and whether any was.
pub open spec fn readings_fold(rs: Seq<Option<u64>>, n: nat) -> (u64, bool)
    decreases n,
{
    if n == 0 {
        (0, false)
    } else {
        let (t, found) = readings_fold(rs, (n - 1) as nat);
        match rs[n - 1] {
            Some(v) => (sat_add(t, v), true),
            None => (t, found),
        }
    }
}

/// Sum of the readings that were found (saturating), or `None` if none was.
pub fn sum_readings(readings: &[Option<u64>]) -> (r: Option<u64>)
    ensures
        r == if readings_fold(readings@, readings@.len()).1 {
            Some(readings_fold(readings@, readings@.len()).0)
        } else {
            None
        },
{
    let mut total: u64 = 0;
    let mut found = false;
    let mut i: usize = 0;
    while i < readings.len()
        invariant
            i <= readings@.len(),
            readings_fold(readings@, i as nat) == (total, found),
        decreases readings.len() - i,
    {
        if let Some(v) = readings[i] {
            total = total.saturating_add(v);
            found = true;
        }
        i += 1;
    }
    if found {
        Some(total)
    } else {
        None
    }
}

// ---------------------------------------------------------------------
// Ordering of powercap domains, energy counters and hwmon readings
// ---------------------------------------------------------------------

impl SortKey for String {
    open spec fn key_le(&self, other: &Self) -> bool {
        text_le(self@, other@)
    }

    proof fn lemma_key_total(a: &Self, b: &Self) {
        lemma_text_le_total(a@, b@);
    }

    proof fn lemma_key_transitive(a: &Self, b: &Self, c: &Self) {
        lemma_text_le_transitive(a@, b@, c@);
    }

    fn le(&self, other: &Self) -> (r: bool) {
        str_le(self.as_str(), other.as_str())
    }
}

impl SortKey for PowerEnergyCounter {
    open spec fn key_le(&self, other: &Self) -> bool {
        text_le(self.key@, other.key@)
    }

    proof fn lemma_key_total(a: &Self, b: &Self) {
        lemma_text_le_total(a.key@, b.key@);
    }

    proof fn lemma_key_transitive(a: &Self, b: &Self, c: &Self) {
        lemma_text_le_transitive(a.key@, b.key@, c.key@);
    }

    fn le(&self, other: &Self) -> (r: bool) {
        str_le(self.key.as_str(), other.key.as_str())
    }
}

pub open spec fn kind_rank(k: HwmonPowerMetricKind) -> int {
    match k {
        HwmonPowerMetricKind::Average => 0,
        HwmonPowerMetricKind::Input => 1,
    }
}

/// Hwmon readings are ordered by sensor number, then average before input.
impl SortKey for HwmonPowerCandidate {
    open spec fn key_le(&self, other: &Self) -> bool {
        self.index < other.index || (self.index == other.index && kind_rank(self.kind)
            <= kind_rank(other.kind))
    }

    proof fn lemma_key_total(a: &Self, b: &Self) {
    }

    proof fn lemma_key_transitive(a: &Self, b: &Self, c: &Self) {
    }

    fn le(&self, other: &Self) -> (r: bool) {
        let ka: u8 = match self.kind {
            HwmonPowerMetricKind::Average => 0,
            HwmonPowerMetricKind::Input => 1,
        };
        let kb: u8 = match other.kind {
            HwmonPowerMetricKind::Average => 0,
            HwmonPowerMetricKind::Input => 1,
        };
        self.index < other.index || (self.index == other.index && ka <= kb)
    }
}

/// A powercap domain directory and the rank of its name.
#[derive(Debug, Clone)]
pub struct RankedDomain {
    pub rank: u8,
    pub path: String,
}

/// The lowest rank among the first `n` domains.
pub open spec fn best_rank(ds: Seq<RankedDomain>, n: nat) -> Option<u8>
    decreases n,
{
    if n == 0 {
        None
    } else {
        match best_rank(ds, (n - 1) as nat) {
            Some(r) => if ds[n - 1].rank < r {
                Some(ds[n - 1].rank)
            } else {
                Some(r)
            },
            None => Some(ds[n - 1].rank),
        }
    }
}

/// The paths, in order, of the domains that have rank `rank`.
pub open spec fn paths_with_rank(ds: Seq<RankedDomain>, rank: u8) -> Seq<String>
    decreases ds.len(),
{
    if ds.len() == 0 {
        Seq::empty()
    } else {
        let rest = paths_with_rank(ds.drop_first(), rank);
        if ds[0].rank == rank {
            seq![ds[0].path] + rest
        } else {
            rest
        }
    }
}

/// The domains to read: those of the best rank, ordered by path.
pub fn best_ranked_domains(ranked: Vec<RankedDomain>) -> (r: Vec<String>)
    ensures
        sorted_by_key(r@),
        r@.to_multiset() == match best_rank(ranked@, ranked@.len()) {
            Some(b) => paths_with_rank(ranked@, b),
            None => Seq::<String>::empty(),
        }.to_multiset(),
{
    let mut best: Option<u8> = None;
    let mut i: usize = 0;
    while i < ranked.len()
        invariant
            i <= ranked@.len(),
            best == best_rank(ranked@, i as nat),
        decreases ranked.len() - i,
    {
        best = match best {
            Some(b) => if ranked[i].rank < b {
                Some(ranked[i].rank)
            } else {
                Some(b)
            },
            None => Some(ranked[i].rank),
        };
        i += 1;
    }
    let b = match best {
        Some(b) => b,
        None => {
            return Vec::new();
        },
    };
    let ghost all = ranked@;
    let mut rest = ranked;
    let mut chosen: Vec<String> = Vec::new();
    while rest.len() > 0
        invariant
            chosen@ + paths_with_rank(rest@, b) == paths_with_rank(all, b),
        decreases rest@.len(),
    {
        let ghost before = rest@;
        let d = rest.remove(0);
        assert(rest@ =~= before.drop_first());
        if d.rank == b {
            assert(chosen@.push(d.path) + paths_with_rank(rest@, b) =~= chosen@ + paths_with_rank(
                before,
                b,
            ));
            chosen.push(d.path);
        }
    }
    assert(chosen@ + Seq::<String>::empty() =~= chosen@);
    sort_by_key(chosen)
}

/// Law: a CPU package domain always outranks a platform domain, and a
/// domain is ranked only if it is one of the two.
pub proof fn lemma_package_outranks_platform(name: Seq<char>)
    ensures
        domain_rank_spec(name) matches Some(r) ==> r <= 1,
        contains(normalized(name), "package"@) ==> domain_rank_spec(name) == Some(0u8),
{
}

} // verus!
