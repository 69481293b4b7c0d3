//! CPU time counters from `/proc/stat`, their parsing, and the collector
//! state that turns two successive readings into usage deltas.
use crate::error::{parse_error, DgxTopError};
use crate::text::{
    chars_of, decimal, decimal_chars, fields, has_prefix, lines, parse_u64, parse_u64_spec,
    split_fields, split_lines, starts_with,
};
use vstd::prelude::*;

verus! {

/// Saturating addition of counters.
pub open spec fn sat_add(a: u64, b: u64) -> u64 {
    if a + b > u64::MAX {
        u64::MAX
    } else {
        (a + b) as u64
    }
}

/// Saturating subtraction of counters.
pub open spec fn sat_sub(a: u64, b: u64) -> u64 {
    if a >= b {
        (a - b) as u64
    } else {
        0
    }
}

/// Raw CPU time counters of one `cpu` line of /proc/stat, in clock ticks.
#[derive(PartialEq, Eq, Structural, Clone, Copy, Debug)]
pub struct CpuTimeSample {
    pub user: u64,
    pub nice: u64,
    pub system: u64,
    pub idle: u64,
    pub iowait: u64,
    pub irq: u64,
    pub softirq: u64,
    pub steal: u64,
}

pub open spec fn zero_sample() -> CpuTimeSample {
    CpuTimeSample { user: 0, nice: 0, system: 0, idle: 0, iowait: 0, irq: 0, softirq: 0, steal: 0 }
}

impl Default for CpuTimeSample {
    fn default() -> (r: Self)
        ensures
            r == zero_sample(),
    {
        CpuTimeSample { user: 0, nice: 0, system: 0, idle: 0, iowait: 0, irq: 0, softirq: 0, steal: 0 }
    }
}

/// All time, saturating at the top of the range.
pub open spec fn sample_total(s: CpuTimeSample) -> u64 {
    sat_add(
        sat_add(
            sat_add(
                sat_add(sat_add(sat_add(sat_add(s.user, s.nice), s.system), s.idle), s.iowait),
                s.irq,
            ),
            s.softirq,
        ),
        s.steal,
    )
}

/// Busy time: all time but idle and I/O wait.
pub open spec fn sample_active(s: CpuTimeSample) -> u64 {
    sat_sub(sat_sub(sample_total(s), s.idle), s.iowait)
}

impl CpuTimeSample {
    pub fn total(&self) -> (r: u64)
        ensures
            r == sample_total(*self),
    {
        self.user.saturating_add(self.nice).saturating_add(self.system).saturating_add(
            self.idle,
        ).saturating_add(self.iowait).saturating_add(self.irq).saturating_add(
            self.softirq,
        ).saturating_add(self.steal)
    }

    pub fn active(&self) -> (r: u64)
        ensures
            r == sample_active(*self),
    {
        self.total().saturating_sub(self.idle).saturating_sub(self.iowait)
    }
}

/// Law: busy time never exceeds all time.
pub proof fn lemma_active_within_total(s: CpuTimeSample)
    ensures
        sample_active(s) <= sample_total(s),
{
}

// ---------------------------------------------------------------------
// Parsing
// ---------------------------------------------------------------------

/// A failed parse: the field that was wrong and the message.
pub type ParseFailure = (Seq<char>, Seq<char>);

/// The names of the counters in field order after the `cpu` label.
pub open spec fn counter_name(i: int) -> Seq<char> {
    if i == 1 {
        "user"@
    } else if i == 2 {
        "nice"@
    } else if i == 3 {
        "system"@
    } else if i == 4 {
        "idle"@
    } else if i == 5 {
        "iowait"@
    } else if i == 6 {
        "irq"@
    } else if i == 7 {
        "softirq"@
    } else {
        "steal"@
    }
}

/// The first of the counter fields `1..last` that is not a number.
pub open spec fn first_bad_counter(fs: Seq<Seq<char>>, last: int) -> Option<int>
    decreases last,
{
    if last < 1 {
        None
    } else {
        match first_bad_counter(fs, last - 1) {
            Some(i) => Some(i),
            None => if parse_u64_spec(fs[last]) is None {
                Some(last)
            } else {
                None
            },
        }
    }
}

pub open spec fn counter(fs: Seq<Seq<char>>, i: int) -> u64 {
    parse_u64_spec(fs[i])->0
}

/// What parsing the fields of a `cpu` line gives: an error for fewer than
/// eight fields or for the first counter that is not a number, else the
/// counters (steal is 0 when the line has no ninth field).
pub open spec fn cpu_line_spec(fs: Seq<Seq<char>>) -> Result<CpuTimeSample, ParseFailure> {
    let last = if fs.len() > 8 { 8 } else { 7 };
    if fs.len() < 8 {
        Err(("cpu"@, "expected at least 8 fields, got "@ + decimal(fs.len())))
    } else {
        match first_bad_counter(fs, last) {
            Some(i) => Err((counter_name(i), "invalid value: "@ + fs[i])),
            None => Ok(
                CpuTimeSample {
                    user: counter(fs, 1),
                    nice: counter(fs, 2),
                    system: counter(fs, 3),
                    idle: counter(fs, 4),
                    iowait: counter(fs, 5),
                    irq: counter(fs, 6),
                    softirq: counter(fs, 7),
                    steal: if fs.len() > 8 {
                        counter(fs, 8)
                    } else {
                        0
                    },
                },
            ),
        }
    }
}

/// The result matches what the spec says, errors compared by their text.
pub open spec fn sample_result_matches(
    r: Result<CpuTimeSample, DgxTopError>,
    s: Result<CpuTimeSample, ParseFailure>,
) -> bool {
    match (r, s) {
        (Ok(a), Ok(b)) => a == b,
        (Err(DgxTopError::Parse { field, message }), Err((f, m))) => field@ == f && message@ == m,
        _ => false,
    }
}

fn counter_field(fs: &Vec<Vec<char>>, i: usize, name: &str) -> (r: Result<u64, DgxTopError>)
    requires
        i < fs@.len(),
    ensures
        match r {
            Ok(v) => parse_u64_spec(fs@[i as int]@) == Some(v),
            Err(DgxTopError::Parse { field, message }) => parse_u64_spec(fs@[i as int]@) is None
                && field@ == name@ && message@ == "invalid value: "@ + fs@[i as int]@,
            _ => false,
        },
{
    match parse_u64(&fs[i]) {
        Some(v) => Ok(v),
        None => Err(parse_error(name, "invalid value: ", &fs[i])),
    }
}

/// Parses one `cpu` line of /proc/stat.
pub fn parse_cpu_line(line: &str) -> (r: Result<CpuTimeSample, DgxTopError>)
    ensures
        sample_result_matches(r, cpu_line_spec(fields(line@))),
{
    let chars = chars_of(line);
    let fs = split_fields(&chars);
    let ghost f = fields(line@);
    proof {
        reveal_with_fuel(first_bad_counter, 9);
    }
    assert(fs@.len() == f.len());
    assert(forall|k: int| 0 <= k < fs@.len() ==> fs@[k]@ == f[k]);
    if fs.len() < 8 {
        let n = decimal_chars(fs.len() as u64);
        return Err(parse_error("cpu", "expected at least 8 fields, got ", &n));
    }
    let user = counter_field(&fs, 1, "user")?;
    let nice = counter_field(&fs, 2, "nice")?;
    let system = counter_field(&fs, 3, "system")?;
    let idle = counter_field(&fs, 4, "idle")?;
    let iowait = counter_field(&fs, 5, "iowait")?;
    let irq = counter_field(&fs, 6, "irq")?;
    let softirq = counter_field(&fs, 7, "softirq")?;
    let steal = if fs.len() > 8 {
        counter_field(&fs, 8, "steal")?
    } else {
        0
    };
    Ok(CpuTimeSample { user, nice, system, idle, iowait, irq, softirq, steal })
}

/// What reading /proc/stat line by line gives, from the given running
/// state: the `cpu ` line sets the total, each other line starting with
/// `cpu` adds a core; the first line that fails to parse is the error.
pub open spec fn scan_proc_stat(
    ls: Seq<Seq<char>>,
    total: CpuTimeSample,
    cores: Seq<CpuTimeSample>,
) -> Result<(CpuTimeSample, Seq<CpuTimeSample>), ParseFailure>
    decreases ls.len(),
{
    if ls.len() == 0 {
        Ok((total, cores))
    } else {
        let l = ls[0];
        if starts_with(l, "cpu "@) {
            match cpu_line_spec(fields(l)) {
                Ok(t) => scan_proc_stat(ls.drop_first(), t, cores),
                Err(e) => Err(e),
            }
        } else if starts_with(l, "cpu"@) {
            match cpu_line_spec(fields(l)) {
                Ok(c) => scan_proc_stat(ls.drop_first(), total, cores.push(c)),
                Err(e) => Err(e),
            }
        } else {
            scan_proc_stat(ls.drop_first(), total, cores)
        }
    }
}

/// What parsing the text of /proc/stat gives.
pub open spec fn proc_stat_spec(content: Seq<char>) -> Result<
    (CpuTimeSample, Seq<CpuTimeSample>),
    ParseFailure,
> {
    scan_proc_stat(lines(content), zero_sample(), Seq::empty())
}

fn parse_cpu_chars(line: &Vec<char>) -> (r: Result<CpuTimeSample, DgxTopError>)
    ensures
        sample_result_matches(r, cpu_line_spec(fields(line@))),
{
    let s = crate::text::string_from_chars(line);
    parse_cpu_line(s.as_str())
}

/// Parses the text of /proc/stat into the total and the per-core counters.
pub fn parse_proc_stat_content(content: &str) -> (r: Result<
    (CpuTimeSample, Vec<CpuTimeSample>),
    DgxTopError,
>)
    ensures
        match (r, proc_stat_spec(content@)) {
            (Ok((t, cs)), Ok((st, scs))) => t == st && cs@ == scs,
            (Err(DgxTopError::Parse { field, message }), Err((f, m))) => field@ == f && message@
                == m,
            _ => false,
        },
{
    let chars = chars_of(content);
    let ls = split_lines(&chars);
    let ghost all = lines(content@);
    let cpu_space = chars_of("cpu ");
    let cpu = chars_of("cpu");
    let mut total = CpuTimeSample::default();
    let mut cores: Vec<CpuTimeSample> = Vec::new();
    let mut i: usize = 0;
    assert(all.skip(0) =~= all);
    while i < ls.len()
        invariant
            ls@.len() == all.len(),
            forall|k: int| 0 <= k < ls@.len() ==> #[trigger] ls@[k]@ == all[k],
            all == lines(content@),
            cpu_space@ == "cpu "@,
            cpu@ == "cpu"@,
            i <= ls@.len(),
            proc_stat_spec(content@) == scan_proc_stat(all.skip(i as int), total, cores@),
        decreases ls.len() - i,
    {
        let ghost rest = all.skip(i as int);
        assert(rest[0] == ls@[i as int]@);
        assert(rest.drop_first() =~= all.skip(i + 1));
        let line = &ls[i];
        if has_prefix(line, &cpu_space) {
            match parse_cpu_chars(line) {
                Ok(t) => {
                    total = t;
                },
                Err(e) => {
                    return Err(e);
                },
            }
        } else if has_prefix(line, &cpu) {
            match parse_cpu_chars(line) {
                Ok(c) => {
                    cores.push(c);
                },
                Err(e) => {
                    return Err(e);
                },
            }
        }
        i += 1;
    }
    Ok((total, cores))
}

// ---------------------------------------------------------------------
// Usage between two readings
// ---------------------------------------------------------------------

/// Busy and total ticks that passed between two readings.
#[derive(PartialEq, Eq, Structural, Clone, Copy, Debug)]
pub struct UsageDelta {
    pub active: u64,
    pub total: u64,
}

pub open spec fn usage_delta_spec(prev: CpuTimeSample, curr: CpuTimeSample) -> UsageDelta {
    UsageDelta {
        active: sat_sub(sample_active(curr), sample_active(prev)),
        total: sat_sub(sample_total(curr), sample_total(prev)),
    }
}

/// Ticks between two readings of the whole CPU, by kind; user time counts
/// niced time too. Each kind is a share of `usage.total`.
#[derive(PartialEq, Eq, Structural, Clone, Copy, Debug)]
pub struct CpuTimeDeltas {
    pub usage: UsageDelta,
    pub user: u64,
    pub system: u64,
    pub iowait: u64,
    pub idle: u64,
}

pub open spec fn time_deltas_spec(prev: CpuTimeSample, curr: CpuTimeSample) -> CpuTimeDeltas {
    CpuTimeDeltas {
        usage: usage_delta_spec(prev, curr),
        user: sat_sub((curr.user + curr.nice) as u64, (prev.user + prev.nice) as u64),
        system: sat_sub(curr.system, prev.system),
        iowait: sat_sub(curr.iowait, prev.iowait),
        idle: sat_sub(curr.idle, prev.idle),
    }
}

pub fn usage_delta(prev: &CpuTimeSample, curr: &CpuTimeSample) -> (r: UsageDelta)
    ensures
        r == usage_delta_spec(*prev, *curr),
{
    UsageDelta {
        active: curr.active().saturating_sub(prev.active()),
        total: curr.total().saturating_sub(prev.total()),
    }
}

pub open spec fn user_nice_fits(s: CpuTimeSample) -> bool {
    s.user + s.nice <= u64::MAX
}

pub fn time_deltas(prev: &CpuTimeSample, curr: &CpuTimeSample) -> (r: CpuTimeDeltas)
    requires
        user_nice_fits(*prev),
        user_nice_fits(*curr),
    ensures
        r == time_deltas_spec(*prev, *curr),
{
    CpuTimeDeltas {
        usage: usage_delta(prev, curr),
        user: (curr.user + curr.nice).saturating_sub(prev.user + prev.nice),
        system: curr.system.saturating_sub(prev.system),
        iowait: curr.iowait.saturating_sub(prev.iowait),
        idle: curr.idle.saturating_sub(prev.idle),
    }
}

/// Whether user plus nice time of a reading fits in 64 bits (the collector
/// adds them unchecked).
/// The total of a /proc/stat text that parses has user plus nice time
/// within 64 bits.
pub open spec fn proc_stat_total_fits_spec(content: Seq<char>) -> bool {
    match proc_stat_spec(content) {
        Ok((t, _)) => user_nice_fits(t),
        Err(_) => true,
    }
}

/// Whether a /proc/stat text can be taken in without overflowing user plus
/// nice time.
pub fn proc_stat_total_fits(content: &str) -> (b: bool)
    ensures
        b == proc_stat_total_fits_spec(content@),
{
    match parse_proc_stat_content(content) {
        Ok((total, _)) => sample_user_nice_fits(&total),
        Err(_) => true,
    }
}

pub fn sample_user_nice_fits(s: &CpuTimeSample) -> (b: bool)
    ensures
        b == user_nice_fits(*s),
{
    s.user <= u64::MAX - s.nice
}

// ---------------------------------------------------------------------
// Energy counters (RAPL powercap)
// ---------------------------------------------------------------------

/// One powercap energy counter: where it was read, its value and the value
/// at which it wraps (0 when unknown).
#[derive(Debug, Clone)]
pub struct PowerEnergyCounter {
    pub key: String,
    pub energy_uj: u64,
    pub max_energy_range_uj: u64,
}

pub open spec fn energy_delta_spec(prev: u64, curr: u64, max_range: u64) -> u64 {
    if curr >= prev {
        (curr - prev) as u64
    } else if max_range > prev {
        (max_range - prev + curr) as u64
    } else {
        curr
    }
}

/// Energy used between two readings of a counter that wraps at
/// `max_energy_range_uj`; after an unexplained drop the new reading counts
/// as the energy used.
pub fn energy_delta_uj(prev_energy_uj: u64, current_energy_uj: u64, max_energy_range_uj: u64) -> (r:
    u64)
    ensures
        r == energy_delta_spec(prev_energy_uj, current_energy_uj, max_energy_range_uj),
{
    if current_energy_uj >= prev_energy_uj {
        return current_energy_uj - prev_energy_uj;
    }
    if max_energy_range_uj > prev_energy_uj {
        max_energy_range_uj - prev_energy_uj + current_energy_uj
    } else {
        current_energy_uj
    }
}

/// Position of the first counter in `prev` read at `key`.
pub open spec fn find_counter(prev: Seq<PowerEnergyCounter>, key: Seq<char>, n: nat) -> Option<int>
    decreases n,
{
    if n == 0 {
        None
    } else {
        match find_counter(prev, key, (n - 1) as nat) {
            Some(j) => Some(j),
            None => if prev[n - 1].key@ == key {
                Some(n - 1)
            } else {
                None
            },
        }
    }
}

pub open spec fn max_u64(a: u64, b: u64) -> u64 {
    if a >= b {
        a
    } else {
        b
    }
}

/// Energy summed (saturating) over the first `n` current counters that
/// were also read before, and how many those are.
pub open spec fn energy_fold(
    prev: Seq<PowerEnergyCounter>,
    curr: Seq<PowerEnergyCounter>,
    n: nat,
) -> (u64, nat)
    decreases n,
{
    if n == 0 {
        (0, 0)
    } else {
        let (t, m) = energy_fold(prev, curr, (n - 1) as nat);
        let c = curr[n - 1];
        match find_counter(prev, c.key@, prev.len()) {
            Some(j) => (
                sat_add(
                    t,
                    energy_delta_spec(
                        prev[j].energy_uj,
                        c.energy_uj,
                        max_u64(c.max_energy_range_uj, prev[j].max_energy_range_uj),
                    ),
                ),
                m + 1,
            ),
            None => (t, m),
        }
    }
}

proof fn lemma_find_counter_in_range(prev: Seq<PowerEnergyCounter>, key: Seq<char>, n: nat)
    requires
        n <= prev.len(),
    ensures
        find_counter(prev, key, n) matches Some(j) ==> 0 <= j < n && prev[j].key@ == key,
    decreases n,
{
    if n > 0 {
        lemma_find_counter_in_range(prev, key, (n - 1) as nat);
    }
}

proof fn lemma_find_counter_stable(prev: Seq<PowerEnergyCounter>, key: Seq<char>, m: nat, n: nat)
    requires
        m <= n,
        find_counter(prev, key, m) is Some,
    ensures
        find_counter(prev, key, n) == find_counter(prev, key, m),
    decreases n - m,
{
    if m < n {
        lemma_find_counter_stable(prev, key, m, (n - 1) as nat);
    }
}

fn find_counter_exec(prev: &Vec<PowerEnergyCounter>, key: &String) -> (r: Option<usize>)
    ensures
        match r {
            Some(j) => find_counter(prev@, key@, prev@.len()) == Some(j as int),
            None => find_counter(prev@, key@, prev@.len()) is None,
        },
{
    let mut j: usize = 0;
    while j < prev.len()
        invariant
            j <= prev@.len(),
            find_counter(prev@, key@, j as nat) is None,
        decreases prev.len() - j,
    {
        if prev[j].key == *key {
            proof {
                assert(find_counter(prev@, key@, (j + 1) as nat) == Some(j as int));
                lemma_find_counter_stable(prev@, key@, (j + 1) as nat, prev@.len());
            }
            return Some(j);
        }
        j += 1;
    }
    None
}

/// Energy used since the previous readings, summed over the counters read
/// both times; `None` when no counter was read both times.
pub fn total_energy_delta(prev: &Vec<PowerEnergyCounter>, curr: &Vec<PowerEnergyCounter>) -> (r:
    Option<u64>)
    ensures
        r == if energy_fold(prev@, curr@, curr@.len()).1 == 0 {
            None::<u64>
        } else {
            Some(energy_fold(prev@, curr@, curr@.len()).0)
        },
{
    let mut total: u64 = 0;
    let mut matched: usize = 0;
    let mut i: usize = 0;
    while i < curr.len()
        invariant
            i <= curr@.len(),
            energy_fold(prev@, curr@, i as nat) == (total, matched as nat),
            matched <= i,
        decreases curr.len() - i,
    {
        let c = &curr[i];
        match find_counter_exec(prev, &c.key) {
            Some(j) => {
                proof {
                    lemma_find_counter_in_range(prev@, c.key@, prev@.len());
                }
                let p = &prev[j];
                let max_range = if c.max_energy_range_uj >= p.max_energy_range_uj {
                    c.max_energy_range_uj
                } else {
                    p.max_energy_range_uj
                };
                total = total.saturating_add(
                    energy_delta_uj(p.energy_uj, c.energy_uj, max_range),
                );
                matched += 1;
            },
            None => {},
        }
        i += 1;
    }
    if matched == 0 {
        None
    } else {
        Some(total)
    }
}

// ---------------------------------------------------------------------
// The collector's memory between readings
// ---------------------------------------------------------------------

#[verifier::external_type_specification]
#[verifier::external_body]
pub struct ExInstant(std::time::Instant);

/// Calls `Instant::now`; the time is the machine's, so nothing is stated.
#[verifier::external_body]
pub(crate) fn now() -> std::time::Instant {
    std::time::Instant::now()
}

/// What the CPU collector remembers between two readings of /proc/stat.
pub struct CpuCollector {
    prev_total: Option<CpuTimeSample>,
    prev_cores: Vec<CpuTimeSample>,
    prev_power_counters: Vec<PowerEnergyCounter>,
    prev_time: std::time::Instant,
}

/// The deltas of one reading against the one before.
pub struct CpuDeltas {
    /// `None` on the first reading.
    pub overall: Option<CpuTimeDeltas>,
    /// One entry per core of this reading; `None` for a core that the
    /// previous reading did not have.
    pub cores: Vec<Option<UsageDelta>>,
}

impl CpuCollector {
    #[verifier::type_invariant]
    closed spec fn stored_sample_fits(self) -> bool {
        self.prev_total matches Some(p) ==> user_nice_fits(p)
    }

    pub closed spec fn last_total(self) -> Option<CpuTimeSample> {
        self.prev_total
    }

    pub closed spec fn last_cores(self) -> Seq<CpuTimeSample> {
        self.prev_cores@
    }

    pub closed spec fn power_counters(self) -> Seq<PowerEnergyCounter> {
        self.prev_power_counters@
    }

    /// When the previous reading was taken (creation time before the first).
    pub closed spec fn last_time(self) -> std::time::Instant {
        self.prev_time
    }

    pub fn new() -> (r: Self)
        ensures
            r.last_total() is None,
            r.last_cores() == Seq::<CpuTimeSample>::empty(),
            r.power_counters() == Seq::<PowerEnergyCounter>::empty(),
    {
        CpuCollector {
            prev_total: None,
            prev_cores: Vec::new(),
            prev_power_counters: Vec::new(),
            prev_time: now(),
        }
    }

    /// When the previous reading was taken (creation time before the first).
    pub fn prev_time(&self) -> (r: std::time::Instant)
        ensures
            r == self.last_time(),
    {
        self.prev_time
    }

    /// Takes in a new reading of /proc/stat taken at `now`, and gives its
    /// deltas against the previous one.
    pub fn advance(&mut self, total: CpuTimeSample, cores: Vec<CpuTimeSample>, now: std::time::Instant) -> (r:
        CpuDeltas)
        requires
            user_nice_fits(total),
        ensures
            r.overall == match old(self).last_total() {
                Some(p) => Some(time_deltas_spec(p, total)),
                None => None,
            },
            r.cores@.len() == cores@.len(),
            forall|i: int|
                0 <= i < cores@.len() ==> #[trigger] r.cores@[i] == if i < old(
                    self,
                ).last_cores().len() {
                    Some(usage_delta_spec(old(self).last_cores()[i], cores@[i]))
                } else {
                    None
                },
            final(self).last_total() == Some(total),
            final(self).last_cores() == cores@,
            final(self).power_counters() == old(self).power_counters(),
            final(self).last_time() == now,
    {
        proof {
            use_type_invariant(&*self);
        }
        let overall = match &self.prev_total {
            Some(p) => Some(time_deltas(p, &total)),
            None => None,
        };
        let mut per_core: Vec<Option<UsageDelta>> = Vec::new();
        let mut i: usize = 0;
        while i < cores.len()
            invariant
                i <= cores@.len(),
                per_core@.len() == i,
                forall|k: int|
                    0 <= k < i ==> #[trigger] per_core@[k] == if k < self.prev_cores@.len() {
                        Some(usage_delta_spec(self.prev_cores@[k], cores@[k]))
                    } else {
                        None
                    },
            decreases cores.len() - i,
        {
            if i < self.prev_cores.len() {
                per_core.push(Some(usage_delta(&self.prev_cores[i], &cores[i])));
            } else {
                per_core.push(None);
            }
            i += 1;
        }
        self.prev_total = Some(total);
        self.prev_cores = cores;
        self.prev_time = now;
        CpuDeltas { overall, cores: per_core }
    }

    /// Takes in the text of a new reading of /proc/stat taken at `now`.
    /// A text that does not parse gives its parse error and leaves the
    /// collector as it was, so the next reading is compared with the one
    /// before; otherwise the reading is taken in as `advance` does.
    pub fn read_proc_stat(&mut self, content: &str, now: std::time::Instant) -> (r: Result<
        CpuDeltas,
        DgxTopError,
    >)
        requires
            proc_stat_total_fits_spec(content@),
        ensures
            match (r, proc_stat_spec(content@)) {
                (Err(DgxTopError::Parse { field, message }), Err((f, m))) => field@ == f
                    && message@ == m && *final(self) == *old(self),
                (Ok(d), Ok((total, cores))) => {
                    &&& d.overall == match old(self).last_total() {
                        Some(p) => Some(time_deltas_spec(p, total)),
                        None => None,
                    }
                    &&& d.cores@.len() == cores.len()
                    &&& forall|i: int|
                        0 <= i < cores.len() ==> #[trigger] d.cores@[i] == if i < old(
                            self,
                        ).last_cores().len() {
                            Some(usage_delta_spec(old(self).last_cores()[i], cores[i]))
                        } else {
                            None
                        }
                    &&& final(self).last_total() == Some(total)
                    &&& final(self).last_cores() == cores
                    &&& final(self).power_counters() == old(self).power_counters()
                    &&& final(self).last_time() == now
                },
                _ => false,
            },
    {
        match parse_proc_stat_content(content) {
            Ok((total, cores)) => Ok(self.advance(total, cores, now)),
            Err(e) => Err(e),
        }
    }

    /// Stores a new set of energy counter readings and gives the energy used
    /// since the stored ones: `None`, with nothing stored, when there are no
    /// readings; `None` when nothing was stored before or no counter was read
    /// both times.
    pub fn energy_since_last(&mut self, counters: Vec<PowerEnergyCounter>) -> (r: Option<u64>)
        ensures
            counters@.len() == 0 ==> r is None && final(self).power_counters() == old(
                self,
            ).power_counters(),
            counters@.len() > 0 ==> final(self).power_counters() == counters@ && r == if energy_fold(
                old(self).power_counters(),
                counters@,
                counters@.len(),
            ).1 == 0 {
                None::<u64>
            } else {
                Some(energy_fold(old(self).power_counters(), counters@, counters@.len()).0)
            },
            final(self).last_total() == old(self).last_total(),
            final(self).last_cores() == old(self).last_cores(),
            final(self).last_time() == old(self).last_time(),
    {
        proof {
            use_type_invariant(&*self);
        }
        if counters.len() == 0 {
            return None;
        }
        let mut prev = counters;
        std::mem::swap(&mut prev, &mut self.prev_power_counters);
        total_energy_delta(&prev, &self.prev_power_counters)
    }
}

} // verus!
