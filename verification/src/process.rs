//! GPU processes: gathering them per GPU, the GPU memory they hold, their
//! SM utilization, their CPU time and what /proc says about them.
use crate::cpu::{sat_add, sat_sub};
use crate::text::{chars_of, fields, has_prefix, lines, parse_u32, parse_u32_spec, parse_u64, parse_u64_spec, split_fields, split_lines, starts_with, string_from_chars, trim, trim_chars};
use crate::gpu::GpuProcessType;
use vstd::prelude::*;

verus! {

/// A process that NVML lists on a GPU, with the GPU memory it uses when
/// NVML can tell.
#[derive(PartialEq, Eq, Structural, Clone, Copy, Debug)]
pub struct ProcessMemory {
    pub pid: u32,
    pub used_bytes: Option<u64>,
}

pub open spec fn used_or_zero(p: ProcessMemory) -> u64 {
    match p.used_bytes {
        Some(b) => b,
        None => 0,
    }
}

/// Position of the first entry for `pid` among the first `n`.
pub open spec fn pid_slot(usage: Seq<(u32, u64)>, pid: u32, n: nat) -> Option<int>
    decreases n,
{
    if n == 0 {
        None
    } else {
        match pid_slot(usage, pid, (n - 1) as nat) {
            Some(j) => Some(j),
            None => if usage[n - 1].0 == pid {
                Some(n - 1)
            } else {
                None
            },
        }
    }
}

/// Memory per PID after the compute processes: a later entry for a PID
/// replaces the earlier one.
pub open spec fn usage_after_compute(compute: Seq<ProcessMemory>, n: nat) -> Seq<(u32, u64)>
    decreases n,
{
    if n == 0 {
        Seq::empty()
    } else {
        let u = usage_after_compute(compute, (n - 1) as nat);
        let p = compute[n - 1];
        match pid_slot(u, p.pid, u.len()) {
            Some(j) => u.update(j, (p.pid, used_or_zero(p))),
            None => u.push((p.pid, used_or_zero(p))),
        }
    }
}

/// Memory per PID after the graphics processes too: a PID seen again keeps
/// the larger figure.
pub open spec fn usage_after_graphics(
    start: Seq<(u32, u64)>,
    graphics: Seq<ProcessMemory>,
    n: nat,
) -> Seq<(u32, u64)>
    decreases n,
{
    if n == 0 {
        start
    } else {
        let u = usage_after_graphics(start, graphics, (n - 1) as nat);
        let p = graphics[n - 1];
        match pid_slot(u, p.pid, u.len()) {
            Some(j) => u.update(j, (p.pid, if u[j].1 >= used_or_zero(p) { u[j].1 } else { used_or_zero(p) })),
            None => u.push((p.pid, used_or_zero(p))),
        }
    }
}

pub open spec fn usage_sum(u: Seq<(u32, u64)>) -> int
    decreases u.len(),
{
    if u.len() == 0 {
        0
    } else {
        usage_sum(u.drop_last()) + u.last().1
    }
}

/// GPU memory per PID of a GPU's compute and graphics processes.
pub open spec fn gpu_memory_by_pid(compute: Seq<ProcessMemory>, graphics: Seq<ProcessMemory>) -> Seq<(u32, u64)> {
    usage_after_graphics(usage_after_compute(compute, compute.len()), graphics, graphics.len())
}

proof fn lemma_pid_slot_in_range(u: Seq<(u32, u64)>, pid: u32, n: nat)
    requires
        n <= u.len(),
    ensures
        pid_slot(u, pid, n) matches Some(j) ==> 0 <= j < n && u[j].0 == pid,
    decreases n,
{
    if n > 0 {
        lemma_pid_slot_in_range(u, pid, (n - 1) as nat);
    }
}

proof fn lemma_pid_slot_stable(u: Seq<(u32, u64)>, pid: u32, m: nat, n: nat)
    requires
        m <= n,
        pid_slot(u, pid, m) is Some,
    ensures
        pid_slot(u, pid, n) == pid_slot(u, pid, m),
    decreases n - m,
{
    if m < n {
        lemma_pid_slot_stable(u, pid, m, (n - 1) as nat);
    }
}

fn find_pid(u: &Vec<(u32, u64)>, pid: u32) -> (r: Option<usize>)
    ensures
        match r {
            Some(j) => pid_slot(u@, pid, u@.len()) == Some(j as int),
            None => pid_slot(u@, pid, u@.len()) is None,
        },
{
    let mut j: usize = 0;
    while j < u.len()
        invariant
            j <= u@.len(),
            pid_slot(u@, pid, j as nat) is None,
        decreases u.len() - j,
    {
        if u[j].0 == pid {
            proof {
                assert(pid_slot(u@, pid, (j + 1) as nat) == Some(j as int));
                lemma_pid_slot_stable(u@, pid, (j + 1) as nat, u@.len());
            }
            return Some(j);
        }
        j += 1;
    }
    None
}

fn used_bytes_of(p: &ProcessMemory) -> (r: u64)
    ensures
        r == used_or_zero(*p),
{
    match p.used_bytes {
        Some(b) => b,
        None => 0,
    }
}

/// GPU memory held per PID on one GPU.
pub fn gpu_memory_per_pid(compute: &[ProcessMemory], graphics: &[ProcessMemory]) -> (r: Vec<(u32, u64)>)
    ensures
        r@ == gpu_memory_by_pid(compute@, graphics@),
{
    let mut u: Vec<(u32, u64)> = Vec::new();
    let mut i: usize = 0;
    while i < compute.len()
        invariant
            i <= compute@.len(),
            u@ == usage_after_compute(compute@, i as nat),
        decreases compute.len() - i,
    {
        let p = compute[i];
        let b = used_bytes_of(&p);
        match find_pid(&u, p.pid) {
            Some(j) => {
                proof {
                    lemma_pid_slot_in_range(u@, p.pid, u@.len());
                }
                u.set(j, (p.pid, b));
            },
            None => {
                u.push((p.pid, b));
            },
        }
        i += 1;
    }
    let ghost start = u@;
    let mut k: usize = 0;
    while k < graphics.len()
        invariant
            k <= graphics@.len(),
            u@ == usage_after_graphics(start, graphics@, k as nat),
            start == usage_after_compute(compute@, compute@.len()),
        decreases graphics.len() - k,
    {
        let p = graphics[k];
        let b = used_bytes_of(&p);
        match find_pid(&u, p.pid) {
            Some(j) => {
                proof {
                    lemma_pid_slot_in_range(u@, p.pid, u@.len());
                }
                let existing = u[j].1;
                let m = if existing >= b {
                    existing
                } else {
                    b
                };
                u.set(j, (p.pid, m));
            },
            None => {
                u.push((p.pid, b));
            },
        }
        k += 1;
    }
    u
}

/// Whether the total GPU memory of the processes of a GPU fits in 64 bits.
pub fn gpu_memory_total_fits(usage: &[(u32, u64)]) -> (b: bool)
    ensures
        b == (usage_sum(usage@) <= u64::MAX),
{
    let mut total: u64 = 0;
    let mut i: usize = 0;
    while i < usage.len()
        invariant
            i <= usage@.len(),
            total == usage_sum(usage@.take(i as int)),
        decreases usage.len() - i,
    {
        assert(usage@.take(i + 1).drop_last() =~= usage@.take(i as int));
        if total > u64::MAX - usage[i].1 {
            proof {
                lemma_usage_sum_prefix(usage@, (i + 1) as nat);
            }
            return false;
        }
        total = total + usage[i].1;
        i += 1;
    }
    assert(usage@.take(usage@.len() as int) =~= usage@);
    true
}

proof fn lemma_usage_sum_prefix(u: Seq<(u32, u64)>, n: nat)
    requires
        n <= u.len(),
    ensures
        usage_sum(u.take(n as int)) <= usage_sum(u),
    decreases u.len() - n,
{
    if n < u.len() {
        lemma_usage_sum_prefix(u, n + 1);
        assert(u.take((n + 1) as int).drop_last() =~= u.take(n as int));
    } else {
        assert(u.take(n as int) =~= u);
    }
}

/// Total GPU memory held by the processes of a GPU (the shared-memory
/// fallback of the GPU's memory use).
pub fn total_gpu_memory(usage: &[(u32, u64)]) -> (r: u64)
    requires
        usage_sum(usage@) <= u64::MAX,
    ensures
        r == usage_sum(usage@),
{
    let mut total: u64 = 0;
    let mut i: usize = 0;
    while i < usage.len()
        invariant
            i <= usage@.len(),
            total == usage_sum(usage@.take(i as int)),
            usage_sum(usage@) <= u64::MAX,
        decreases usage.len() - i,
    {
        assert(usage@.take(i + 1).drop_last() =~= usage@.take(i as int));
        proof {
            lemma_usage_sum_prefix(usage@, (i + 1) as nat);
        }
        total = total + usage[i].1;
        i += 1;
    }
    assert(usage@.take(usage@.len() as int) =~= usage@);
    total
}

// ---------------------------------------------------------------------
// The process list of all GPUs
// ---------------------------------------------------------------------

/// A process on a GPU as NVML lists it.
#[derive(PartialEq, Eq, Structural, Clone, Copy, Debug)]
pub struct ProcessEntry {
    pub gpu_index: u32,
    pub pid: u32,
    pub gpu_memory_bytes: u64,
    pub process_type: GpuProcessType,
}

/// The PID is among the compute processes.
pub open spec fn has_pid(ps: Seq<ProcessMemory>, pid: u32) -> bool {
    exists|k: int| 0 <= k < ps.len() && ps[k].pid == pid
}

/// Position of the first entry for (`gpu`, `pid`) among the first `n`.
pub open spec fn entry_slot(es: Seq<ProcessEntry>, gpu: u32, pid: u32, n: nat) -> Option<int>
    decreases n,
{
    if n == 0 {
        None
    } else {
        match entry_slot(es, gpu, pid, (n - 1) as nat) {
            Some(j) => Some(j),
            None => if es[n - 1].gpu_index == gpu && es[n - 1].pid == pid {
                Some(n - 1)
            } else {
                None
            },
        }
    }
}

/// The list after adding the first `n` compute processes of a GPU.
pub open spec fn with_compute(es: Seq<ProcessEntry>, gpu: u32, compute: Seq<ProcessMemory>, n: nat) -> Seq<ProcessEntry>
    decreases n,
{
    if n == 0 {
        es
    } else {
        with_compute(es, gpu, compute, (n - 1) as nat).push(
            ProcessEntry {
                gpu_index: gpu,
                pid: compute[n - 1].pid,
                gpu_memory_bytes: used_or_zero(compute[n - 1]),
                process_type: GpuProcessType::Compute,
            },
        )
    }
}

/// The list after the first `n` graphics processes of a GPU: a process
/// that is also a compute process is marked as both, others are added.
pub open spec fn with_graphics(
    es: Seq<ProcessEntry>,
    gpu: u32,
    compute: Seq<ProcessMemory>,
    graphics: Seq<ProcessMemory>,
    n: nat,
) -> Seq<ProcessEntry>
    decreases n,
{
    if n == 0 {
        es
    } else {
        let e = with_graphics(es, gpu, compute, graphics, (n - 1) as nat);
        let p = graphics[n - 1];
        if has_pid(compute, p.pid) {
            match entry_slot(e, gpu, p.pid, e.len()) {
                Some(j) => e.update(
                    j,
                    ProcessEntry { process_type: GpuProcessType::ComputeAndGraphics, ..e[j] },
                ),
                None => e,
            }
        } else {
            e.push(
                ProcessEntry {
                    gpu_index: gpu,
                    pid: p.pid,
                    gpu_memory_bytes: used_or_zero(p),
                    process_type: GpuProcessType::Graphics,
                },
            )
        }
    }
}

proof fn lemma_entry_slot_in_range(es: Seq<ProcessEntry>, gpu: u32, pid: u32, n: nat)
    requires
        n <= es.len(),
    ensures
        entry_slot(es, gpu, pid, n) matches Some(j) ==> 0 <= j < n && es[j].gpu_index == gpu
            && es[j].pid == pid,
    decreases n,
{
    if n > 0 {
        lemma_entry_slot_in_range(es, gpu, pid, (n - 1) as nat);
    }
}

proof fn lemma_entry_slot_stable(es: Seq<ProcessEntry>, gpu: u32, pid: u32, m: nat, n: nat)
    requires
        m <= n,
        entry_slot(es, gpu, pid, m) is Some,
    ensures
        entry_slot(es, gpu, pid, n) == entry_slot(es, gpu, pid, m),
    decreases n - m,
{
    if m < n {
        lemma_entry_slot_stable(es, gpu, pid, m, (n - 1) as nat);
    }
}

fn find_entry_slot(es: &Vec<ProcessEntry>, gpu: u32, pid: u32) -> (r: Option<usize>)
    ensures
        match r {
            Some(j) => entry_slot(es@, gpu, pid, es@.len()) == Some(j as int),
            None => entry_slot(es@, gpu, pid, es@.len()) is None,
        },
{
    let mut j: usize = 0;
    while j < es.len()
        invariant
            j <= es@.len(),
            entry_slot(es@, gpu, pid, j as nat) is None,
        decreases es.len() - j,
    {
        if es[j].gpu_index == gpu && es[j].pid == pid {
            proof {
                assert(entry_slot(es@, gpu, pid, (j + 1) as nat) == Some(j as int));
                lemma_entry_slot_stable(es@, gpu, pid, (j + 1) as nat, es@.len());
            }
            return Some(j);
        }
        j += 1;
    }
    None
}

fn compute_has_pid(compute: &[ProcessMemory], pid: u32) -> (b: bool)
    ensures
        b == has_pid(compute@, pid),
{
    let mut k: usize = 0;
    while k < compute.len()
        invariant
            k <= compute@.len(),
            forall|i: int| 0 <= i < k ==> compute@[i].pid != pid,
        decreases compute.len() - k,
    {
        if compute[k].pid == pid {
            return true;
        }
        k += 1;
    }
    false
}

/// Adds the processes of one GPU to the list: its compute processes, then
/// its graphics processes (a process in both is marked as both).
pub fn add_gpu_processes(
    entries: &mut Vec<ProcessEntry>,
    gpu_index: u32,
    compute: &[ProcessMemory],
    graphics: &[ProcessMemory],
)
    ensures
        final(entries)@ == with_graphics(
            with_compute(old(entries)@, gpu_index, compute@, compute@.len()),
            gpu_index,
            compute@,
            graphics@,
            graphics@.len(),
        ),
{
    let mut i: usize = 0;
    let ghost start = entries@;
    while i < compute.len()
        invariant
            i <= compute@.len(),
            entries@ == with_compute(start, gpu_index, compute@, i as nat),
        decreases compute.len() - i,
    {
        let p = compute[i];
        entries.push(
            ProcessEntry {
                gpu_index,
                pid: p.pid,
                gpu_memory_bytes: used_bytes_of(&p),
                process_type: GpuProcessType::Compute,
            },
        );
        i += 1;
    }
    let ghost mid = entries@;
    let mut k: usize = 0;
    while k < graphics.len()
        invariant
            k <= graphics@.len(),
            entries@ == with_graphics(mid, gpu_index, compute@, graphics@, k as nat),
            mid == with_compute(start, gpu_index, compute@, compute@.len()),
        decreases graphics.len() - k,
    {
        let p = graphics[k];
        if compute_has_pid(compute, p.pid) {
            match find_entry_slot(entries, gpu_index, p.pid) {
                Some(j) => {
                    proof {
                        lemma_entry_slot_in_range(entries@, gpu_index, p.pid, entries@.len());
                    }
                    let e = entries[j];
                    entries.set(j, ProcessEntry { process_type: GpuProcessType::ComputeAndGraphics, ..e });
                },
                None => {},
            }
        } else {
            entries.push(
                ProcessEntry {
                    gpu_index,
                    pid: p.pid,
                    gpu_memory_bytes: used_bytes_of(&p),
                    process_type: GpuProcessType::Graphics,
                },
            );
        }
        k += 1;
    }
}

/// An SM utilization sample of NVML: GPU, PID and percent.
#[derive(PartialEq, Eq, Structural, Clone, Copy, Debug)]
pub struct UtilizationSample {
    pub gpu_index: u32,
    pub pid: u32,
    pub sm_util: u32,
}

/// The utilization of each listed process after the first `n` samples: a
/// sample goes to the first process of its GPU and PID, later samples
/// overwrite earlier ones.
pub open spec fn utilization_after(es: Seq<ProcessEntry>, samples: Seq<UtilizationSample>, n: nat) -> Seq<Option<u32>>
    decreases n,
{
    if n == 0 {
        Seq::new(es.len(), |i: int| None::<u32>)
    } else {
        let u = utilization_after(es, samples, (n - 1) as nat);
        let s = samples[n - 1];
        match entry_slot(es, s.gpu_index, s.pid, es.len()) {
            Some(j) => u.update(j, Some(s.sm_util)),
            None => u,
        }
    }
}

/// The SM utilization of each listed process, `None` when NVML gave none.
pub fn assign_utilization(entries: &Vec<ProcessEntry>, samples: &[UtilizationSample]) -> (r: Vec<Option<u32>>)
    ensures
        r@ == utilization_after(entries@, samples@, samples@.len()),
{
    let mut r: Vec<Option<u32>> = Vec::new();
    let mut i: usize = 0;
    while i < entries.len()
        invariant
            i <= entries@.len(),
            r@ == Seq::new(i as nat, |k: int| None::<u32>),
        decreases entries.len() - i,
    {
        r.push(None);
        assert(r@ =~= Seq::new((i + 1) as nat, |k: int| None::<u32>));
        i += 1;
    }
    let mut k: usize = 0;
    while k < samples.len()
        invariant
            k <= samples@.len(),
            r@ == utilization_after(entries@, samples@, k as nat),
            r@.len() == entries@.len(),
        decreases samples.len() - k,
    {
        let s = samples[k];
        match find_entry_slot(entries, s.gpu_index, s.pid) {
            Some(j) => {
                proof {
                    lemma_entry_slot_in_range(entries@, s.gpu_index, s.pid, entries@.len());
                }
                r.set(j, Some(s.sm_util));
            },
            None => {},
        }
        k += 1;
    }
    r
}

// ---------------------------------------------------------------------
// CPU time of processes
// ---------------------------------------------------------------------

/// Position of the first record of `pid` among the first `n`.
pub open spec fn record_of(rs: Seq<(u32, u64, u64)>, pid: u32, n: nat) -> Option<int>
    decreases n,
{
    if n == 0 {
        None
    } else {
        match record_of(rs, pid, (n - 1) as nat) {
            Some(j) => Some(j),
            None => if rs[n - 1].0 == pid {
                Some(n - 1)
            } else {
                None
            },
        }
    }
}

proof fn lemma_record_of_in_range(rs: Seq<(u32, u64, u64)>, pid: u32, n: nat)
    requires
        n <= rs.len(),
    ensures
        record_of(rs, pid, n) matches Some(j) ==> 0 <= j < n && rs[j].0 == pid,
    decreases n,
{
    if n > 0 {
        lemma_record_of_in_range(rs, pid, (n - 1) as nat);
    }
}

proof fn lemma_record_of_stable(rs: Seq<(u32, u64, u64)>, pid: u32, m: nat, n: nat)
    requires
        m <= n,
        record_of(rs, pid, m) is Some,
    ensures
        record_of(rs, pid, n) == record_of(rs, pid, m),
    decreases n - m,
{
    if m < n {
        lemma_record_of_stable(rs, pid, m, (n - 1) as nat);
    }
}

/// For each process: its CPU time and the system time (in clock ticks) at
/// the previous reading.
pub struct ProcessCpuTracker {
    prev: Vec<(u32, u64, u64)>,
}

/// What one reading of a process gives: the process time and system time
/// that passed, when the process was seen before and system time moved.
pub open spec fn cpu_observation(rs: Seq<(u32, u64, u64)>, pid: u32, total: u64, system: u64) -> Option<(u64, u64)> {
    match record_of(rs, pid, rs.len()) {
        Some(j) => {
            let td = sat_sub(system, rs[j].2);
            if td > 0 {
                Some((sat_sub(total, rs[j].1), td))
            } else {
                None
            }
        },
        None => None,
    }
}

impl ProcessCpuTracker {
    pub closed spec fn records(self) -> Seq<(u32, u64, u64)> {
        self.prev@
    }

    pub fn new() -> (r: Self)
        ensures
            r.records() == Seq::<(u32, u64, u64)>::empty(),
    {
        ProcessCpuTracker { prev: Vec::new() }
    }

    fn find(&self, pid: u32) -> (r: Option<usize>)
        ensures
            match r {
                Some(j) => record_of(self.prev@, pid, self.prev@.len()) == Some(j as int),
                None => record_of(self.prev@, pid, self.prev@.len()) is None,
            },
    {
        let mut j: usize = 0;
        while j < self.prev.len()
            invariant
                j <= self.prev@.len(),
                record_of(self.prev@, pid, j as nat) is None,
            decreases self.prev.len() - j,
        {
            if self.prev[j].0 == pid {
                proof {
                    assert(record_of(self.prev@, pid, (j + 1) as nat) == Some(j as int));
                    lemma_record_of_stable(self.prev@, pid, (j + 1) as nat, self.prev@.len());
                }
                return Some(j);
            }
            j += 1;
        }
        None
    }

    /// Records a reading of a process (its CPU time and the system time, in
    /// clock ticks) and gives what passed since its previous reading.
    pub fn observe(&mut self, pid: u32, total_time: u64, system_ticks: u64) -> (r: Option<(u64, u64)>)
        ensures
            r == cpu_observation(old(self).records(), pid, total_time, system_ticks),
            final(self).records() == match record_of(old(self).records(), pid, old(self).records().len()) {
                Some(j) => old(self).records().update(j, (pid, total_time, system_ticks)),
                None => old(self).records().push((pid, total_time, system_ticks)),
            },
    {
        match self.find(pid) {
            Some(j) => {
                proof {
                    lemma_record_of_in_range(self.prev@, pid, self.prev@.len());
                }
                let (_, prev_total, prev_system) = self.prev[j];
                let td = system_ticks.saturating_sub(prev_system);
                let r = if td > 0 {
                    Some((total_time.saturating_sub(prev_total), td))
                } else {
                    None
                };
                self.prev.set(j, (pid, total_time, system_ticks));
                r
            },
            None => {
                self.prev.push((pid, total_time, system_ticks));
                None
            },
        }
    }

    /// Forgets the processes that are not in `active`.
    pub fn retain_active(&mut self, active: &[u32])
        ensures
            final(self).records() == old(self).records().filter(|r: (u32, u64, u64)| active@.contains(r.0)),
    {
        let ghost before = self.prev@;
        let ghost keep = |r: (u32, u64, u64)| active@.contains(r.0);
        let mut kept: Vec<(u32, u64, u64)> = Vec::new();
        let mut i: usize = 0;
        while i < self.prev.len()
            invariant
                i <= self.prev@.len(),
                self.prev@ == before,
                kept@ == before.take(i as int).filter(keep),
                keep == (|r: (u32, u64, u64)| active@.contains(r.0)),
            decreases self.prev.len() - i,
        {
            let rec = self.prev[i];
            let mut found = false;
            let mut k: usize = 0;
            while k < active.len()
                invariant
                    k <= active@.len(),
                    found == (exists|m: int| 0 <= m < k && active@[m] == rec.0),
                decreases active.len() - k,
            {
                if active[k] == rec.0 {
                    found = true;
                }
                k += 1;
            }
            proof {
                reveal_with_fuel(Seq::<_>::filter, 1);
                assert(before.take(i + 1).drop_last() =~= before.take(i as int));
                if found {
                    let m = choose|m: int| 0 <= m < active@.len() && active@[m] == rec.0;
                    assert(active@.contains(rec.0));
                } else {
                    assert(!active@.contains(rec.0));
                }
            }
            if found {
                kept.push(rec);
            }
            i += 1;
        }
        assert(before.take(before.len() as int) =~= before);
        self.prev = kept;
    }
}

// ---------------------------------------------------------------------
// What /proc says about a process
// ---------------------------------------------------------------------

/// Position of the last `)` of `s`.
pub open spec fn last_paren(s: Seq<char>) -> Option<int>
    decreases s.len(),
{
    if s.len() == 0 {
        None
    } else if s.last() == ')' {
        Some(s.len() - 1)
    } else {
        last_paren(s.drop_last())
    }
}

/// Slicing after `) ` is only possible on a character boundary: the
/// character after the last `)` must be a single byte when it exists.
pub open spec fn stat_slice_ok(s: Seq<char>) -> bool {
    match last_paren(s) {
        Some(k) => k + 1 < s.len() ==> (s[k + 1] as u32) < 0x80,
        None => true,
    }
}

/// Utime plus stime (saturating) of a /proc/<pid>/stat text: the 12th and
/// 13th fields after the command (a field that is not a number counts 0);
/// nothing when there are fewer than 13 fields.
pub open spec fn stat_ticks_spec(s: Seq<char>) -> Option<u64> {
    match last_paren(s) {
        None => None,
        Some(k) => if k + 2 >= s.len() {
            None
        } else {
            let fs = fields(s.skip(k + 2));
            if fs.len() < 13 {
                None
            } else {
                let u = match parse_u64_spec(fs[11]) {
                    Some(v) => v,
                    None => 0,
                };
                let t = match parse_u64_spec(fs[12]) {
                    Some(v) => v,
                    None => 0,
                };
                Some(sat_add(u, t))
            }
        },
    }
}

proof fn lemma_last_paren_at(s: Seq<char>, k: int)
    requires
        0 <= k < s.len(),
        s[k] == ')',
        forall|m: int| k < m < s.len() ==> #[trigger] s[m] != ')',
    ensures
        last_paren(s) == Some(k),
    decreases s.len(),
{
    if s.last() != ')' {
        let t = s.drop_last();
        assert forall|m: int| k < m < t.len() implies #[trigger] t[m] != ')' by {
            assert(t[m] == s[m]);
        }
        lemma_last_paren_at(t, k);
    }
}

proof fn lemma_no_paren(s: Seq<char>)
    requires
        forall|m: int| 0 <= m < s.len() ==> #[trigger] s[m] != ')',
    ensures
        last_paren(s) is None,
    decreases s.len(),
{
    if s.len() > 0 {
        let t = s.drop_last();
        assert forall|m: int| 0 <= m < t.len() implies #[trigger] t[m] != ')' by {
            assert(t[m] == s[m]);
        }
        lemma_no_paren(t);
    }
}

/// Whether the text can be cut after its last `)` (see `stat_slice_ok`).
pub fn stat_text_ok(content: &str) -> (b: bool)
    ensures
        b == stat_slice_ok(content@),
{
    let s = chars_of(content);
    match find_last_paren(&s) {
        None => true,
        Some(k) => if s.len() - k > 1 {
            (s[k + 1] as u32) < 0x80
        } else {
            true
        },
    }
}

fn find_last_paren(s: &Vec<char>) -> (r: Option<usize>)
    ensures
        match r {
            Some(k) => last_paren(s@) == Some(k as int) && k < s@.len(),
            None => last_paren(s@) is None,
        },
{
    let mut i: usize = s.len();
    while i > 0
        invariant
            i <= s@.len(),
            forall|m: int| i <= m < s@.len() ==> #[trigger] s@[m] != ')',
        decreases i,
    {
        if s[i - 1] == ')' {
            proof {
                lemma_last_paren_at(s@, i - 1);
            }
            return Some(i - 1);
        }
        i -= 1;
    }
    proof {
        lemma_no_paren(s@);
    }
    None
}

/// CPU time (utime + stime, clock ticks) of a process from its
/// /proc/<pid>/stat text.
pub fn process_cpu_ticks(content: &str) -> (r: Option<u64>)
    requires
        stat_slice_ok(content@),
    ensures
        r == stat_ticks_spec(content@),
{
    let s = chars_of(content);
    let k = match find_last_paren(&s) {
        Some(k) => k,
        None => {
            return None;
        },
    };
    if s.len() - k <= 2 {
        return None;
    }
    let mut rest: Vec<char> = Vec::new();
    let mut i = k + 2;
    while i < s.len()
        invariant
            k + 2 <= i <= s@.len(),
            rest@ == s@.subrange(k + 2, i as int),
        decreases s.len() - i,
    {
        rest.push(s[i]);
        assert(s@.subrange(k + 2, i + 1) =~= s@.subrange(k + 2, i as int).push(s@[i as int]));
        i += 1;
    }
    assert(rest@ =~= s@.skip(k + 2));
    let fs = split_fields(&rest);
    if fs.len() < 13 {
        return None;
    }
    let u = match parse_u64(&fs[11]) {
        Some(v) => v,
        None => 0,
    };
    let t = match parse_u64(&fs[12]) {
        Some(v) => v,
        None => 0,
    };
    Some(u.saturating_add(t))
}

/// The UIDs named by the `Uid:` lines of a /proc/<pid>/status text whose
/// second field is a number, in order.
pub open spec fn status_uids_spec(ls: Seq<Seq<char>>) -> Seq<u32>
    decreases ls.len(),
{
    if ls.len() == 0 {
        Seq::empty()
    } else {
        let before = status_uids_spec(ls.drop_last());
        let l = ls.last();
        let fs = fields(l);
        if starts_with(l, "Uid:"@) && fs.len() >= 2 && parse_u32_spec(fs[1]) is Some {
            before.push(parse_u32_spec(fs[1])->0)
        } else {
            before
        }
    }
}

/// The UIDs of a /proc/<pid>/status text, in the order to try them.
pub fn status_uids(content: &str) -> (r: Vec<u32>)
    ensures
        r@ == status_uids_spec(lines(content@)),
{
    let chars = chars_of(content);
    let ls = split_lines(&chars);
    let ghost all = lines(content@);
    let prefix = chars_of("Uid:");
    let mut r: Vec<u32> = Vec::new();
    let mut i: usize = 0;
    while i < ls.len()
        invariant
            ls@.len() == all.len(),
            forall|k: int| 0 <= k < ls@.len() ==> #[trigger] ls@[k]@ == all[k],
            prefix@ == "Uid:"@,
            i <= ls@.len(),
            r@ == status_uids_spec(all.take(i as int)),
        decreases ls.len() - i,
    {
        assert(all.take(i + 1).drop_last() =~= all.take(i as int));
        assert(all.take(i + 1).last() == ls@[i as int]@);
        if has_prefix(&ls[i], &prefix) {
            let fs = split_fields(&ls[i]);
            if fs.len() >= 2 {
                match parse_u32(&fs[1]) {
                    Some(uid) => {
                        r.push(uid);
                    },
                    None => {},
                }
            }
        }
        i += 1;
    }
    assert(all.take(ls@.len() as int) =~= all);
    r
}

/// The kB figure of the first line starting with `prefix` whose second
/// field is a number.
pub open spec fn first_kb_spec(ls: Seq<Seq<char>>, prefix: Seq<char>) -> Option<u64>
    decreases ls.len(),
{
    if ls.len() == 0 {
        None
    } else {
        let l = ls[0];
        let fs = fields(l);
        if starts_with(l, prefix) && fs.len() >= 2 && parse_u64_spec(fs[1]) is Some {
            parse_u64_spec(fs[1])
        } else {
            first_kb_spec(ls.drop_first(), prefix)
        }
    }
}

/// That figure, when found, fits in 64 bits as bytes.
pub open spec fn first_kb_fits(content: Seq<char>, prefix: Seq<char>) -> bool {
    first_kb_spec(lines(content), prefix) matches Some(kb) ==> kb * 1024 <= u64::MAX
}

fn first_kb_number(content: &str, prefix: &str) -> (r: Option<u64>)
    ensures
        r == first_kb_spec(lines(content@), prefix@),
{
    let chars = chars_of(content);
    let ls = split_lines(&chars);
    let ghost all = lines(content@);
    let p = chars_of(prefix);
    let mut i: usize = 0;
    assert(all.skip(0) =~= all);
    while i < ls.len()
        invariant
            ls@.len() == all.len(),
            forall|k: int| 0 <= k < ls@.len() ==> #[trigger] ls@[k]@ == all[k],
            p@ == prefix@,
            all == lines(content@),
            i <= ls@.len(),
            first_kb_spec(all, prefix@) == first_kb_spec(all.skip(i as int), prefix@),
        decreases ls.len() - i,
    {
        assert(all.skip(i as int)[0] == ls@[i as int]@);
        assert(all.skip(i as int).drop_first() =~= all.skip(i + 1));
        if has_prefix(&ls[i], &p) {
            let fs = split_fields(&ls[i]);
            if fs.len() >= 2 {
                assert(fs@[1]@ == fields(all.skip(i as int)[0])[1]);
                match parse_u64(&fs[1]) {
                    Some(kb) => {
                        return Some(kb);
                    },
                    None => {},
                }
            }
        }
        i += 1;
    }
    None
}

/// Whether the figure that `first_kb_bytes` reads fits as bytes.
pub fn first_kb_value_fits(content: &str, prefix: &str) -> (b: bool)
    ensures
        b == first_kb_fits(content@, prefix@),
{
    match first_kb_number(content, prefix) {
        Some(kb) => kb <= u64::MAX / 1024,
        None => true,
    }
}

/// Bytes of the first `prefix` line of a meminfo-style text (`VmRSS:` of a
/// process status, `MemTotal:` of /proc/meminfo).
pub fn first_kb_bytes(content: &str, prefix: &str) -> (r: Option<u64>)
    requires
        first_kb_fits(content@, prefix@),
    ensures
        r == match first_kb_spec(lines(content@), prefix@) {
            Some(kb) => Some((kb * 1024) as u64),
            None => None,
        },
{
    match first_kb_number(content, prefix) {
        Some(kb) => Some(kb * 1024),
        None => None,
    }
}

/// A command line as /proc/<pid>/cmdline holds it, with NULs shown as
/// spaces and the ends trimmed.
pub open spec fn cmdline_spec(s: Seq<char>) -> Seq<char> {
    trim(s.map_values(|c: char| if c == '\0' { ' ' } else { c }))
}

pub fn normalize_cmdline(raw: &str) -> (r: String)
    ensures
        r@ == cmdline_spec(raw@),
{
    let s = chars_of(raw);
    let mut out: Vec<char> = Vec::new();
    let mut i: usize = 0;
    while i < s.len()
        invariant
            i <= s@.len(),
            out@ == s@.take(i as int).map_values(|c: char| if c == '\0' { ' ' } else { c }),
        decreases s.len() - i,
    {
        let c = if s[i] == '\0' {
            ' '
        } else {
            s[i]
        };
        out.push(c);
        assert(s@.take(i + 1).map_values(|c: char| if c == '\0' { ' ' } else { c }) =~= s@.take(
            i as int,
        ).map_values(|c: char| if c == '\0' { ' ' } else { c }).push(c));
        i += 1;
    }
    assert(s@.take(s@.len() as int) =~= s@);
    string_from_chars(&trim_chars(&out))
}

/// A text trimmed of surrounding whitespace.
pub fn trim_text(raw: &str) -> (r: String)
    ensures
        r@ == trim(raw@),
{
    string_from_chars(&trim_chars(&chars_of(raw)))
}

/// `now` is the entry `before`, its type possibly changed to
/// compute-and-graphics.
pub open spec fn kept_entry(now: ProcessEntry, before: ProcessEntry) -> bool {
    &&& now.gpu_index == before.gpu_index
    &&& now.pid == before.pid
    &&& now.gpu_memory_bytes == before.gpu_memory_bytes
    &&& (now.process_type == before.process_type || now.process_type
        == GpuProcessType::ComputeAndGraphics)
}

/// Adding graphics processes keeps every entry already listed in its
/// place, changing at most its type to compute-and-graphics, and keeps
/// each graphics-only process of the first `n` that it added.
proof fn lemma_with_graphics_keeps(
    es: Seq<ProcessEntry>,
    gpu: u32,
    compute: Seq<ProcessMemory>,
    graphics: Seq<ProcessMemory>,
    n: nat,
)
    requires
        n <= graphics.len(),
    ensures
        es.len() <= with_graphics(es, gpu, compute, graphics, n).len(),
        forall|i: int|
            0 <= i < es.len() ==> kept_entry(
                #[trigger] with_graphics(es, gpu, compute, graphics, n)[i],
                es[i],
            ),
        forall|k: int|
            0 <= k < n && !has_pid(compute, #[trigger] graphics[k].pid) ==> exists|j: int|
                es.len() <= j < with_graphics(es, gpu, compute, graphics, n).len() && with_graphics(
                    es,
                    gpu,
                    compute,
                    graphics,
                    n,
                )[j] == (ProcessEntry {
                    gpu_index: gpu,
                    pid: graphics[k].pid,
                    gpu_memory_bytes: match graphics[k].used_bytes {
                        Some(b) => b,
                        None => 0,
                    },
                    process_type: GpuProcessType::Graphics,
                }),
    decreases n,
{
    if n > 0 {
        lemma_with_graphics_keeps(es, gpu, compute, graphics, (n - 1) as nat);
        let e = with_graphics(es, gpu, compute, graphics, (n - 1) as nat);
        let r = with_graphics(es, gpu, compute, graphics, n);
        let p = graphics[n - 1];
        assert forall|i: int| 0 <= i < es.len() implies kept_entry(#[trigger] r[i], es[i]) by {
            lemma_entry_slot_in_range(e, gpu, p.pid, e.len());
            assert(kept_entry(e[i], es[i]));
        }
        if has_pid(compute, p.pid) {
            lemma_entry_slot_in_range(e, gpu, p.pid, e.len());
            assert forall|k: int|
                0 <= k < n && !has_pid(compute, #[trigger] graphics[k].pid) implies exists|j: int|
                    es.len() <= j < r.len() && r[j] == (ProcessEntry {
                        gpu_index: gpu,
                        pid: graphics[k].pid,
                        gpu_memory_bytes: match graphics[k].used_bytes {
                            Some(b) => b,
                            None => 0,
                        },
                        process_type: GpuProcessType::Graphics,
                    }) by {
                assert(k < n - 1);
                let j = choose|j: int|
                    es.len() <= j < e.len() && e[j] == (ProcessEntry {
                        gpu_index: gpu,
                        pid: graphics[k].pid,
                        gpu_memory_bytes: match graphics[k].used_bytes {
                            Some(b) => b,
                            None => 0,
                        },
                        process_type: GpuProcessType::Graphics,
                    });
                assert(r[j] == e[j]);
            }
        } else {
            assert forall|k: int|
                0 <= k < n && !has_pid(compute, #[trigger] graphics[k].pid) implies exists|j: int|
                    es.len() <= j < r.len() && r[j] == (ProcessEntry {
                        gpu_index: gpu,
                        pid: graphics[k].pid,
                        gpu_memory_bytes: match graphics[k].used_bytes {
                            Some(b) => b,
                            None => 0,
                        },
                        process_type: GpuProcessType::Graphics,
                    }) by {
                if k == n - 1 {
                    assert(r[e.len() as int] == r.last());
                } else {
                    let j = choose|j: int|
                        es.len() <= j < e.len() && e[j] == (ProcessEntry {
                            gpu_index: gpu,
                            pid: graphics[k].pid,
                            gpu_memory_bytes: match graphics[k].used_bytes {
                                Some(b) => b,
                                None => 0,
                            },
                            process_type: GpuProcessType::Graphics,
                        });
                    assert(r[j] == e[j]);
                }
            }
        }
    }
}

proof fn lemma_with_compute_entries(es: Seq<ProcessEntry>, gpu: u32, compute: Seq<ProcessMemory>, n: nat)
    requires
        n <= compute.len(),
    ensures
        ({
            let r = with_compute(es, gpu, compute, n);
            &&& r.len() == es.len() + n
            &&& forall|i: int| 0 <= i < es.len() ==> #[trigger] r[i] == es[i]
            &&& forall|k: int|
                0 <= k < n ==> #[trigger] r[es.len() + k] == (ProcessEntry {
                    gpu_index: gpu,
                    pid: compute[k].pid,
                    gpu_memory_bytes: match compute[k].used_bytes {
                        Some(b) => b,
                        None => 0,
                    },
                    process_type: GpuProcessType::Compute,
                })
        }),
    decreases n,
{
    if n > 0 {
        lemma_with_compute_entries(es, gpu, compute, (n - 1) as nat);
        let e = with_compute(es, gpu, compute, (n - 1) as nat);
        let r = with_compute(es, gpu, compute, n);
        assert forall|i: int| 0 <= i < es.len() implies #[trigger] r[i] == es[i] by {
            assert(r[i] == e[i]);
        }
        assert forall|k: int|
            0 <= k < n implies #[trigger] r[es.len() + k] == (ProcessEntry {
                gpu_index: gpu,
                pid: compute[k].pid,
                gpu_memory_bytes: match compute[k].used_bytes {
                    Some(b) => b,
                    None => 0,
                },
                process_type: GpuProcessType::Compute,
            }) by {
            if k < n - 1 {
                assert(r[es.len() + k] == e[es.len() + k]);
            }
        }
    }
}

/// Law: after the processes of a GPU are added, every graphics process
/// that is not also a compute process of that GPU is listed once more as a
/// graphics process of that GPU, with the GPU memory NVML reports for it
/// (0 where it reports none); the entries listed before are kept in place.
pub proof fn lemma_graphics_only_process_listed(
    es: Seq<ProcessEntry>,
    gpu: u32,
    compute: Seq<ProcessMemory>,
    graphics: Seq<ProcessMemory>,
    k: int,
)
    requires
        0 <= k < graphics.len(),
        !has_pid(compute, graphics[k].pid),
    ensures
        ({
            let r = with_graphics(
                with_compute(es, gpu, compute, compute.len()),
                gpu,
                compute,
                graphics,
                graphics.len(),
            );
            exists|j: int|
                es.len() + compute.len() <= j < r.len() && r[j] == (ProcessEntry {
                    gpu_index: gpu,
                    pid: graphics[k].pid,
                    gpu_memory_bytes: match graphics[k].used_bytes {
                        Some(b) => b,
                        None => 0,
                    },
                    process_type: GpuProcessType::Graphics,
                })
        }),
{
    let mid = with_compute(es, gpu, compute, compute.len());
    let r = with_graphics(mid, gpu, compute, graphics, graphics.len());
    lemma_with_compute_entries(es, gpu, compute, compute.len());
    lemma_with_graphics_keeps(mid, gpu, compute, graphics, graphics.len());
}

/// Law: after the processes of a GPU are added, its compute processes
/// follow the entries listed before, in NVML's order, each with its PID,
/// the GPU and the GPU memory NVML reports for it (0 where it reports
/// none), as a compute process or, where it is a graphics process too, as
/// both.
pub proof fn lemma_compute_processes_listed(
    es: Seq<ProcessEntry>,
    gpu: u32,
    compute: Seq<ProcessMemory>,
    graphics: Seq<ProcessMemory>,
    k: int,
)
    requires
        0 <= k < compute.len(),
    ensures
        ({
            let r = with_graphics(
                with_compute(es, gpu, compute, compute.len()),
                gpu,
                compute,
                graphics,
                graphics.len(),
            );
            &&& es.len() + compute.len() <= r.len()
            &&& r[es.len() + k].gpu_index == gpu
            &&& r[es.len() + k].pid == compute[k].pid
            &&& r[es.len() + k].gpu_memory_bytes == match compute[k].used_bytes {
                Some(b) => b,
                None => 0,
            }
            &&& (r[es.len() + k].process_type == GpuProcessType::Compute || r[es.len()
                + k].process_type == GpuProcessType::ComputeAndGraphics)
        }),
{
    let mid = with_compute(es, gpu, compute, compute.len());
    lemma_with_compute_entries(es, gpu, compute, compute.len());
    lemma_with_graphics_keeps(mid, gpu, compute, graphics, graphics.len());
    let r = with_graphics(mid, gpu, compute, graphics, graphics.len());
    assert(kept_entry(r[es.len() + k], mid[es.len() + k]));
}

} // verus!
