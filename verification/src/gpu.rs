//! GPU facts that do not need floating point: process kinds, NVLink links
//! and their peers, the memory figures, kind and known bandwidths of
//! unified-memory GPUs, and the CUDA version text.
use crate::cpu::{sat_add, sat_sub};
use crate::text::{
    ascii_lower, ascii_lowercase, chars_equal, chars_of, contains, decimal, has_substring, occurs_at, push_decimal,
    string_from_chars, to_ascii_lowercase,
};
use vstd::prelude::*;

verus! {

/// How a process uses a GPU.
#[derive(PartialEq, Eq, Structural, Clone, Copy, Debug)]
pub enum GpuProcessType {
    Compute,
    Graphics,
    ComputeAndGraphics,
    Unknown,
}

impl GpuProcessType {
    /// The text shown for the kind.
    pub fn label(&self) -> (r: &'static str)
        ensures
            r@ == match *self {
                GpuProcessType::Compute => "Compute"@,
                GpuProcessType::Graphics => "Graphics"@,
                GpuProcessType::ComputeAndGraphics => "C+G"@,
                GpuProcessType::Unknown => "Unknown"@,
            },
    {
        match self {
            GpuProcessType::Compute => "Compute",
            GpuProcessType::Graphics => "Graphics",
            GpuProcessType::ComputeAndGraphics => "C+G",
            GpuProcessType::Unknown => "Unknown",
        }
    }

    /// The text shown for the kind, as an owned string.
    pub fn to_string(&self) -> (r: String)
        ensures
            r@ == match *self {
                GpuProcessType::Compute => "Compute"@,
                GpuProcessType::Graphics => "Graphics"@,
                GpuProcessType::ComputeAndGraphics => "C+G"@,
                GpuProcessType::Unknown => "Unknown"@,
            },
    {
        string_from_chars(&chars_of(self.label()))
    }
}

/// NVLink connection statistics.
#[derive(PartialEq, Eq, Structural, Clone, Copy, Debug)]
pub struct NvLinkStats {
    pub gpu_index: u32,
    pub link_index: u32,
    pub is_active: bool,
    pub tx_bytes_per_sec: u64,
    pub rx_bytes_per_sec: u64,
    pub remote_gpu_index: Option<u32>,
}

/// The GPU at the far end of an NVLink: the first GPU among the first `n`,
/// other than the link's own, whose PCI bus id is the remote end's.
pub open spec fn peer_gpu_spec(own: u32, remote_bus_id: Seq<char>, bus_ids: Seq<Option<String>>, n: nat) -> Option<u32>
    decreases n,
{
    if n == 0 {
        None
    } else {
        match peer_gpu_spec(own, remote_bus_id, bus_ids, (n - 1) as nat) {
            Some(k) => Some(k),
            None => if (n - 1) != own as int && (bus_ids[n - 1] matches Some(b) && b@ == remote_bus_id) {
                Some((n - 1) as u32)
            } else {
                None
            },
        }
    }
}

/// Finds the GPU at the far end of an NVLink of GPU `own` from the PCI bus
/// ids of all GPUs, by index (`None` where a GPU's bus id could not be read).
pub fn peer_gpu(own: u32, remote_bus_id: &str, bus_ids: &[Option<String>]) -> (r: Option<u32>)
    requires
        bus_ids@.len() <= u32::MAX + 1,
    ensures
        r == peer_gpu_spec(own, remote_bus_id@, bus_ids@, bus_ids@.len()),
{
    let remote = chars_of(remote_bus_id);
    let mut k: usize = 0;
    while k < bus_ids.len()
        invariant
            k <= bus_ids@.len(),
            bus_ids@.len() <= u32::MAX + 1,
            remote@ == remote_bus_id@,
            peer_gpu_spec(own, remote_bus_id@, bus_ids@, k as nat) is None,
        decreases bus_ids.len() - k,
    {
        if k as u32 != own {
            match &bus_ids[k] {
                Some(b) => {
                    if chars_equal(&chars_of(b.as_str()), &remote) {
                        proof {
                            lemma_peer_gpu_stable(own, remote_bus_id@, bus_ids@, (k + 1) as nat, bus_ids@.len());
                        }
                        return Some(k as u32);
                    }
                },
                None => {},
            }
        }
        k += 1;
    }
    None
}

proof fn lemma_peer_gpu_stable(own: u32, remote: Seq<char>, bus_ids: Seq<Option<String>>, m: nat, n: nat)
    requires
        m <= n,
        peer_gpu_spec(own, remote, bus_ids, m) is Some,
    ensures
        peer_gpu_spec(own, remote, bus_ids, n) == peer_gpu_spec(own, remote, bus_ids, m),
    decreases n - m,
{
    if m < n {
        lemma_peer_gpu_stable(own, remote, bus_ids, m, (n - 1) as nat);
    }
}

// ---------------------------------------------------------------------
// Unified memory GPUs
// ---------------------------------------------------------------------

/// Used, total and free memory of a GPU whose memory NVML does not report
/// (one that shares system memory): its processes' GPU memory against the
/// system's RAM (0 when that is unknown).
pub fn shared_memory_figures(system_total: Option<u64>, process_used: u64) -> (r: (u64, u64, u64))
    ensures
        ({
            let total = match system_total {
                Some(t) => t,
                None => 0,
            };
            r == (process_used, total, sat_sub(total, process_used))
        }),
{
    let total = match system_total {
        Some(t) => t,
        None => 0,
    };
    (process_used, total, total.saturating_sub(process_used))
}


/// Memory kind shown for a GPU.
pub open spec fn memory_type_spec(name: Seq<char>, is_shared: bool) -> Seq<char> {
    let l = ascii_lowercase(name);
    if !is_shared {
        "GDDR/HBM"@
    } else if contains(l, "gb10"@) || contains(l, "gh200"@) || contains(l, "gh100"@) {
        "LPDDR5X (Unified)"@
    } else if contains(l, "orin"@) {
        "LPDDR5 (Unified)"@
    } else if contains(l, "xavier"@) {
        "LPDDR4x (Unified)"@
    } else {
        "Unified Memory"@
    }
}

/// Descriptive text for the memory kind of a GPU.
pub fn memory_type_label(name: &str, memory_is_shared: bool) -> (r: &'static str)
    ensures
        r@ == memory_type_spec(name@, memory_is_shared),
{
    if !memory_is_shared {
        return "GDDR/HBM";
    }
    let l = to_ascii_lowercase(&chars_of(name));
    if has_substring(&l, &chars_of("gb10")) || has_substring(&l, &chars_of("gh200"))
        || has_substring(&l, &chars_of("gh100")) {
        "LPDDR5X (Unified)"
    } else if has_substring(&l, &chars_of("orin")) {
        "LPDDR5 (Unified)"
    } else if has_substring(&l, &chars_of("xavier")) {
        "LPDDR4x (Unified)"
    } else {
        "Unified Memory"
    }
}

/// Published memory bandwidth, in tenths of GB/s, of unified-memory GPUs
/// whose memory clock and bus width NVML cannot report: GB10 273, GH200 /
/// Grace Hopper / GH100 546, Orin 204.8, Xavier (not NX) 136.5.
pub open spec fn unified_bandwidth_spec(name: Seq<char>) -> Option<u32> {
    let l = ascii_lowercase(name);
    if contains(l, "gb10"@) {
        Some(2730)
    } else if contains(l, "gh200"@) || contains(l, "grace hopper"@) {
        Some(5460)
    } else if contains(l, "gh100"@) {
        Some(5460)
    } else if contains(l, "orin"@) {
        Some(2048)
    } else if contains(l, "xavier"@) && !contains(l, "nx"@) {
        Some(1365)
    } else {
        None
    }
}

/// Known memory bandwidth of a unified-memory GPU by name, in tenths of
/// GB/s.
pub fn unified_memory_bandwidth_decigbps(name: &str) -> (r: Option<u32>)
    ensures
        r == unified_bandwidth_spec(name@),
{
    let l = to_ascii_lowercase(&chars_of(name));
    if has_substring(&l, &chars_of("gb10")) {
        Some(2730)
    } else if has_substring(&l, &chars_of("gh200")) || has_substring(&l, &chars_of("grace hopper")) {
        Some(5460)
    } else if has_substring(&l, &chars_of("gh100")) {
        Some(5460)
    } else if has_substring(&l, &chars_of("orin")) {
        Some(2048)
    } else if has_substring(&l, &chars_of("xavier")) && !has_substring(&l, &chars_of("nx")) {
        Some(1365)
    } else {
        None
    }
}

// ---------------------------------------------------------------------
// CUDA driver version
// ---------------------------------------------------------------------

/// Rust's `/` on integers: the quotient rounded toward zero.
pub open spec fn trunc_div(a: int, b: int) -> int {
    if a >= 0 {
        a / b
    } else {
        -((-a) / b)
    }
}

/// Rust's `%` on integers: the remainder with the sign of `a`.
pub open spec fn trunc_rem(a: int, b: int) -> int {
    a - b * trunc_div(a, b)
}

/// `{}` of a signed number.
pub open spec fn signed_decimal(n: int) -> Seq<char> {
    if n < 0 {
        seq!['-'] + decimal((-n) as nat)
    } else {
        decimal(n as nat)
    }
}

/// `"{major}.{minor}"` of an NVML CUDA driver version number (1000 ×
/// major + 10 × minor).
pub open spec fn cuda_version_spec(v: int) -> Seq<char> {
    signed_decimal(trunc_div(v, 1000)) + seq!['.'] + signed_decimal(
        trunc_div(trunc_rem(v, 1000), 10),
    )
}

fn push_signed(negative: bool, magnitude: u64, out: &mut Vec<char>)
    ensures
        final(out)@ == old(out)@ + signed_decimal(if negative { -(magnitude as int) } else { magnitude as int }),
{
    if negative && magnitude > 0 {
        out.push('-');
        let ghost mid = out@;
        push_decimal(magnitude, out);
        assert(out@ =~= old(out)@ + (seq!['-'] + decimal(magnitude as nat)));
    } else {
        push_decimal(magnitude, out);
    }
}

/// The CUDA driver version as text, e.g. 12040 gives "12.4".
pub fn cuda_version_string(v: i32) -> (r: String)
    ensures
        r@ == cuda_version_spec(v as int),
{
    let negative = v < 0;
    let m: u64 = if negative {
        (-(v as i64)) as u64
    } else {
        v as u64
    };
    let q = m / 1000;
    let rem = (m % 1000) / 10;
    let mut out: Vec<char> = Vec::new();
    push_signed(negative, q, &mut out);
    out.push('.');
    push_signed(negative, rem, &mut out);
    proof {
        let a = v as int;
        assert(trunc_div(a, 1000) == if negative { -(q as int) } else { q as int });
        assert(trunc_rem(a, 1000) == if negative { -((m % 1000) as int) } else { (m % 1000) as int });
        assert(trunc_div(trunc_rem(a, 1000), 10) == if negative { -(rem as int) } else { rem as int });
        assert(out@ =~= cuda_version_spec(a));
    }
    string_from_chars(&out)
}

/// `p` (written in small letters) occurs in `name`, capitals of `name`
/// read as small letters.
pub open spec fn mentions(name: Seq<char>, p: Seq<char>) -> bool {
    exists|i: int| #[trigger] mentioned_at(name, p, i)
}

/// `p` (in small letters) stands in `name` from position `i` on.
pub open spec fn mentioned_at(name: Seq<char>, p: Seq<char>, i: int) -> bool {
    0 <= i && i + p.len() <= name.len() && forall|k: int|
        0 <= k < p.len() ==> ascii_lower(#[trigger] name[i + k]) == p[k]
}

proof fn lemma_mentions_iff_contains(name: Seq<char>, p: Seq<char>)
    ensures
        mentions(name, p) == contains(ascii_lowercase(name), p),
{
    let l = ascii_lowercase(name);
    if mentions(name, p) {
        let i = choose|i: int| mentioned_at(name, p, i);
        assert forall|k: int| 0 <= k < p.len() implies l.subrange(i, i + p.len())[k] == p[k] by {
            assert(ascii_lower(name[i + k]) == p[k]);
        }
        assert(l.subrange(i, i + p.len()) =~= p);
        assert(occurs_at(l, p, i));
    }
    if contains(l, p) {
        let i = choose|i: int| occurs_at(l, p, i);
        assert forall|k: int| 0 <= k < p.len() implies ascii_lower(#[trigger] name[i + k]) == p[k] by {
            assert(l.subrange(i, i + p.len())[k] == l[i + k]);
        }
        assert(mentioned_at(name, p, i));
    }
}

/// Law: the published bandwidths, by what the GPU's name mentions (in
/// any case): GB10 gives 273 GB/s; otherwise GH200, Grace Hopper or GH100
/// give 546 GB/s; otherwise Orin gives 204.8 GB/s; otherwise Xavier, but
/// not Xavier NX, gives 136.5 GB/s; any other name has none. (In tenths of
/// GB/s.)
pub proof fn lemma_published_bandwidths(name: Seq<char>)
    ensures
        mentions(name, "gb10"@) ==> unified_bandwidth_spec(name) == Some(2730u32),
        !mentions(name, "gb10"@) && (mentions(name, "gh200"@) || mentions(name, "grace hopper"@)
            || mentions(name, "gh100"@)) ==> unified_bandwidth_spec(name) == Some(5460u32),
        !mentions(name, "gb10"@) && !mentions(name, "gh200"@) && !mentions(name, "grace hopper"@)
            && !mentions(name, "gh100"@) && mentions(name, "orin"@) ==> unified_bandwidth_spec(name)
            == Some(2048u32),
        !mentions(name, "gb10"@) && !mentions(name, "gh200"@) && !mentions(name, "grace hopper"@)
            && !mentions(name, "gh100"@) && !mentions(name, "orin"@) && mentions(name, "xavier"@)
            && !mentions(name, "nx"@) ==> unified_bandwidth_spec(name) == Some(1365u32),
        !mentions(name, "gb10"@) && !mentions(name, "gh200"@) && !mentions(name, "grace hopper"@)
            && !mentions(name, "gh100"@) && !mentions(name, "orin"@) && !(mentions(name, "xavier"@)
            && !mentions(name, "nx"@)) ==> unified_bandwidth_spec(name) is None,
{
    lemma_mentions_iff_contains(name, "gb10"@);
    lemma_mentions_iff_contains(name, "gh200"@);
    lemma_mentions_iff_contains(name, "grace hopper"@);
    lemma_mentions_iff_contains(name, "gh100"@);
    lemma_mentions_iff_contains(name, "orin"@);
    lemma_mentions_iff_contains(name, "xavier"@);
    lemma_mentions_iff_contains(name, "nx"@);
}

/// Law: the memory kind shown, by what the GPU's name mentions (in any
/// case): a GPU with memory of its own has GDDR/HBM; a unified-memory GB10,
/// GH200 or GH100 has LPDDR5X, otherwise Orin has LPDDR5, otherwise Xavier
/// has LPDDR4x, and any other has plain unified memory.
pub proof fn lemma_memory_kinds(name: Seq<char>, is_shared: bool)
    ensures
        !is_shared ==> memory_type_spec(name, is_shared) == "GDDR/HBM"@,
        is_shared && (mentions(name, "gb10"@) || mentions(name, "gh200"@) || mentions(name, "gh100"@))
            ==> memory_type_spec(name, is_shared) == "LPDDR5X (Unified)"@,
        is_shared && !mentions(name, "gb10"@) && !mentions(name, "gh200"@) && !mentions(name, "gh100"@)
            && mentions(name, "orin"@) ==> memory_type_spec(name, is_shared) == "LPDDR5 (Unified)"@,
        is_shared && !mentions(name, "gb10"@) && !mentions(name, "gh200"@) && !mentions(name, "gh100"@)
            && !mentions(name, "orin"@) && mentions(name, "xavier"@) ==> memory_type_spec(
            name,
            is_shared,
        ) == "LPDDR4x (Unified)"@,
        is_shared && !mentions(name, "gb10"@) && !mentions(name, "gh200"@) && !mentions(name, "gh100"@)
            && !mentions(name, "orin"@) && !mentions(name, "xavier"@) ==> memory_type_spec(
            name,
            is_shared,
        ) == "Unified Memory"@,
{
    lemma_mentions_iff_contains(name, "gb10"@);
    lemma_mentions_iff_contains(name, "gh200"@);
    lemma_mentions_iff_contains(name, "gh100"@);
    lemma_mentions_iff_contains(name, "orin"@);
    lemma_mentions_iff_contains(name, "xavier"@);
}

} // verus!
