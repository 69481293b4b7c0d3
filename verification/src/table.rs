//! The process table: which processes pass the filter, and how long cell
//! text is cut to fit its column.
use crate::text::{
    chars_of, contains, decimal, decimal_chars, has_substring, string_from_chars, to_lowercase,
    unicode_lowercase,
};
use vstd::prelude::*;

verus! {

/// Cuts `s` to at most `max_len` characters, ending in `…` when cut.
pub open spec fn truncated(s: Seq<char>, max_len: nat) -> Seq<char> {
    if max_len == 0 {
        Seq::empty()
    } else if s.len() <= max_len {
        s
    } else {
        s.take(max_len - 1).push('…')
    }
}

/// Text cut to fit a column of `max_len` characters.
pub fn truncate_str(s: &str, max_len: usize) -> (r: String)
    ensures
        r@ == truncated(s@, max_len as nat),
{
    if max_len == 0 {
        return String::new();
    }
    let chars = chars_of(s);
    if chars.len() <= max_len {
        return string_from_chars(&chars);
    }
    let mut out: Vec<char> = Vec::new();
    let mut i: usize = 0;
    while i < max_len - 1
        invariant
            max_len < chars@.len(),
            i <= max_len - 1,
            out@ == chars@.take(i as int),
        decreases max_len - 1 - i,
    {
        out.push(chars[i]);
        assert(chars@.take(i + 1) =~= chars@.take(i as int).push(chars@[i as int]));
        i += 1;
    }
    out.push('…');
    string_from_chars(&out)
}

/// Who a GPU process is, as the filter sees it.
#[derive(Debug, Clone)]
pub struct ProcessIdentity {
    pub pid: u32,
    pub user: String,
    pub command: String,
}

/// A process whose command and user are already lower-cased matches the
/// lower-cased filter text when its command or user, or its PID in
/// decimal, holds that text.
pub open spec fn lowered_match(pid: u32, user: Seq<char>, command: Seq<char>, filter: Seq<char>) -> bool {
    ||| contains(command, filter)
    ||| contains(user, filter)
    ||| contains(decimal(pid as nat), filter)
}

/// A process passes the filter when the filter is empty, or when its
/// lower-cased command or user, or its PID in decimal, holds the
/// lower-cased filter text.
pub open spec fn passes_filter(pid: u32, user: Seq<char>, command: Seq<char>, filter: Seq<char>) -> bool {
    ||| filter.len() == 0
    ||| lowered_match(
        pid,
        unicode_lowercase(user),
        unicode_lowercase(command),
        unicode_lowercase(filter),
    )
}

/// Whether a process, with its user and command lower-cased, matches the
/// lower-cased filter text.
pub fn lowered_process_matches(pid: u32, user: &str, command: &str, filter: &str) -> (b: bool)
    ensures
        b == lowered_match(pid, user@, command@, filter@),
{
    let f = chars_of(filter);
    if has_substring(&chars_of(command), &f) {
        return true;
    }
    if has_substring(&chars_of(user), &f) {
        return true;
    }
    has_substring(&decimal_chars(pid as u64), &f)
}

pub fn process_matches_filter(pid: u32, user: &str, command: &str, filter: &str) -> (b: bool)
    ensures
        b == passes_filter(pid, user@, command@, filter@),
{
    if filter.is_empty() {
        return true;
    }
    let f = to_lowercase(filter);
    let c = to_lowercase(command);
    let u = to_lowercase(user);
    lowered_process_matches(pid, u.as_str(), c.as_str(), f.as_str())
}

/// Positions, in order, of the first `n` processes that pass the filter.
pub open spec fn matching_rows(procs: Seq<ProcessIdentity>, filter: Seq<char>, n: nat) -> Seq<usize>
    decreases n,
{
    if n == 0 {
        Seq::empty()
    } else {
        let before = matching_rows(procs, filter, (n - 1) as nat);
        let p = procs[n - 1];
        if passes_filter(p.pid, p.user@, p.command@, filter) {
            before.push((n - 1) as usize)
        } else {
            before
        }
    }
}

/// Every position listed is a position of the table, listed in increasing order.
pub proof fn lemma_matching_rows_in_range(procs: Seq<ProcessIdentity>, filter: Seq<char>, n: nat)
    requires
        n <= procs.len(),
        procs.len() <= usize::MAX,
    ensures
        forall|j: int|
            0 <= j < matching_rows(procs, filter, n).len() ==> #[trigger] matching_rows(
                procs,
                filter,
                n,
            )[j] < n,
    decreases n,
{
    if n > 0 {
        lemma_matching_rows_in_range(procs, filter, (n - 1) as nat);
        let before = matching_rows(procs, filter, (n - 1) as nat);
        let now = matching_rows(procs, filter, n);
        assert forall|j: int| 0 <= j < now.len() implies #[trigger] now[j] < n by {
            if j < before.len() {
                assert(now[j] == before[j]);
            }
        }
    }
}

/// Positions of the processes that pass the filter, in table order.
pub fn filtered_rows(procs: &[ProcessIdentity], filter: &str) -> (r: Vec<usize>)
    ensures
        r@ == matching_rows(procs@, filter@, procs@.len()),
{
    let mut r: Vec<usize> = Vec::new();
    let mut i: usize = 0;
    while i < procs.len()
        invariant
            i <= procs@.len(),
            r@ == matching_rows(procs@, filter@, i as nat),
        decreases procs.len() - i,
    {
        let p = &procs[i];
        if process_matches_filter(p.pid, p.user.as_str(), p.command.as_str(), filter) {
            r.push(i);
        }
        i += 1;
    }
    r
}

/// The PIDs of the processes that pass the filter, in table order.
pub fn filtered_pids(procs: &[ProcessIdentity], filter: &str) -> (r: Vec<u32>)
    ensures
        r@.len() == matching_rows(procs@, filter@, procs@.len()).len(),
        forall|k: int|
            0 <= k < r@.len() ==> #[trigger] r@[k] == procs@[matching_rows(
                procs@,
                filter@,
                procs@.len(),
            )[k] as int].pid,
{
    let rows = filtered_rows(procs, filter);
    assert(procs@.len() == procs.len());
    proof {
        lemma_matching_rows_in_range(procs@, filter@, procs@.len());
    }
    let mut r: Vec<u32> = Vec::new();
    let mut k: usize = 0;
    while k < rows.len()
        invariant
            k <= rows@.len(),
            rows@ == matching_rows(procs@, filter@, procs@.len()),
            forall|j: int| 0 <= j < rows@.len() ==> rows@[j] < procs@.len(),
            r@.len() == k,
            forall|j: int| 0 <= j < k ==> #[trigger] r@[j] == procs@[rows@[j] as int].pid,
        decreases rows.len() - k,
    {
        r.push(procs[rows[k]].pid);
        k += 1;
    }
    r
}

/// Law: with an empty filter every process is listed, in table order.
pub proof fn lemma_empty_filter_lists_all(procs: Seq<ProcessIdentity>, n: nat)
    requires
        n <= procs.len(),
        procs.len() <= usize::MAX,
    ensures
        matching_rows(procs, Seq::empty(), n) == Seq::new(n, |i: int| i as usize),
    decreases n,
{
    if n > 0 {
        lemma_empty_filter_lists_all(procs, (n - 1) as nat);
        assert(matching_rows(procs, Seq::empty(), n) =~= Seq::new(n, |i: int| i as usize));
    } else {
        assert(matching_rows(procs, Seq::empty(), n) =~= Seq::new(n, |i: int| i as usize));
    }
}

} // verus!
