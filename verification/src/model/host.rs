//! Host-wide rows of the system monitor that carry no measured rates.
use vstd::prelude::*;

use crate::config::SortOrder;
use crate::order::{
    float_order, float_rank, key_of, keys_view, sorted_positions, stable_order, KeyView, SortKey,
};
use crate::text::{
    chars_of, contains, contains_seq, has_prefix, lower, lower_char, lower_char_exec,
    push_signed_decimal, signed_decimal, to_lower,
};

verus! {

#[derive(Clone, Debug, Default)]
pub struct FsRow {
    /// Source device as written in `/proc/mounts` (e.g. `/dev/sda3`).
    pub device: String,
    pub mountpoint: String,
    pub fstype: String,
    /// Partition capacity from `/proc/partitions`, 0 when unknown.
    pub size_bytes: u64,
}

/// A process filter matches when, ignoring ASCII case, the query occurs in
/// the name or in the pid, or is the single letter of the process state.
pub open spec fn process_matches_spec(name: Seq<char>, pid: i32, state: char, query: Seq<char>) -> bool {
    let q = lower(query);
    ||| contains_seq(lower(name), q)
    ||| contains_seq(signed_decimal(pid as int), q)
    ||| (q.len() == 1 && has_prefix(q, seq![lower_char(state)]))
}

/// Whether a process row (name, pid, state) matches the filter `query`.
pub fn process_matches(name: &str, pid: i32, state: char, query: &str) -> (r: bool)
    ensures
        r == process_matches_spec(name@, pid, state, query@),
{
    let q = to_lower(&chars_of(query));
    if contains(&to_lower(&chars_of(name)), &q) {
        return true;
    }
    let mut digits: Vec<char> = Vec::new();
    push_signed_decimal(&mut digits, pid as i64);
    assert(digits@ =~= signed_decimal(pid as int));
    if contains(&digits, &q) {
        return true;
    }
    let s = lower_char_exec(state);
    if q.len() == 1 && q[0] == s {
        assert(q@.take(1) =~= seq![s]);
        true
    } else {
        assert(q@.len() == 1 ==> q@.take(1)[0] == q@[0]);
        false
    }
}

// ---------------------------------------------------------------------------
// The process listing
// ---------------------------------------------------------------------------

/// What the process listing filters and sorts by: the bits of the CPU
/// share and the resident bytes.
pub struct ProcessEntry {
    pub pid: i32,
    pub name: String,
    pub state: char,
    pub cpu_bits: u64,
    pub rss_bytes: u64,
}

pub open spec fn entry_shown(p: ProcessEntry, filter: Seq<char>) -> bool {
    filter.len() == 0 || process_matches_spec(p.name@, p.pid, p.state, filter)
}

/// Positions of the processes the filter keeps, in order.
pub open spec fn entry_positions(ps: Seq<ProcessEntry>, filter: Seq<char>) -> Seq<usize>
    decreases ps.len(),
{
    if ps.len() == 0 {
        Seq::empty()
    } else {
        let prev = entry_positions(ps.drop_last(), filter);
        if entry_shown(ps.last(), filter) {
            prev.push((ps.len() - 1) as usize)
        } else {
            prev
        }
    }
}

/// Sort key of a process: CPU share or memory descending, or name (ASCII
/// case ignored) ascending.
pub open spec fn entry_key(p: ProcessEntry, sort: SortOrder) -> KeyView {
    match sort {
        SortOrder::Cpu => ((u64::MAX - float_order(p.cpu_bits)) as u64, 0u64, Seq::empty()),
        SortOrder::Memory => ((u64::MAX - p.rss_bytes) as u64, 0u64, Seq::empty()),
        _ => (0u64, 0u64, lower(p.name@)),
    }
}

/// The process listing: the processes the filter keeps, sorted (stably) by
/// CPU share, memory or name, and left in sampled order for the orders that
/// do not apply to processes (uptime, status).
pub open spec fn process_listing_spec(
    ps: Seq<ProcessEntry>,
    sort: SortOrder,
    filter: Seq<char>,
) -> Seq<usize> {
    let vis = entry_positions(ps, filter);
    match sort {
        SortOrder::Uptime | SortOrder::Status => vis,
        _ => sorted_positions(vis.map_values(|i: usize| entry_key(ps[i as int], sort))).map_values(
            |j: usize| vis[j as int],
        ),
    }
}

fn entry_sort_key(p: &ProcessEntry, sort: SortOrder) -> (k: SortKey)
    requires
        !(sort is Uptime || sort is Status),
    ensures
        key_of(k) == entry_key(*p, sort),
{
    match sort {
        SortOrder::Cpu => SortKey { rank: u64::MAX - float_rank(p.cpu_bits), tie: 0, text: Vec::new() },
        SortOrder::Memory => SortKey { rank: u64::MAX - p.rss_bytes, tie: 0, text: Vec::new() },
        _ => SortKey { rank: 0, tie: 0, text: to_lower(&chars_of(p.name.as_str())) },
    }
}

/// Positions of the processes listed under `filter`, in display order.
pub fn process_listing(ps: &Vec<ProcessEntry>, sort: SortOrder, filter: &str) -> (r: Vec<usize>)
    ensures
        r@ == process_listing_spec(ps@, sort, filter@),
{
    let ghost pv = ps@;
    let mut vis: Vec<usize> = Vec::new();
    let mut i: usize = 0;
    while i < ps.len()
        invariant
            pv == ps@,
            i <= ps.len(),
            vis@ == entry_positions(pv.take(i as int), filter@),
            forall|k: int| 0 <= k < vis@.len() ==> (#[trigger] vis@[k]) < i,
        decreases ps.len() - i,
    {
        assert(pv.take(i + 1).drop_last() == pv.take(i as int));
        assert(pv.take(i + 1).last() == pv[i as int]);
        let p = &ps[i];
        if filter.is_empty() || process_matches(p.name.as_str(), p.pid, p.state, filter) {
            vis.push(i);
        }
        i += 1;
    }
    assert(pv.take(ps.len() as int) == pv);
    match sort {
        SortOrder::Uptime | SortOrder::Status => {
            return vis;
        },
        _ => {},
    }
    let ghost keys_spec = vis@.map_values(|i: usize| entry_key(pv[i as int], sort));
    let mut keys: Vec<SortKey> = Vec::new();
    let mut j: usize = 0;
    while j < vis.len()
        invariant
            pv == ps@,
            !(sort is Uptime || sort is Status),
            forall|k: int| 0 <= k < vis@.len() ==> (#[trigger] vis@[k]) < ps.len(),
            keys_spec == vis@.map_values(|i: usize| entry_key(pv[i as int], sort)),
            j <= vis.len(),
            keys_view(keys@) == keys_spec.take(j as int),
        decreases vis.len() - j,
    {
        let k = entry_sort_key(&ps[vis[j]], sort);
        let ghost before = keys_view(keys@);
        keys.push(k);
        proof {
            assert(keys_view(keys@) =~= before.push(key_of(k)));
            assert(keys_spec.take(j + 1) =~= keys_spec.take(j as int).push(keys_spec[j as int]));
        }
        j += 1;
    }
    assert(keys_spec.take(vis.len() as int) == keys_spec);
    let order = stable_order(&keys);
    let mut out: Vec<usize> = Vec::new();
    let mut m: usize = 0;
    while m < order.len()
        invariant
            forall|a: int| 0 <= a < order@.len() ==> (#[trigger] order@[a]) < vis@.len(),
            m <= order.len(),
            out@ == order@.take(m as int).map_values(|x: usize| vis@[x as int]),
        decreases order.len() - m,
    {
        let x = order[m];
        out.push(vis[x]);
        assert(order@.take(m + 1).map_values(|x: usize| vis@[x as int]) =~= order@.take(
            m as int,
        ).map_values(|x: usize| vis@[x as int]).push(vis@[x as int]));
        m += 1;
    }
    assert(order@.take(order.len() as int) == order@);
    out
}

} // verus!
