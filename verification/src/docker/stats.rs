//! Raw counters of one container stats sample.
use vstd::prelude::*;

use crate::model::Metrics;
use crate::text::{chars_of, chars_eq_str, lower, to_lower};

verus! {

#[derive(Clone, Copy, Debug, Default)]
pub struct RawStats {
    pub cpu_total: u64,
    pub system_cpu: u64,
    pub online_cpus: u64,
    pub memory: u64,
    pub memory_limit: u64,
    pub network_rx: u64,
    pub network_tx: u64,
    pub block_read: u64,
    pub block_write: u64,
    pub pids: u64,
}

/// The fields of a stats response the counters are read from, as the API
/// reports them: CPU usage, memory, each network interface's received and
/// sent bytes, the recursive block I/O entries as (operation, bytes), and
/// the process count.
pub struct StatsFields {
    pub cpu_total: Option<u64>,
    pub system_cpu: Option<u64>,
    pub online_cpus: Option<u32>,
    pub memory_usage: Option<u64>,
    pub memory_limit: Option<u64>,
    pub networks: Option<Vec<(Option<u64>, Option<u64>)>>,
    pub block_io: Option<Vec<(Option<String>, Option<u64>)>>,
    pub pids: Option<u64>,
}

pub open spec fn or_zero(v: Option<u64>) -> u64 {
    match v {
        Some(x) => x,
        None => 0,
    }
}

/// Received and sent bytes summed over the interfaces, in `u64` arithmetic
/// that wraps around on overflow.
pub open spec fn network_totals(s: Seq<(Option<u64>, Option<u64>)>) -> (u64, u64)
    decreases s.len(),
{
    if s.len() == 0 {
        (0, 0)
    } else {
        let p = network_totals(s.drop_last());
        (
            vstd::wrapping::u64_specs::wrapping_add(p.0, or_zero(s.last().0)),
            vstd::wrapping::u64_specs::wrapping_add(p.1, or_zero(s.last().1)),
        )
    }
}

pub open spec fn op_name(op: Option<String>) -> Seq<char> {
    match op {
        Some(o) => lower(o@),
        None => Seq::empty(),
    }
}

/// Bytes read and written: the entries whose operation is `read` or
/// `write` (ASCII case ignored), summed with wrap-around.
pub open spec fn block_totals(s: Seq<(Option<String>, Option<u64>)>) -> (u64, u64)
    decreases s.len(),
{
    if s.len() == 0 {
        (0, 0)
    } else {
        let p = block_totals(s.drop_last());
        let op = op_name(s.last().0);
        let v = or_zero(s.last().1);
        if op == "read"@ {
            (vstd::wrapping::u64_specs::wrapping_add(p.0, v), p.1)
        } else if op == "write"@ {
            (p.0, vstd::wrapping::u64_specs::wrapping_add(p.1, v))
        } else {
            p
        }
    }
}

/// The counters a stats response gives: missing values read as 0, a
/// missing CPU count as 1.
pub open spec fn raw_stats_spec(f: StatsFields) -> RawStats {
    let net = match f.networks {
        Some(v) => network_totals(v@),
        None => (0u64, 0u64),
    };
    let block = match f.block_io {
        Some(v) => block_totals(v@),
        None => (0u64, 0u64),
    };
    RawStats {
        cpu_total: or_zero(f.cpu_total),
        system_cpu: or_zero(f.system_cpu),
        online_cpus: match f.online_cpus {
            Some(c) => c as u64,
            None => 1,
        },
        memory: or_zero(f.memory_usage),
        memory_limit: or_zero(f.memory_limit),
        network_rx: net.0,
        network_tx: net.1,
        block_read: block.0,
        block_write: block.1,
        pids: or_zero(f.pids),
    }
}

proof fn lemma_totals_swap(s: Seq<(Option<u64>, Option<u64>)>)
    ensures
        network_totals(s.map_values(|p: (Option<u64>, Option<u64>)| (p.1, p.0))).0
            == network_totals(s).1,
        network_totals(s.map_values(|p: (Option<u64>, Option<u64>)| (p.1, p.0))).1
            == network_totals(s).0,
    decreases s.len(),
{
    if s.len() > 0 {
        let w = s.map_values(|p: (Option<u64>, Option<u64>)| (p.1, p.0));
        assert(w.drop_last() =~= s.drop_last().map_values(
            |p: (Option<u64>, Option<u64>)| (p.1, p.0),
        ));
        lemma_totals_swap(s.drop_last());
    }
}

proof fn lemma_totals_by_direction(
    s: Seq<(Option<u64>, Option<u64>)>,
    t: Seq<(Option<u64>, Option<u64>)>,
)
    requires
        s.len() == t.len(),
    ensures
        (forall|i: int| 0 <= i < s.len() ==> (#[trigger] s[i]).0 == t[i].0) ==> network_totals(s).0
            == network_totals(t).0,
        (forall|i: int| 0 <= i < s.len() ==> (#[trigger] s[i]).1 == t[i].1) ==> network_totals(s).1
            == network_totals(t).1,
    decreases s.len(),
{
    if s.len() > 0 {
        lemma_totals_by_direction(s.drop_last(), t.drop_last());
        assert(s.last() == s[s.len() - 1] && t.last() == t[t.len() - 1]);
        if forall|i: int| 0 <= i < s.len() ==> (#[trigger] s[i]).0 == t[i].0 {
            assert forall|i: int| 0 <= i < s.drop_last().len() implies (#[trigger] s.drop_last()[i]).0
                == t.drop_last()[i].0 by {
                assert(s.drop_last()[i] == s[i] && t.drop_last()[i] == t[i]);
            }
        }
        if forall|i: int| 0 <= i < s.len() ==> (#[trigger] s[i]).1 == t[i].1 {
            assert forall|i: int| 0 <= i < s.drop_last().len() implies (#[trigger] s.drop_last()[i]).1
                == t.drop_last()[i].1 by {
                assert(s.drop_last()[i] == s[i] && t.drop_last()[i] == t[i]);
            }
        }
    }
}

/// The network counters keep their directions: swapping every interface's
/// received and sent counts swaps the two totals, and the received total
/// depends on the received counts alone (the sent total on the sent counts
/// alone). Without interfaces both are 0.
pub proof fn lemma_raw_stats_directions(f: StatsFields, g: StatsFields)
    requires
        f.networks is Some,
        g.networks is Some,
    ensures
        g.networks->0@ == f.networks->0@.map_values(|p: (Option<u64>, Option<u64>)| (p.1, p.0))
            ==> raw_stats_spec(g).network_rx == raw_stats_spec(f).network_tx
            && raw_stats_spec(g).network_tx == raw_stats_spec(f).network_rx,
        g.networks->0@.len() == f.networks->0@.len() && (forall|i: int|
            0 <= i < f.networks->0@.len() ==> (#[trigger] f.networks->0@[i]).0 == g.networks->0@[i].0)
            ==> raw_stats_spec(g).network_rx == raw_stats_spec(f).network_rx,
        g.networks->0@.len() == f.networks->0@.len() && (forall|i: int|
            0 <= i < f.networks->0@.len() ==> (#[trigger] f.networks->0@[i]).1 == g.networks->0@[i].1)
            ==> raw_stats_spec(g).network_tx == raw_stats_spec(f).network_tx,
        f.networks->0@.len() == 0 ==> raw_stats_spec(f).network_rx == 0 && raw_stats_spec(
            f,
        ).network_tx == 0,
{
    lemma_totals_swap(f.networks->0@);
    if g.networks->0@.len() == f.networks->0@.len() {
        lemma_totals_by_direction(f.networks->0@, g.networks->0@);
    }
}

fn network_totals_exec(v: &Vec<(Option<u64>, Option<u64>)>) -> (r: (u64, u64))
    ensures
        r == network_totals(v@),
{
    let mut rx: u64 = 0;
    let mut tx: u64 = 0;
    let mut i: usize = 0;
    while i < v.len()
        invariant
            i <= v.len(),
            (rx, tx) == network_totals(v@.take(i as int)),
        decreases v.len() - i,
    {
        assert(v@.take(i + 1).drop_last() == v@.take(i as int));
        let r = match v[i].0 {
            Some(x) => x,
            None => 0,
        };
        let t = match v[i].1 {
            Some(x) => x,
            None => 0,
        };
        rx = rx.wrapping_add(r);
        tx = tx.wrapping_add(t);
        i += 1;
    }
    assert(v@.take(v.len() as int) == v@);
    (rx, tx)
}

fn block_totals_exec(v: &Vec<(Option<String>, Option<u64>)>) -> (r: (u64, u64))
    ensures
        r == block_totals(v@),
{
    let mut read: u64 = 0;
    let mut write: u64 = 0;
    let mut i: usize = 0;
    while i < v.len()
        invariant
            i <= v.len(),
            (read, write) == block_totals(v@.take(i as int)),
        decreases v.len() - i,
    {
        assert(v@.take(i + 1).drop_last() == v@.take(i as int));
        let op: Vec<char> = match &v[i].0 {
            Some(o) => to_lower(&chars_of(o.as_str())),
            None => Vec::new(),
        };
        assert(op@ == op_name(v@[i as int].0));
        let value = match v[i].1 {
            Some(x) => x,
            None => 0,
        };
        if chars_eq_str(&op, "read") {
            read = read.wrapping_add(value);
        } else if chars_eq_str(&op, "write") {
            write = write.wrapping_add(value);
        }
        i += 1;
    }
    assert(v@.take(v.len() as int) == v@);
    (read, write)
}

/// The raw counters of a stats response.
pub fn raw_stats(fields: &StatsFields) -> (r: RawStats)
    ensures
        r == raw_stats_spec(*fields),
{
    let net = match &fields.networks {
        Some(v) => network_totals_exec(v),
        None => (0, 0),
    };
    let block = match &fields.block_io {
        Some(v) => block_totals_exec(v),
        None => (0, 0),
    };
    RawStats {
        cpu_total: match fields.cpu_total {
            Some(x) => x,
            None => 0,
        },
        system_cpu: match fields.system_cpu {
            Some(x) => x,
            None => 0,
        },
        online_cpus: match fields.online_cpus {
            Some(c) => c as u64,
            None => 1,
        },
        memory: match fields.memory_usage {
            Some(x) => x,
            None => 0,
        },
        memory_limit: match fields.memory_limit {
            Some(x) => x,
            None => 0,
        },
        network_rx: net.0,
        network_tx: net.1,
        block_read: block.0,
        block_write: block.1,
        pids: match fields.pids {
            Some(x) => x,
            None => 0,
        },
    }
}

/// `total` with the counters of `m` added to its own, each in `u64`
/// arithmetic that wraps around on overflow; the CPU percentage stays.
pub open spec fn add_counters(total: Metrics, m: Metrics) -> Metrics {
    Metrics {
        cpu_percent_bits: total.cpu_percent_bits,
        memory_bytes: vstd::wrapping::u64_specs::wrapping_add(total.memory_bytes, m.memory_bytes),
        memory_limit: vstd::wrapping::u64_specs::wrapping_add(total.memory_limit, m.memory_limit),
        network_rx_bytes: vstd::wrapping::u64_specs::wrapping_add(
            total.network_rx_bytes,
            m.network_rx_bytes,
        ),
        network_tx_bytes: vstd::wrapping::u64_specs::wrapping_add(
            total.network_tx_bytes,
            m.network_tx_bytes,
        ),
        block_read_bytes: vstd::wrapping::u64_specs::wrapping_add(
            total.block_read_bytes,
            m.block_read_bytes,
        ),
        block_write_bytes: vstd::wrapping::u64_specs::wrapping_add(
            total.block_write_bytes,
            m.block_write_bytes,
        ),
        pids: vstd::wrapping::u64_specs::wrapping_add(total.pids, m.pids),
    }
}

/// The counters of `ms` summed field by field (starting from 0), carrying
/// `cpu_percent_bits` as the CPU percentage of the total.
pub open spec fn metrics_total(ms: Seq<Metrics>, cpu_percent_bits: u64) -> Metrics
    decreases ms.len(),
{
    if ms.len() == 0 {
        Metrics { cpu_percent_bits, ..Metrics::zero() }
    } else {
        add_counters(metrics_total(ms.drop_last(), cpu_percent_bits), ms.last())
    }
}

/// The total usage of several containers: every counter summed over
/// `metrics`. The CPU percentages are floating-point numbers, so their sum
/// is computed by the caller and handed in as `cpu_percent_bits`.
pub fn sum_metrics(metrics: &Vec<Metrics>, cpu_percent_bits: u64) -> (r: Metrics)
    ensures
        r == metrics_total(metrics@, cpu_percent_bits),
{
    let mut total = Metrics { cpu_percent_bits, ..Metrics::new() };
    let mut i: usize = 0;
    while i < metrics.len()
        invariant
            i <= metrics.len(),
            total == metrics_total(metrics@.take(i as int), cpu_percent_bits),
        decreases metrics.len() - i,
    {
        assert(metrics@.take(i + 1).drop_last() == metrics@.take(i as int));
        let m = metrics[i];
        total = Metrics {
            cpu_percent_bits: total.cpu_percent_bits,
            memory_bytes: total.memory_bytes.wrapping_add(m.memory_bytes),
            memory_limit: total.memory_limit.wrapping_add(m.memory_limit),
            network_rx_bytes: total.network_rx_bytes.wrapping_add(m.network_rx_bytes),
            network_tx_bytes: total.network_tx_bytes.wrapping_add(m.network_tx_bytes),
            block_read_bytes: total.block_read_bytes.wrapping_add(m.block_read_bytes),
            block_write_bytes: total.block_write_bytes.wrapping_add(m.block_write_bytes),
            pids: total.pids.wrapping_add(m.pids),
        };
        i += 1;
    }
    assert(metrics@.take(metrics.len() as int) == metrics@);
    total
}

} // verus!
