//! Counter differences between two samples: the integer half of the host
//! and container statistics. Counters that went backwards count as no
//! progress; rates and percentages are derived from these differences by
//! the caller.
use vstd::prelude::*;

use crate::docker::stats::RawStats;
use crate::host::proc::{
    sat_mul, take_upto, CoreRaw, DiskRaw, NetRaw, ProcRaw, PAGE_SIZE, SECTOR_SIZE,
};
use crate::order::{
    before, float_order, float_rank, is_stable_order, key_lt, key_of, keys_view,
    lemma_stable_order_exists, sorted_positions, stable_order, KeyView, SortKey,
};
use crate::text::{chars_of, same_chars, string_from};

verus! {

/// `u64::saturating_sub`.
pub open spec fn sat_sub(a: u64, b: u64) -> u64 {
    if a >= b {
        (a - b) as u64
    } else {
        0
    }
}

/// `u64::saturating_add`.
pub open spec fn sat_add(a: u64, b: u64) -> u64 {
    if a + b > u64::MAX {
        u64::MAX
    } else {
        (a + b) as u64
    }
}

// ---------------------------------------------------------------------------
// CPU ticks
// ---------------------------------------------------------------------------

/// Ticks elapsed between two CPU samples and, of those, the ticks not spent
/// idle (elapsed minus idle, 0 should the idle count have grown by more than
/// the total).
#[derive(Clone, Copy, Debug)]
pub struct TickDelta {
    pub total: u64,
    pub busy: u64,
}

pub open spec fn tick_delta_spec(prev: CoreRaw, current: CoreRaw) -> TickDelta {
    let total = sat_sub(current.total, prev.total);
    TickDelta {
        total,
        busy: sat_sub(total, sat_sub(current.idle, prev.idle)),
    }
}

pub fn tick_delta(prev: CoreRaw, current: CoreRaw) -> (r: TickDelta)
    ensures
        r == tick_delta_spec(prev, current),
{
    let total = current.total.saturating_sub(prev.total);
    let idle = current.idle.saturating_sub(prev.idle);
    TickDelta { total, busy: total.saturating_sub(idle) }
}

/// The ticks of each core against the core at the same position in the
/// previous sample; cores missing from either sample are left out.
pub fn core_deltas(current: &Vec<CoreRaw>, previous: &Vec<CoreRaw>) -> (r: Vec<TickDelta>)
    ensures
        r@.len() == (if current@.len() < previous@.len() {
            current@.len()
        } else {
            previous@.len()
        }),
        forall|i: int|
            0 <= i < r@.len() ==> #[trigger] r@[i] == tick_delta_spec(previous@[i], current@[i]),
{
    let n = if current.len() < previous.len() {
        current.len()
    } else {
        previous.len()
    };
    let mut out: Vec<TickDelta> = Vec::new();
    let mut i: usize = 0;
    while i < n
        invariant
            n <= current.len(),
            n <= previous.len(),
            i <= n,
            out@.len() == i,
            forall|k: int| 0 <= k < i ==> #[trigger] out@[k] == tick_delta_spec(previous@[k], current@[k]),
        decreases n - i,
    {
        out.push(tick_delta(previous[i], current[i]));
        i += 1;
    }
    out
}

/// The ticks of a CPU between two samples: the growth of its total count,
/// and of those the ones not spent idle (total growth minus idle growth,
/// each counter compared with itself and 0 where it went backwards), so
/// busy never exceeds total and equal samples give nothing.
pub proof fn lemma_tick_delta_counts(prev: CoreRaw, current: CoreRaw)
    ensures
        tick_delta_spec(prev, current).total == (if current.total >= prev.total {
            current.total - prev.total
        } else {
            0
        }),
        tick_delta_spec(prev, current).busy == ({
            let total: int = if current.total >= prev.total {
                current.total - prev.total
            } else {
                0
            };
            let idle: int = if current.idle >= prev.idle {
                current.idle - prev.idle
            } else {
                0
            };
            if total >= idle {
                total - idle
            } else {
                0
            }
        }),
        tick_delta_spec(prev, current).busy <= tick_delta_spec(prev, current).total,
        tick_delta_spec(current, current).total == 0,
        tick_delta_spec(current, current).busy == 0,
{
}

// ---------------------------------------------------------------------------
// Disks and network interfaces, matched by name
// ---------------------------------------------------------------------------

/// The last disk named `name` in `v` (as a map built from the list keeps it).
pub open spec fn last_disk(v: Seq<DiskRaw>, name: Seq<char>) -> Option<DiskRaw>
    decreases v.len(),
{
    if v.len() == 0 {
        None
    } else if v.last().name@ == name {
        Some(v.last())
    } else {
        last_disk(v.drop_last(), name)
    }
}

/// One disk: cumulative bytes read and written (sectors of 512 bytes, the
/// product wrapping around on overflow) and completed operations; the
/// sectors, operations and milliseconds of I/O since the previous sample of
/// the same disk (everything counted so far when it had none); its capacity.
pub struct DiskDelta {
    pub name: String,
    pub read_bytes: u64,
    pub write_bytes: u64,
    pub read_ops: u64,
    pub write_ops: u64,
    pub read_sectors: u64,
    pub write_sectors: u64,
    pub read_ops_delta: u64,
    pub write_ops_delta: u64,
    pub io_time_delta: u64,
    pub capacity_bytes: u64,
}

/// A counter of the previous sample of a disk, 0 without one.
pub open spec fn prev_counter(prev: Option<DiskRaw>, f: spec_fn(DiskRaw) -> u64) -> u64 {
    match prev {
        Some(p) => f(p),
        None => 0,
    }
}

pub open spec fn disk_delta_spec(d: DiskRaw, previous: Seq<DiskRaw>, r: DiskDelta) -> bool {
    let prev = last_disk(previous, d.name@);
    &&& r.name@ == d.name@
    &&& r.read_bytes == vstd::wrapping::u64_specs::wrapping_mul(d.sectors_read, SECTOR_SIZE)
    &&& r.write_bytes == vstd::wrapping::u64_specs::wrapping_mul(d.sectors_written, SECTOR_SIZE)
    &&& r.read_ops == d.reads_completed
    &&& r.write_ops == d.writes_completed
    &&& r.read_sectors == sat_sub(d.sectors_read, prev_counter(prev, |p: DiskRaw| p.sectors_read))
    &&& r.write_sectors == sat_sub(
        d.sectors_written,
        prev_counter(prev, |p: DiskRaw| p.sectors_written),
    )
    &&& r.read_ops_delta == sat_sub(
        d.reads_completed,
        prev_counter(prev, |p: DiskRaw| p.reads_completed),
    )
    &&& r.write_ops_delta == sat_sub(
        d.writes_completed,
        prev_counter(prev, |p: DiskRaw| p.writes_completed),
    )
    &&& r.io_time_delta == sat_sub(d.io_time_ms, prev_counter(prev, |p: DiskRaw| p.io_time_ms))
    &&& r.capacity_bytes == d.capacity_bytes
}

fn find_last_disk(v: &Vec<DiskRaw>, name: &Vec<char>) -> (r: Option<usize>)
    ensures
        match r {
            Some(k) => k < v@.len() && last_disk(v@, name@) == Some(v@[k as int]),
            None => last_disk(v@, name@) is None,
        },
{
    let mut k: usize = v.len();
    assert(v@.take(v@.len() as int) == v@);
    while k > 0
        invariant
            k <= v.len(),
            last_disk(v@, name@) == last_disk(v@.take(k as int), name@),
        decreases k,
    {
        assert(v@.take(k as int).drop_last() == v@.take(k - 1));
        assert(v@.take(k as int).last() == v@[k - 1]);
        if same_chars(&chars_of(v[k - 1].name.as_str()), name) {
            return Some(k - 1);
        }
        k -= 1;
    }
    None
}

pub fn disk_deltas(current: &Vec<DiskRaw>, previous: &Vec<DiskRaw>) -> (r: Vec<DiskDelta>)
    ensures
        r@.len() == current@.len(),
        forall|i: int| 0 <= i < r@.len() ==> disk_delta_spec(current@[i], previous@, #[trigger] r@[i]),
{
    let mut out: Vec<DiskDelta> = Vec::new();
    let mut i: usize = 0;
    while i < current.len()
        invariant
            i <= current.len(),
            out@.len() == i,
            forall|k: int| 0 <= k < i ==> disk_delta_spec(current@[k], previous@, #[trigger] out@[k]),
        decreases current.len() - i,
    {
        let d = &current[i];
        let name = chars_of(d.name.as_str());
        let (prev_read, prev_written, prev_reads, prev_writes, prev_io) = match find_last_disk(
            previous,
            &name,
        ) {
            Some(k) => (
                previous[k].sectors_read,
                previous[k].sectors_written,
                previous[k].reads_completed,
                previous[k].writes_completed,
                previous[k].io_time_ms,
            ),
            None => (0, 0, 0, 0, 0),
        };
        out.push(
            DiskDelta {
                name: string_from(d.name.as_str()),
                read_bytes: d.sectors_read.wrapping_mul(SECTOR_SIZE),
                write_bytes: d.sectors_written.wrapping_mul(SECTOR_SIZE),
                read_ops: d.reads_completed,
                write_ops: d.writes_completed,
                read_sectors: d.sectors_read.saturating_sub(prev_read),
                write_sectors: d.sectors_written.saturating_sub(prev_written),
                read_ops_delta: d.reads_completed.saturating_sub(prev_reads),
                write_ops_delta: d.writes_completed.saturating_sub(prev_writes),
                io_time_delta: d.io_time_ms.saturating_sub(prev_io),
                capacity_bytes: d.capacity_bytes,
            },
        );
        i += 1;
    }
    out
}

/// The last interface named `name` in `v`.
pub open spec fn last_net(v: Seq<NetRaw>, name: Seq<char>) -> Option<NetRaw>
    decreases v.len(),
{
    if v.len() == 0 {
        None
    } else if v.last().name@ == name {
        Some(v.last())
    } else {
        last_net(v.drop_last(), name)
    }
}

/// One interface: cumulative bytes and packets, the bytes and packets moved
/// since the previous sample of the same interface (everything counted so
/// far when it had none), and its errors plus drops in both directions
/// (saturating).
pub struct NetDelta {
    pub name: String,
    pub rx_bytes: u64,
    pub tx_bytes: u64,
    pub rx_packets: u64,
    pub tx_packets: u64,
    pub rx_delta: u64,
    pub tx_delta: u64,
    pub rx_packets_delta: u64,
    pub tx_packets_delta: u64,
    pub errors: u64,
}

pub open spec fn prev_net_counter(prev: Option<NetRaw>, f: spec_fn(NetRaw) -> u64) -> u64 {
    match prev {
        Some(p) => f(p),
        None => 0,
    }
}

pub open spec fn net_delta_spec(n: NetRaw, previous: Seq<NetRaw>, r: NetDelta) -> bool {
    let prev = last_net(previous, n.name@);
    &&& r.name@ == n.name@
    &&& r.rx_bytes == n.rx_bytes
    &&& r.tx_bytes == n.tx_bytes
    &&& r.rx_packets == n.rx_packets
    &&& r.tx_packets == n.tx_packets
    &&& r.rx_delta == sat_sub(n.rx_bytes, prev_net_counter(prev, |p: NetRaw| p.rx_bytes))
    &&& r.tx_delta == sat_sub(n.tx_bytes, prev_net_counter(prev, |p: NetRaw| p.tx_bytes))
    &&& r.rx_packets_delta == sat_sub(
        n.rx_packets,
        prev_net_counter(prev, |p: NetRaw| p.rx_packets),
    )
    &&& r.tx_packets_delta == sat_sub(
        n.tx_packets,
        prev_net_counter(prev, |p: NetRaw| p.tx_packets),
    )
    &&& r.errors == sat_add(sat_add(sat_add(n.rx_errs, n.rx_drop), n.tx_errs), n.tx_drop)
}

fn find_last_net(v: &Vec<NetRaw>, name: &Vec<char>) -> (r: Option<usize>)
    ensures
        match r {
            Some(k) => k < v@.len() && last_net(v@, name@) == Some(v@[k as int]),
            None => last_net(v@, name@) is None,
        },
{
    let mut k: usize = v.len();
    assert(v@.take(v@.len() as int) == v@);
    while k > 0
        invariant
            k <= v.len(),
            last_net(v@, name@) == last_net(v@.take(k as int), name@),
        decreases k,
    {
        assert(v@.take(k as int).drop_last() == v@.take(k - 1));
        assert(v@.take(k as int).last() == v@[k - 1]);
        if same_chars(&chars_of(v[k - 1].name.as_str()), name) {
            return Some(k - 1);
        }
        k -= 1;
    }
    None
}

pub fn net_deltas(current: &Vec<NetRaw>, previous: &Vec<NetRaw>) -> (r: Vec<NetDelta>)
    ensures
        r@.len() == current@.len(),
        forall|i: int| 0 <= i < r@.len() ==> net_delta_spec(current@[i], previous@, #[trigger] r@[i]),
{
    let mut out: Vec<NetDelta> = Vec::new();
    let mut i: usize = 0;
    while i < current.len()
        invariant
            i <= current.len(),
            out@.len() == i,
            forall|k: int| 0 <= k < i ==> net_delta_spec(current@[k], previous@, #[trigger] out@[k]),
        decreases current.len() - i,
    {
        let n = &current[i];
        let name = chars_of(n.name.as_str());
        let (prev_rx, prev_tx, prev_rxp, prev_txp) = match find_last_net(previous, &name) {
            Some(k) => (
                previous[k].rx_bytes,
                previous[k].tx_bytes,
                previous[k].rx_packets,
                previous[k].tx_packets,
            ),
            None => (0, 0, 0, 0),
        };
        out.push(
            NetDelta {
                name: string_from(n.name.as_str()),
                rx_bytes: n.rx_bytes,
                tx_bytes: n.tx_bytes,
                rx_packets: n.rx_packets,
                tx_packets: n.tx_packets,
                rx_delta: n.rx_bytes.saturating_sub(prev_rx),
                tx_delta: n.tx_bytes.saturating_sub(prev_tx),
                rx_packets_delta: n.rx_packets.saturating_sub(prev_rxp),
                tx_packets_delta: n.tx_packets.saturating_sub(prev_txp),
                errors: n.rx_errs.saturating_add(n.rx_drop).saturating_add(n.tx_errs).saturating_add(
                    n.tx_drop,
                ),
            },
        );
        i += 1;
    }
    out
}

proof fn lemma_last_disk_at(v: Seq<DiskRaw>, name: Seq<char>, k: int)
    requires
        0 <= k < v.len(),
        v[k].name@ == name,
        forall|j: int| k < j < v.len() ==> (#[trigger] v[j]).name@ != name,
    ensures
        last_disk(v, name) == Some(v[k]),
    decreases v.len(),
{
    if k < v.len() - 1 {
        assert(v.last() == v[v.len() - 1]);
        lemma_last_disk_at(v.drop_last(), name, k);
    }
}

proof fn lemma_no_disk(v: Seq<DiskRaw>, name: Seq<char>)
    requires
        forall|j: int| 0 <= j < v.len() ==> (#[trigger] v[j]).name@ != name,
    ensures
        last_disk(v, name) is None,
    decreases v.len(),
{
    if v.len() > 0 {
        assert(v.last() == v[v.len() - 1]);
        lemma_no_disk(v.drop_last(), name);
    }
}

/// A disk is compared with the disk of the same name in the previous sample
/// (the last one listed under that name): sectors, operations and I/O time
/// are each the growth of the same counter since then (0 where it went
/// backwards), so two samples with equal counters give 0. Bytes are the
/// current sector counts times 512 (wrapping), operations the current
/// counts.
pub proof fn lemma_disk_delta_against_same_disk(
    d: DiskRaw,
    previous: Seq<DiskRaw>,
    k: int,
    r: DiskDelta,
)
    requires
        0 <= k < previous.len(),
        previous[k].name@ == d.name@,
        forall|j: int| k < j < previous.len() ==> (#[trigger] previous[j]).name@ != d.name@,
        disk_delta_spec(d, previous, r),
    ensures
        r.name@ == d.name@,
        r.read_sectors == (if d.sectors_read >= previous[k].sectors_read {
            d.sectors_read - previous[k].sectors_read
        } else {
            0
        }),
        r.write_sectors == (if d.sectors_written >= previous[k].sectors_written {
            d.sectors_written - previous[k].sectors_written
        } else {
            0
        }),
        r.read_ops_delta == (if d.reads_completed >= previous[k].reads_completed {
            d.reads_completed - previous[k].reads_completed
        } else {
            0
        }),
        r.write_ops_delta == (if d.writes_completed >= previous[k].writes_completed {
            d.writes_completed - previous[k].writes_completed
        } else {
            0
        }),
        r.io_time_delta == (if d.io_time_ms >= previous[k].io_time_ms {
            d.io_time_ms - previous[k].io_time_ms
        } else {
            0
        }),
        r.read_bytes == vstd::wrapping::u64_specs::wrapping_mul(d.sectors_read, 512),
        r.write_bytes == vstd::wrapping::u64_specs::wrapping_mul(d.sectors_written, 512),
        r.read_ops == d.reads_completed,
        r.write_ops == d.writes_completed,
        r.capacity_bytes == d.capacity_bytes,
{
    lemma_last_disk_at(previous, d.name@, k);
}

/// A disk the previous sample did not list counts everything so far.
pub proof fn lemma_disk_delta_new_disk(d: DiskRaw, previous: Seq<DiskRaw>, r: DiskDelta)
    requires
        forall|j: int| 0 <= j < previous.len() ==> (#[trigger] previous[j]).name@ != d.name@,
        disk_delta_spec(d, previous, r),
    ensures
        r.read_sectors == d.sectors_read,
        r.write_sectors == d.sectors_written,
        r.read_ops_delta == d.reads_completed,
        r.write_ops_delta == d.writes_completed,
        r.io_time_delta == d.io_time_ms,
{
    lemma_no_disk(previous, d.name@);
}

proof fn lemma_last_net_at(v: Seq<NetRaw>, name: Seq<char>, k: int)
    requires
        0 <= k < v.len(),
        v[k].name@ == name,
        forall|j: int| k < j < v.len() ==> (#[trigger] v[j]).name@ != name,
    ensures
        last_net(v, name) == Some(v[k]),
    decreases v.len(),
{
    if k < v.len() - 1 {
        assert(v.last() == v[v.len() - 1]);
        lemma_last_net_at(v.drop_last(), name, k);
    }
}

proof fn lemma_no_net(v: Seq<NetRaw>, name: Seq<char>)
    requires
        forall|j: int| 0 <= j < v.len() ==> (#[trigger] v[j]).name@ != name,
    ensures
        last_net(v, name) is None,
    decreases v.len(),
{
    if v.len() > 0 {
        assert(v.last() == v[v.len() - 1]);
        lemma_no_net(v.drop_last(), name);
    }
}

/// An interface is compared with the interface of the same name in the
/// previous sample (the last one listed under that name): each direction's
/// bytes and packets are the growth of that same direction's counter (0
/// where it went backwards). Totals are the current counters, and errors
/// are the errors and drops of both directions added up, capped at
/// `u64::MAX`.
pub proof fn lemma_net_delta_against_same_interface(
    n: NetRaw,
    previous: Seq<NetRaw>,
    k: int,
    r: NetDelta,
)
    requires
        0 <= k < previous.len(),
        previous[k].name@ == n.name@,
        forall|j: int| k < j < previous.len() ==> (#[trigger] previous[j]).name@ != n.name@,
        net_delta_spec(n, previous, r),
    ensures
        r.name@ == n.name@,
        r.rx_delta == (if n.rx_bytes >= previous[k].rx_bytes {
            n.rx_bytes - previous[k].rx_bytes
        } else {
            0
        }),
        r.tx_delta == (if n.tx_bytes >= previous[k].tx_bytes {
            n.tx_bytes - previous[k].tx_bytes
        } else {
            0
        }),
        r.rx_packets_delta == (if n.rx_packets >= previous[k].rx_packets {
            n.rx_packets - previous[k].rx_packets
        } else {
            0
        }),
        r.tx_packets_delta == (if n.tx_packets >= previous[k].tx_packets {
            n.tx_packets - previous[k].tx_packets
        } else {
            0
        }),
        r.rx_bytes == n.rx_bytes,
        r.tx_bytes == n.tx_bytes,
        r.rx_packets == n.rx_packets,
        r.tx_packets == n.tx_packets,
        r.errors == (if n.rx_errs + n.rx_drop + n.tx_errs + n.tx_drop > u64::MAX {
            u64::MAX as int
        } else {
            n.rx_errs + n.rx_drop + n.tx_errs + n.tx_drop
        }),
{
    lemma_last_net_at(previous, n.name@, k);
}

/// An interface the previous sample did not list counts everything so far.
pub proof fn lemma_net_delta_new_interface(n: NetRaw, previous: Seq<NetRaw>, r: NetDelta)
    requires
        forall|j: int| 0 <= j < previous.len() ==> (#[trigger] previous[j]).name@ != n.name@,
        net_delta_spec(n, previous, r),
    ensures
        r.rx_delta == n.rx_bytes,
        r.tx_delta == n.tx_bytes,
        r.rx_packets_delta == n.rx_packets,
        r.tx_packets_delta == n.tx_packets,
{
    lemma_no_net(previous, n.name@);
}

// ---------------------------------------------------------------------------
// Busiest disks and interfaces first
// ---------------------------------------------------------------------------

/// Ranking key of an amount moved (a sum of two `u64` counters, so below
/// 2^65): the larger the amount, the smaller the key.
pub open spec fn moved_key(m: int) -> KeyView {
    if m > u64::MAX {
        (0u64, (u64::MAX - (m - 0x1_0000_0000_0000_0000)) as u64, Seq::empty())
    } else {
        (1u64, (u64::MAX - m) as u64, Seq::empty())
    }
}

/// The amount each pair of counters moved: their sum.
pub open spec fn pair_sums(pairs: Seq<(u64, u64)>) -> Seq<int> {
    pairs.map_values(|p: (u64, u64)| p.0 + p.1)
}

/// The positions of `moved` in a stable sort by amount, largest first.
pub open spec fn busiest_order(moved: Seq<int>) -> Seq<usize> {
    sorted_positions(moved.map_values(|m: int| moved_key(m)))
}

/// `r` lists every position of `moved` once, the largest amount first; equal
/// amounts keep their order.
pub open spec fn lists_busiest_first(moved: Seq<int>, r: Seq<usize>) -> bool {
    &&& r.len() == moved.len()
    &&& forall|a: int| 0 <= a < r.len() ==> (#[trigger] r[a]) < moved.len()
    &&& forall|k: usize| k < moved.len() ==> #[trigger] r.contains(k)
    &&& forall|a: int, b: int|
        0 <= a < b < r.len() ==> moved[#[trigger] r[a] as int] >= moved[#[trigger] r[b] as int]
            && (moved[r[a] as int] == moved[r[b] as int] ==> r[a] < r[b])
}

proof fn lemma_moved_key(x: int, y: int)
    requires
        0 <= x < 0x2_0000_0000_0000_0000,
        0 <= y < 0x2_0000_0000_0000_0000,
    ensures
        key_lt(moved_key(x), moved_key(y)) ==> x > y,
        moved_key(x) == moved_key(y) ==> x == y,
{
    assert(!crate::order::text_lt(Seq::<char>::empty(), Seq::<char>::empty()));
}

/// Positions of `pairs` by the sum of each pair, largest first, in a stable
/// order.
fn busiest(pairs: &Vec<(u64, u64)>) -> (r: Vec<usize>)
    ensures
        r@ == busiest_order(pair_sums(pairs@)),
        lists_busiest_first(pair_sums(pairs@), r@),
{
    let ghost moved = pair_sums(pairs@);
    let ghost kv = moved.map_values(|m: int| moved_key(m));
    let mut keys: Vec<SortKey> = Vec::new();
    let mut i: usize = 0;
    while i < pairs.len()
        invariant
            moved == pair_sums(pairs@),
            kv == moved.map_values(|m: int| moved_key(m)),
            i <= pairs.len(),
            keys_view(keys@) == kv.take(i as int),
        decreases pairs.len() - i,
    {
        let (a, b) = pairs[i];
        let k = match a.checked_add(b) {
            Some(sum) => SortKey { rank: 1, tie: u64::MAX - sum, text: Vec::new() },
            None => SortKey { rank: 0, tie: u64::MAX - a.wrapping_add(b), text: Vec::new() },
        };
        assert(key_of(k) == moved_key(moved[i as int]));
        let ghost before_push = keys_view(keys@);
        keys.push(k);
        proof {
            assert(keys_view(keys@) =~= before_push.push(key_of(k)));
            assert(kv.take(i + 1) =~= kv.take(i as int).push(kv[i as int]));
        }
        i += 1;
    }
    assert(kv.take(pairs.len() as int) == kv);
    let order = stable_order(&keys);
    proof {
        assert forall|a: int, b: int| 0 <= a < b < order@.len() implies moved[#[trigger] order@[a] as int]
            >= moved[#[trigger] order@[b] as int] && (moved[order@[a] as int] == moved[order@[b] as int]
            ==> order@[a] < order@[b]) by {
            let x = order@[a] as int;
            let y = order@[b] as int;
            assert(before(kv, x, y));
            lemma_moved_key(moved[x], moved[y]);
            if moved[x] == moved[y] {
                crate::order::lemma_before_irreflexive(kv, x);
            }
        }
    }
    order
}

/// The amount an interface moved since the previous sample: bytes received
/// plus bytes sent.
pub open spec fn net_moved(d: NetDelta) -> int {
    d.rx_delta + d.tx_delta
}

pub open spec fn nets_moved(v: Seq<NetDelta>) -> Seq<int> {
    v.map_values(|d: NetDelta| net_moved(d))
}

/// The amount a disk moved since the previous sample: sectors read plus
/// sectors written.
pub open spec fn disk_moved(d: DiskDelta) -> int {
    d.read_sectors + d.write_sectors
}

pub open spec fn disks_moved(v: Seq<DiskDelta>) -> Seq<int> {
    v.map_values(|d: DiskDelta| disk_moved(d))
}

/// The order the network screen lists interfaces in: busiest first by
/// bytes moved, interfaces that moved as much keeping their `/proc` order.
pub fn busiest_nets(deltas: &Vec<NetDelta>) -> (r: Vec<usize>)
    ensures
        r@ == busiest_order(nets_moved(deltas@)),
        lists_busiest_first(nets_moved(deltas@), r@),
{
    let mut pairs: Vec<(u64, u64)> = Vec::new();
    let mut i: usize = 0;
    while i < deltas.len()
        invariant
            i <= deltas.len(),
            pair_sums(pairs@) == nets_moved(deltas@).take(i as int),
        decreases deltas.len() - i,
    {
        let ghost before_push = pairs@;
        pairs.push((deltas[i].rx_delta, deltas[i].tx_delta));
        proof {
            assert(pairs@ == before_push.push((deltas@[i as int].rx_delta, deltas@[i as int].tx_delta)));
            assert(pair_sums(pairs@) =~= pair_sums(before_push).push(net_moved(deltas@[i as int])));
            assert(nets_moved(deltas@).take(i + 1) =~= nets_moved(deltas@).take(i as int).push(
                net_moved(deltas@[i as int]),
            ));
        }
        i += 1;
    }
    assert(nets_moved(deltas@).take(deltas.len() as int) == nets_moved(deltas@));
    busiest(&pairs)
}

/// The order the disk screen lists disks in: busiest first by sectors
/// moved, disks that moved as much keeping their `/proc` order.
pub fn busiest_disks(deltas: &Vec<DiskDelta>) -> (r: Vec<usize>)
    ensures
        r@ == busiest_order(disks_moved(deltas@)),
        lists_busiest_first(disks_moved(deltas@), r@),
{
    let mut pairs: Vec<(u64, u64)> = Vec::new();
    let mut i: usize = 0;
    while i < deltas.len()
        invariant
            i <= deltas.len(),
            pair_sums(pairs@) == disks_moved(deltas@).take(i as int),
        decreases deltas.len() - i,
    {
        let ghost before_push = pairs@;
        pairs.push((deltas[i].read_sectors, deltas[i].write_sectors));
        proof {
            assert(pairs@ == before_push.push(
                (deltas@[i as int].read_sectors, deltas@[i as int].write_sectors),
            ));
            assert(pair_sums(pairs@) =~= pair_sums(before_push).push(disk_moved(deltas@[i as int])));
            assert(disks_moved(deltas@).take(i + 1) =~= disks_moved(deltas@).take(i as int).push(
                disk_moved(deltas@[i as int]),
            ));
        }
        i += 1;
    }
    assert(disks_moved(deltas@).take(deltas.len() as int) == disks_moved(deltas@));
    busiest(&pairs)
}

// ---------------------------------------------------------------------------
// Processes, matched by pid
// ---------------------------------------------------------------------------

/// The last process with this pid in `v`.
pub open spec fn last_proc(v: Seq<ProcRaw>, pid: i32) -> Option<ProcRaw>
    decreases v.len(),
{
    if v.len() == 0 {
        None
    } else if v.last().pid == pid {
        Some(v.last())
    } else {
        last_proc(v.drop_last(), pid)
    }
}

/// One process: its CPU ticks since the previous sample of the same pid
/// (user plus system time, all of it for a new process), and its resident
/// memory in bytes (pages of 4096 bytes, saturating).
pub struct ProcDelta {
    pub pid: i32,
    pub name: String,
    pub state: char,
    pub ticks: u64,
    pub rss_bytes: u64,
    pub threads: u64,
}

pub open spec fn proc_delta_spec(p: ProcRaw, previous: Seq<ProcRaw>, r: ProcDelta) -> bool {
    &&& r.pid == p.pid
    &&& r.name@ == p.name@
    &&& r.state == p.state
    &&& r.ticks == sat_sub(
        sat_add(p.utime, p.stime),
        match last_proc(previous, p.pid) {
            Some(q) => sat_add(q.utime, q.stime),
            None => 0,
        },
    )
    &&& r.rss_bytes == sat_mul(p.rss_pages, PAGE_SIZE)
    &&& r.threads == p.threads
}

fn find_last_proc(v: &Vec<ProcRaw>, pid: i32) -> (r: Option<usize>)
    ensures
        match r {
            Some(k) => k < v@.len() && last_proc(v@, pid) == Some(v@[k as int]),
            None => last_proc(v@, pid) is None,
        },
{
    let mut k: usize = v.len();
    assert(v@.take(v@.len() as int) == v@);
    while k > 0
        invariant
            k <= v.len(),
            last_proc(v@, pid) == last_proc(v@.take(k as int), pid),
        decreases k,
    {
        assert(v@.take(k as int).drop_last() == v@.take(k - 1));
        assert(v@.take(k as int).last() == v@[k - 1]);
        if v[k - 1].pid == pid {
            return Some(k - 1);
        }
        k -= 1;
    }
    None
}

proof fn lemma_last_proc_at(v: Seq<ProcRaw>, pid: i32, k: int)
    requires
        0 <= k < v.len(),
        v[k].pid == pid,
        forall|j: int| k < j < v.len() ==> (#[trigger] v[j]).pid != pid,
    ensures
        last_proc(v, pid) == Some(v[k]),
    decreases v.len(),
{
    if k < v.len() - 1 {
        assert(v.last() == v[v.len() - 1]);
        lemma_last_proc_at(v.drop_last(), pid, k);
    }
}

proof fn lemma_no_proc(v: Seq<ProcRaw>, pid: i32)
    requires
        forall|j: int| 0 <= j < v.len() ==> (#[trigger] v[j]).pid != pid,
    ensures
        last_proc(v, pid) is None,
    decreases v.len(),
{
    if v.len() > 0 {
        assert(v.last() == v[v.len() - 1]);
        lemma_no_proc(v.drop_last(), pid);
    }
}

/// A process is compared with the process of the same pid in the previous
/// sample (the last one listed with it): its ticks are the growth of user
/// plus system time (each sum capped at `u64::MAX`, 0 where it went
/// backwards); a process the previous sample did not list counts all its
/// time. Resident bytes are its pages times 4096 (capped), and name, state
/// and threads are its own.
pub proof fn lemma_proc_delta_against_same_pid(
    p: ProcRaw,
    previous: Seq<ProcRaw>,
    r: ProcDelta,
)
    requires
        proc_delta_spec(p, previous, r),
    ensures
        forall|k: int|
            0 <= k < previous.len() && (#[trigger] previous[k]).pid == p.pid && (forall|j: int|
                k < j < previous.len() ==> (#[trigger] previous[j]).pid != p.pid) ==> r.ticks == ({
                let now: int = if p.utime + p.stime > u64::MAX {
                    u64::MAX as int
                } else {
                    p.utime + p.stime
                };
                let before: int = if previous[k].utime + previous[k].stime > u64::MAX {
                    u64::MAX as int
                } else {
                    previous[k].utime + previous[k].stime
                };
                if now >= before {
                    now - before
                } else {
                    0
                }
            }),
        (forall|j: int| 0 <= j < previous.len() ==> (#[trigger] previous[j]).pid != p.pid)
            ==> r.ticks == (if p.utime + p.stime > u64::MAX {
            u64::MAX as int
        } else {
            p.utime + p.stime
        }),
        r.rss_bytes == (if p.rss_pages * 4096 > u64::MAX {
            u64::MAX as int
        } else {
            p.rss_pages * 4096
        }),
        r.pid == p.pid,
        r.name@ == p.name@,
        r.state == p.state,
        r.threads == p.threads,
{
    assert forall|k: int|
        0 <= k < previous.len() && (#[trigger] previous[k]).pid == p.pid && (forall|j: int|
            k < j < previous.len() ==> (#[trigger] previous[j]).pid != p.pid) implies r.ticks == ({
            let now: int = if p.utime + p.stime > u64::MAX {
                u64::MAX as int
            } else {
                p.utime + p.stime
            };
            let before: int = if previous[k].utime + previous[k].stime > u64::MAX {
                u64::MAX as int
            } else {
                previous[k].utime + previous[k].stime
            };
            if now >= before {
                now - before
            } else {
                0
            }
        }) by {
        lemma_last_proc_at(previous, p.pid, k);
    }
    if forall|j: int| 0 <= j < previous.len() ==> (#[trigger] previous[j]).pid != p.pid {
        lemma_no_proc(previous, p.pid);
    }
}

pub fn proc_deltas(current: &Vec<ProcRaw>, previous: &Vec<ProcRaw>) -> (r: Vec<ProcDelta>)
    ensures
        r@.len() == current@.len(),
        forall|i: int| 0 <= i < r@.len() ==> proc_delta_spec(current@[i], previous@, #[trigger] r@[i]),
{
    let mut out: Vec<ProcDelta> = Vec::new();
    let mut i: usize = 0;
    while i < current.len()
        invariant
            i <= current.len(),
            out@.len() == i,
            forall|k: int| 0 <= k < i ==> proc_delta_spec(current@[k], previous@, #[trigger] out@[k]),
        decreases current.len() - i,
    {
        let p = &current[i];
        let before: u64 = match find_last_proc(previous, p.pid) {
            Some(k) => previous[k].utime.saturating_add(previous[k].stime),
            None => 0,
        };
        out.push(
            ProcDelta {
                pid: p.pid,
                name: string_from(p.name.as_str()),
                state: p.state,
                ticks: p.utime.saturating_add(p.stime).saturating_sub(before),
                rss_bytes: match p.rss_pages.checked_mul(PAGE_SIZE) {
                    Some(b) => b,
                    None => u64::MAX,
                },
                threads: p.threads,
            },
        );
        i += 1;
    }
    out
}

// ---------------------------------------------------------------------------
// Containers
// ---------------------------------------------------------------------------

/// Counter differences of a container between two stats samples: CPU usage
/// against system CPU time when both grew and the system time moved (none
/// otherwise, and none for a first sample), the CPU count (at least 1), and
/// the I/O bytes moved (0 where a counter went backwards or on a first
/// sample).
pub struct StatsDelta {
    pub cpu: Option<(u64, u64)>,
    pub cpus: u64,
    pub network_rx: u64,
    pub network_tx: u64,
    pub block_read: u64,
    pub block_write: u64,
}

pub open spec fn moved(current: u64, previous: Option<u64>) -> u64 {
    match previous {
        Some(p) => if current >= p {
            (current - p) as u64
        } else {
            0
        },
        None => 0,
    }
}

pub open spec fn stats_delta_spec(raw: RawStats, previous: Option<RawStats>) -> StatsDelta {
    StatsDelta {
        cpu: match previous {
            Some(p) => if raw.cpu_total >= p.cpu_total && raw.system_cpu >= p.system_cpu
                && raw.system_cpu != p.system_cpu {
                Some(((raw.cpu_total - p.cpu_total) as u64, (raw.system_cpu - p.system_cpu) as u64))
            } else {
                None
            },
            None => None,
        },
        cpus: if raw.online_cpus == 0 {
            1
        } else {
            raw.online_cpus
        },
        network_rx: moved(
            raw.network_rx,
            match previous {
                Some(p) => Some(p.network_rx),
                None => None,
            },
        ),
        network_tx: moved(
            raw.network_tx,
            match previous {
                Some(p) => Some(p.network_tx),
                None => None,
            },
        ),
        block_read: moved(
            raw.block_read,
            match previous {
                Some(p) => Some(p.block_read),
                None => None,
            },
        ),
        block_write: moved(
            raw.block_write,
            match previous {
                Some(p) => Some(p.block_write),
                None => None,
            },
        ),
    }
}

fn moved_exec(current: u64, previous: Option<u64>) -> (r: u64)
    ensures
        r == moved(current, previous),
{
    match previous {
        Some(p) => match current.checked_sub(p) {
            Some(d) => d,
            None => 0,
        },
        None => 0,
    }
}

pub fn stats_delta(raw: &RawStats, previous: Option<&RawStats>) -> (r: StatsDelta)
    ensures
        r == stats_delta_spec(
            *raw,
            match previous {
                Some(p) => Some(*p),
                None => None,
            },
        ),
{
    let cpu = match previous {
        Some(p) => {
            if raw.cpu_total >= p.cpu_total && raw.system_cpu >= p.system_cpu && raw.system_cpu
                != p.system_cpu {
                Some((raw.cpu_total - p.cpu_total, raw.system_cpu - p.system_cpu))
            } else {
                None
            }
        },
        None => None,
    };
    let (rx, tx, rd, wr) = match previous {
        Some(p) => (Some(p.network_rx), Some(p.network_tx), Some(p.block_read), Some(p.block_write)),
        None => (None, None, None, None),
    };
    StatsDelta {
        cpu,
        cpus: if raw.online_cpus == 0 {
            1
        } else {
            raw.online_cpus
        },
        network_rx: moved_exec(raw.network_rx, rx),
        network_tx: moved_exec(raw.network_tx, tx),
        block_read: moved_exec(raw.block_read, rd),
        block_write: moved_exec(raw.block_write, wr),
    }
}

/// Each counter of a container is compared with the same counter of the
/// previous sample: the bytes received, sent, read and written since then
/// (0 for a counter that went backwards); the CPU pair is the growth of the
/// container's CPU time and of the system's, given only when both grew and
/// the system's did move; the CPU count is the sample's own, at least 1.
pub proof fn lemma_stats_delta_against_previous(raw: RawStats, p: RawStats)
    ensures
        stats_delta_spec(raw, Some(p)).network_rx == (if raw.network_rx >= p.network_rx {
            raw.network_rx - p.network_rx
        } else {
            0
        }),
        stats_delta_spec(raw, Some(p)).network_tx == (if raw.network_tx >= p.network_tx {
            raw.network_tx - p.network_tx
        } else {
            0
        }),
        stats_delta_spec(raw, Some(p)).block_read == (if raw.block_read >= p.block_read {
            raw.block_read - p.block_read
        } else {
            0
        }),
        stats_delta_spec(raw, Some(p)).block_write == (if raw.block_write >= p.block_write {
            raw.block_write - p.block_write
        } else {
            0
        }),
        stats_delta_spec(raw, Some(p)).cpu is Some <==> (raw.cpu_total >= p.cpu_total
            && raw.system_cpu > p.system_cpu),
        stats_delta_spec(raw, Some(p)).cpu matches Some((c, sys)) ==> c == raw.cpu_total
            - p.cpu_total && sys == raw.system_cpu - p.system_cpu && sys > 0,
        raw.online_cpus > 0 ==> stats_delta_spec(raw, Some(p)).cpus == raw.online_cpus,
        raw.online_cpus == 0 ==> stats_delta_spec(raw, Some(p)).cpus == 1,
        // Samples with equal counters moved nothing.
        stats_delta_spec(p, Some(p)).network_rx == 0,
        stats_delta_spec(p, Some(p)).network_tx == 0,
        stats_delta_spec(p, Some(p)).block_read == 0,
        stats_delta_spec(p, Some(p)).block_write == 0,
        stats_delta_spec(p, Some(p)).cpu is None,
{
}

/// A first sample has nothing to compare with: no CPU pair and no bytes
/// moved.
pub proof fn lemma_stats_delta_first_sample(raw: RawStats)
    ensures
        stats_delta_spec(raw, None).cpu is None,
        stats_delta_spec(raw, None).network_rx == 0,
        stats_delta_spec(raw, None).network_tx == 0,
        stats_delta_spec(raw, None).block_read == 0,
        stats_delta_spec(raw, None).block_write == 0,
{
}

// ---------------------------------------------------------------------------
// Sampling cadence
// ---------------------------------------------------------------------------

/// The process list is rescanned every 2 s (the expensive read).
pub const PROCESS_SCAN_INTERVAL_MS: u64 = 2000;

/// The mounted filesystems are reread every 10 s.
pub const MOUNT_SCAN_INTERVAL_MS: u64 = 10_000;

/// Processes shown at most.
pub const MAX_PROCESSES: usize = 64;

/// Whether a periodic read is due: it never ran, or at least `interval_ms`
/// have passed since it last did.
pub fn refresh_due(since_last_ms: Option<u64>, interval_ms: u64) -> (r: bool)
    ensures
        r == match since_last_ms {
            Some(t) => t >= interval_ms,
            None => true,
        },
{
    match since_last_ms {
        Some(t) => t >= interval_ms,
        None => true,
    }
}

// ---------------------------------------------------------------------------
// Ranking processes
// ---------------------------------------------------------------------------

/// Ranking key of a process given as (bits of its CPU share, resident
/// bytes): CPU share descending, in the order `f64::total_cmp` gives, then
/// resident memory descending.
pub open spec fn process_key(p: (u64, u64)) -> KeyView {
    ((u64::MAX - float_order(p.0)) as u64, (u64::MAX - p.1) as u64, Seq::empty())
}

pub open spec fn process_keys(ranks: Seq<(u64, u64)>) -> Seq<KeyView> {
    ranks.map_values(|p: (u64, u64)| process_key(p))
}

/// Positions of the processes to show: the first `MAX_PROCESSES` in a
/// stable sort by CPU share, then resident memory, both descending.
pub fn top_processes(ranks: &Vec<(u64, u64)>) -> (r: Vec<usize>)
    ensures
        r@ == take_upto(sorted_positions(process_keys(ranks@)), 64),
{
    let mut keys: Vec<SortKey> = Vec::new();
    let mut i: usize = 0;
    while i < ranks.len()
        invariant
            i <= ranks.len(),
            keys_view(keys@) == process_keys(ranks@).take(i as int),
        decreases ranks.len() - i,
    {
        let (cpu_bits, rss) = ranks[i];
        let k = SortKey { rank: u64::MAX - float_rank(cpu_bits), tie: u64::MAX - rss, text: Vec::new() };
        let ghost before_push = keys_view(keys@);
        keys.push(k);
        proof {
            assert(keys_view(keys@) =~= before_push.push(key_of(k)));
            assert(process_keys(ranks@).take(i + 1) =~= process_keys(ranks@).take(i as int).push(
                process_key(ranks@[i as int]),
            ));
        }
        i += 1;
    }
    assert(process_keys(ranks@).take(ranks.len() as int) == process_keys(ranks@));
    let order = stable_order(&keys);
    let n: usize = if order.len() < MAX_PROCESSES {
        order.len()
    } else {
        MAX_PROCESSES
    };
    let mut out: Vec<usize> = Vec::new();
    let mut j: usize = 0;
    while j < n
        invariant
            n <= order.len(),
            n == take_upto(order@, 64).len(),
            j <= n,
            out@ == order@.take(j as int),
        decreases n - j,
    {
        out.push(order[j]);
        assert(order@.take(j + 1) == order@.take(j as int).push(order@[j as int]));
        j += 1;
    }
    assert(out@ == take_upto(order@, 64));
    out
}

/// The processes shown are the busiest: at most 64 of them, each one
/// once, and every process left out ranks after each one shown (less CPU,
/// or as much CPU and less memory, or both equal and listed later).
pub proof fn lemma_top_processes_are_the_busiest(ranks: Seq<(u64, u64)>)
    requires
        ranks.len() <= usize::MAX,
    ensures
        take_upto(sorted_positions(process_keys(ranks)), 64).len() == (if ranks.len() < 64 {
            ranks.len()
        } else {
            64
        }),
        forall|a: int|
            0 <= a < take_upto(sorted_positions(process_keys(ranks)), 64).len() ==> #[trigger] take_upto(
                sorted_positions(process_keys(ranks)),
                64,
            )[a] < ranks.len(),
        forall|a: int, b: int|
            0 <= a < b < take_upto(sorted_positions(process_keys(ranks)), 64).len() ==> #[trigger] take_upto(
                sorted_positions(process_keys(ranks)),
                64,
            )[a] != #[trigger] take_upto(sorted_positions(process_keys(ranks)), 64)[b],
        forall|a: int, j: usize|
            0 <= a < take_upto(sorted_positions(process_keys(ranks)), 64).len() && j < ranks.len()
                && !take_upto(sorted_positions(process_keys(ranks)), 64).contains(j) ==> #[trigger] before(
                process_keys(ranks),
                take_upto(sorted_positions(process_keys(ranks)), 64)[a] as int,
                j as int,
            ),
{
    let keys = process_keys(ranks);
    lemma_stable_order_exists(keys);
    let p = sorted_positions(keys);
    let top = take_upto(p, 64);
    assert(is_stable_order(keys, p));
    assert forall|a: int| 0 <= a < top.len() implies #[trigger] top[a] < ranks.len() by {
        assert(top[a] == p[a]);
    }
    assert forall|a: int, b: int| 0 <= a < b < top.len() implies #[trigger] top[a] != #[trigger] top[b] by {
        assert(top[a] == p[a] && top[b] == p[b]);
        assert(before(keys, p[a] as int, p[b] as int));
        if p[a] == p[b] {
            crate::order::lemma_before_irreflexive(keys, p[a] as int);
        }
    }
    assert forall|a: int, j: usize|
        0 <= a < top.len() && j < ranks.len() && !top.contains(j) implies #[trigger] before(
        keys,
        top[a] as int,
        j as int,
    ) by {
        assert(p.contains(j));
        let b = choose|b: int| 0 <= b < p.len() && p[b] == j;
        if b < top.len() {
            assert(top[b] == j);
        }
        assert(top[a] == p[a]);
        assert(a < b);
    }
}

} // verus!
