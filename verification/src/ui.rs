//! Small text helpers of the screens.
use vstd::prelude::*;

use crate::host::proc::base_name;
use crate::order::{
    float_order, float_rank, key_of, keys_view, sorted_positions, stable_order, KeyView, SortKey,
};
use crate::text::{chars_of, string_from, string_of};

verus! {

/// `/dev/sda3` → `sda3`: the text after the last `/`.
pub fn short_device(device: &str) -> (r: String)
    ensures
        r@ == base_name(device@),
{
    let d = chars_of(device);
    match crate::host::proc::rfind_char(&d, '/') {
        Some(i) => {
            proof {
                crate::host::proc::lemma_last_index_of_bounds(d@, '/');
            }
            let n = d.len();
            string_of(&crate::host::proc::slice_chars(&d, i + 1, n))
        },
        None => string_from(device),
    }
}

/// Plural ending for a count: none for exactly one.
pub fn plural(n: usize) -> (r: &'static str)
    ensures
        r@ == (if n == 1 {
            ""@
        } else {
            "s"@
        }),
{
    if n == 1 {
        ""
    } else {
        "s"
    }
}

pub fn yes_no(value: bool) -> (r: String)
    ensures
        r@ == (if value {
            "yes"@
        } else {
            "no"@
        }),
{
    if value {
        string_from("yes")
    } else {
        string_from("no")
    }
}

/// How many of `total` rows a table with room for `room` rows shows, and how
/// many it leaves out.
pub fn fit_rows(total: usize, room: usize) -> (r: (usize, usize))
    ensures
        r.0 == (if total <= room {
            total
        } else {
            room
        }),
        r.0 + r.1 == total,
{
    if total <= room {
        (total, 0)
    } else {
        (room, total - room)
    }
}

/// Positions of the containers that use memory (more than 0 bytes), in order.
pub open spec fn memory_users(ms: Seq<u64>) -> Seq<usize>
    decreases ms.len(),
{
    if ms.len() == 0 {
        Seq::empty()
    } else {
        let prev = memory_users(ms.drop_last());
        if ms.last() > 0 {
            prev.push((ms.len() - 1) as usize)
        } else {
            prev
        }
    }
}

/// Ranking key of a memory use: the more bytes, the earlier.
pub open spec fn memory_key(bytes: u64) -> KeyView {
    ((u64::MAX - bytes) as u64, 0u64, Seq::empty())
}

pub open spec fn memory_keys(ms: Seq<u64>, users: Seq<usize>) -> Seq<KeyView> {
    users.map_values(|i: usize| memory_key(ms[i as int]))
}

/// The containers that use memory, the largest user first; equal uses keep
/// the containers' order.
pub open spec fn memory_ranking_spec(ms: Seq<u64>) -> Seq<usize> {
    let users = memory_users(ms);
    sorted_positions(memory_keys(ms, users)).map_values(|j: usize| users[j as int])
}

/// Positions (in `memory`, the bytes each container uses) of the services
/// the memory panel lists: those using memory, largest first, in a stable
/// order.
pub fn memory_ranking(memory: &Vec<u64>) -> (r: Vec<usize>)
    ensures
        r@ == memory_ranking_spec(memory@),
{
    let ghost ms = memory@;
    let mut users: Vec<usize> = Vec::new();
    let mut i: usize = 0;
    while i < memory.len()
        invariant
            ms == memory@,
            i <= memory.len(),
            users@ == memory_users(ms.take(i as int)),
            forall|k: int| 0 <= k < users@.len() ==> (#[trigger] users@[k]) < i,
        decreases memory.len() - i,
    {
        assert(ms.take(i + 1).drop_last() == ms.take(i as int));
        assert(ms.take(i + 1).last() == ms[i as int]);
        if memory[i] > 0 {
            users.push(i);
        }
        i += 1;
    }
    assert(ms.take(memory.len() as int) == ms);
    let mut keys: Vec<SortKey> = Vec::new();
    let mut j: usize = 0;
    while j < users.len()
        invariant
            ms == memory@,
            forall|k: int| 0 <= k < users@.len() ==> (#[trigger] users@[k]) < memory.len(),
            j <= users.len(),
            keys_view(keys@) == memory_keys(ms, users@).take(j as int),
        decreases users.len() - j,
    {
        let k = SortKey { rank: u64::MAX - memory[users[j]], tie: 0, text: Vec::new() };
        let ghost before = keys_view(keys@);
        keys.push(k);
        proof {
            assert(keys_view(keys@) =~= before.push(key_of(k)));
            assert(memory_keys(ms, users@).take(j + 1) =~= memory_keys(ms, users@).take(
                j as int,
            ).push(memory_key(ms[users@[j as int] as int])));
        }
        j += 1;
    }
    assert(memory_keys(ms, users@).take(users.len() as int) == memory_keys(ms, users@));
    let order = stable_order(&keys);
    let mut out: Vec<usize> = Vec::new();
    let mut m: usize = 0;
    while m < order.len()
        invariant
            forall|a: int| 0 <= a < order@.len() ==> (#[trigger] order@[a]) < users@.len(),
            m <= order.len(),
            out@ == order@.take(m as int).map_values(|x: usize| users@[x as int]),
        decreases order.len() - m,
    {
        let x = order[m];
        out.push(users[x]);
        assert(order@.take(m + 1).map_values(|x: usize| users@[x as int]) =~= order@.take(
            m as int,
        ).map_values(|x: usize| users@[x as int]).push(users@[x as int]));
        m += 1;
    }
    assert(order@.take(order.len() as int) == order@);
    out
}

/// All positions of `bytes`, the largest value first; equal values keep
/// their order.
pub open spec fn largest_first_spec(bytes: Seq<u64>) -> Seq<usize> {
    sorted_positions(bytes.map_values(|b: u64| memory_key(b)))
}

/// Positions of `bytes` (e.g. each process's resident memory), largest
/// first, in a stable order.
pub fn largest_first(bytes: &Vec<u64>) -> (r: Vec<usize>)
    ensures
        r@ == largest_first_spec(bytes@),
{
    let mut keys: Vec<SortKey> = Vec::new();
    let mut i: usize = 0;
    while i < bytes.len()
        invariant
            i <= bytes.len(),
            keys_view(keys@) == bytes@.map_values(|b: u64| memory_key(b)).take(i as int),
        decreases bytes.len() - i,
    {
        let k = SortKey { rank: u64::MAX - bytes[i], tie: 0, text: Vec::new() };
        let ghost before = keys_view(keys@);
        keys.push(k);
        proof {
            assert(keys_view(keys@) =~= before.push(key_of(k)));
            assert(bytes@.map_values(|b: u64| memory_key(b)).take(i + 1) =~= bytes@.map_values(
                |b: u64| memory_key(b),
            ).take(i as int).push(memory_key(bytes@[i as int])));
        }
        i += 1;
    }
    assert(bytes@.map_values(|b: u64| memory_key(b)).take(bytes.len() as int) == bytes@.map_values(
        |b: u64| memory_key(b),
    ));
    stable_order(&keys)
}

/// Ranking key of a CPU share given by its bits: the larger share (in the
/// order `f64::total_cmp` gives) first.
pub open spec fn share_key(bits: u64) -> KeyView {
    ((u64::MAX - float_order(bits)) as u64, 0u64, Seq::empty())
}

/// All positions of `shares` (bits of CPU percentages), the largest share
/// first; equal shares keep their order.
pub open spec fn busiest_first_spec(shares: Seq<u64>) -> Seq<usize> {
    sorted_positions(shares.map_values(|b: u64| share_key(b)))
}

/// Positions of the processes by CPU share, busiest first, in a stable order.
pub fn busiest_first(shares: &Vec<u64>) -> (r: Vec<usize>)
    ensures
        r@ == busiest_first_spec(shares@),
{
    let mut keys: Vec<SortKey> = Vec::new();
    let mut i: usize = 0;
    while i < shares.len()
        invariant
            i <= shares.len(),
            keys_view(keys@) == shares@.map_values(|b: u64| share_key(b)).take(i as int),
        decreases shares.len() - i,
    {
        let k = SortKey { rank: u64::MAX - float_rank(shares[i]), tie: 0, text: Vec::new() };
        let ghost before = keys_view(keys@);
        keys.push(k);
        proof {
            assert(keys_view(keys@) =~= before.push(key_of(k)));
            assert(shares@.map_values(|b: u64| share_key(b)).take(i + 1) =~= shares@.map_values(
                |b: u64| share_key(b),
            ).take(i as int).push(share_key(shares@[i as int])));
        }
        i += 1;
    }
    assert(shares@.map_values(|b: u64| share_key(b)).take(shares.len() as int) == shares@.map_values(
        |b: u64| share_key(b),
    ));
    stable_order(&keys)
}

} // verus!
