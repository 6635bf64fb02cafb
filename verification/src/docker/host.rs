//! Host memory split into RAM, zram and swap files, from `/proc/meminfo` and
//! `/proc/swaps`.
use vstd::prelude::*;

use crate::host::proc::field_u64;
use crate::text::{
    chars_of, contains_seq, contains_str, has_prefix, lines, opt_str, parse_u64_or_zero, split_lines,
    split_words, starts_with_str, u64_or_zero, views, words,
};

verus! {

#[derive(Clone, Copy, Debug, Default, PartialEq, Eq, Structural)]
pub struct HostMemory {
    pub ram_total: u64,
    pub ram_used: u64,
    pub zram_total: u64,
    pub zram_used: u64,
    pub swapfile_total: u64,
    pub swapfile_used: u64,
}

impl HostMemory {
    pub open spec fn zero() -> HostMemory {
        HostMemory {
            ram_total: 0,
            ram_used: 0,
            zram_total: 0,
            zram_used: 0,
            swapfile_total: 0,
            swapfile_used: 0,
        }
    }

    pub fn new() -> (m: Self)
        ensures
            m == HostMemory::zero(),
    {
        HostMemory {
            ram_total: 0,
            ram_used: 0,
            zram_total: 0,
            zram_used: 0,
            swapfile_total: 0,
            swapfile_used: 0,
        }
    }

    pub open spec fn total_spec(self) -> u64 {
        self.ram_total.saturating_add(self.zram_total).saturating_add(self.swapfile_total)
    }

    pub open spec fn used_spec(self) -> u64 {
        self.ram_used.saturating_add(self.zram_used).saturating_add(self.swapfile_used)
    }

    /// RAM + zram + swap file capacity, saturating.
    pub fn total(&self) -> (r: u64)
        ensures
            r == self.total_spec(),
    {
        self.ram_total.saturating_add(self.zram_total).saturating_add(self.swapfile_total)
    }

    /// RAM + zram + swap file usage, saturating.
    pub fn used(&self) -> (r: u64)
        ensures
            r == self.used_spec(),
    {
        self.ram_used.saturating_add(self.zram_used).saturating_add(self.swapfile_used)
    }
}

/// When no part uses more than it has, the total used is within the total.
pub proof fn lemma_used_within_total(m: HostMemory)
    requires
        m.ram_used <= m.ram_total,
        m.zram_used <= m.zram_total,
        m.swapfile_used <= m.swapfile_total,
    ensures
        m.used_spec() <= m.total_spec(),
{
}

/// Second field of a `key: value kB` line as a number, 0 when missing.
pub open spec fn kb_field(line: Seq<char>) -> u64 {
    field_u64(words(line), 1)
}

/// The second whitespace-separated field of `line` as a number (e.g. the kB
/// of a `/proc/meminfo` line), 0 when missing or not a number.
pub fn parse_kb(line: &str) -> (r: u64)
    ensures
        r == kb_field(line@),
{
    let w = split_words(&chars_of(line));
    crate::host::proc::num(&w, 1)
}

/// `MemTotal` and `MemAvailable` of `/proc/meminfo` in kB (the last line of
/// each wins; 0 when absent).
pub open spec fn meminfo_scan(ls: Seq<Seq<char>>) -> (u64, u64)
    decreases ls.len(),
{
    if ls.len() == 0 {
        (0, 0)
    } else {
        let prev = meminfo_scan(ls.drop_last());
        let l = ls.last();
        if has_prefix(l, "MemTotal:"@) {
            (kb_field(l), prev.1)
        } else if has_prefix(l, "MemAvailable:"@) {
            (prev.0, kb_field(l))
        } else {
            prev
        }
    }
}

/// Kilobytes to bytes in `u64` arithmetic, wrapping around on overflow (as a
/// release build multiplies).
pub open spec fn kb_bytes(kb: u64) -> u64 {
    vstd::wrapping::u64_specs::wrapping_mul(kb, 1024)
}

/// (zram total, zram used, swap file total, swap file used) in bytes over the
/// lines of `/proc/swaps` after its header: lines of at least five fields
/// whose device name contains `zram` set the zram pair, others whose name is
/// an absolute path set the swap file pair (the last line wins).
pub open spec fn swaps_scan(ls: Seq<Seq<char>>) -> (u64, u64, u64, u64)
    decreases ls.len(),
{
    if ls.len() == 0 {
        (0, 0, 0, 0)
    } else {
        let prev = swaps_scan(ls.drop_last());
        let f = words(ls.last());
        if f.len() < 5 {
            prev
        } else if contains_seq(f[0], "zram"@) {
            (kb_bytes(u64_or_zero(f[2])), kb_bytes(u64_or_zero(f[3])), prev.2, prev.3)
        } else if has_prefix(f[0], "/"@) {
            (prev.0, prev.1, kb_bytes(u64_or_zero(f[2])), kb_bytes(u64_or_zero(f[3])))
        } else {
            prev
        }
    }
}

/// The lines after the first one.
pub open spec fn after_header(ls: Seq<Seq<char>>) -> Seq<Seq<char>> {
    if ls.len() > 0 {
        ls.drop_first()
    } else {
        ls
    }
}

/// Host memory from the texts of `/proc/meminfo` and `/proc/swaps` (`None`
/// for a file that could not be read, which leaves its part at 0): RAM total
/// is `MemTotal`, RAM used is `MemTotal - MemAvailable` (at least 0).
pub open spec fn host_memory_spec(meminfo: Option<Seq<char>>, swaps: Option<Seq<char>>) -> HostMemory {
    let (total_kb, available_kb) = match meminfo {
        Some(text) => meminfo_scan(lines(text)),
        None => (0u64, 0u64),
    };
    let used_kb = if total_kb >= available_kb {
        (total_kb - available_kb) as u64
    } else {
        0u64
    };
    let s = match swaps {
        Some(text) => swaps_scan(after_header(lines(text))),
        None => (0u64, 0u64, 0u64, 0u64),
    };
    HostMemory {
        ram_total: kb_bytes(total_kb),
        ram_used: kb_bytes(used_kb),
        zram_total: s.0,
        zram_used: s.1,
        swapfile_total: s.2,
        swapfile_used: s.3,
    }
}

fn meminfo_totals(text: &str) -> (r: (u64, u64))
    ensures
        r == meminfo_scan(lines(text@)),
{
    let ls = split_lines(&chars_of(text));
    let ghost lv = views(ls@);
    let mut total: u64 = 0;
    let mut available: u64 = 0;
    let mut i: usize = 0;
    while i < ls.len()
        invariant
            lv == views(ls@),
            lv == lines(text@),
            i <= ls.len(),
            (total, available) == meminfo_scan(lv.take(i as int)),
        decreases ls.len() - i,
    {
        assert(lv.take(i + 1).drop_last() == lv.take(i as int));
        if starts_with_str(&ls[i], "MemTotal:") {
            total = crate::host::proc::num(&split_words(&ls[i]), 1);
        } else if starts_with_str(&ls[i], "MemAvailable:") {
            available = crate::host::proc::num(&split_words(&ls[i]), 1);
        }
        i += 1;
    }
    assert(lv.take(ls.len() as int) == lv);
    (total, available)
}

fn swap_totals(text: &str) -> (r: (u64, u64, u64, u64))
    ensures
        r == swaps_scan(after_header(lines(text@))),
{
    let ls = split_lines(&chars_of(text));
    let ghost all = views(ls@);
    let ghost lv = after_header(all);
    let mut acc: (u64, u64, u64, u64) = (0, 0, 0, 0);
    let mut i: usize = if ls.len() > 0 {
        1
    } else {
        0
    };
    let start = i;
    assert(lv == all.skip(start as int));
    while i < ls.len()
        invariant
            all == views(ls@),
            all == lines(text@),
            lv == all.skip(start as int),
            start <= i <= ls.len(),
            swaps_scan(lv.take(i - start)) == acc,
        decreases ls.len() - i,
    {
        assert(lv.take(i - start + 1).drop_last() == lv.take(i - start));
        assert(lv.take(i - start + 1).last() == lv[i - start]);
        assert(lv[i - start] == all[i as int]);
        let f = split_words(&ls[i]);
        if f.len() >= 5 {
            let t = parse_u64_or_zero(&f[2]).wrapping_mul(1024);
            let u = parse_u64_or_zero(&f[3]).wrapping_mul(1024);
            if contains_str(&f[0], "zram") {
                acc = (t, u, acc.2, acc.3);
            } else if starts_with_str(&f[0], "/") {
                acc = (acc.0, acc.1, t, u);
            }
        }
        i += 1;
    }
    assert(lv.take(ls.len() - start) == lv);
    acc
}

/// Host memory from the texts of `/proc/meminfo` and `/proc/swaps` (`None`
/// for a file that could not be read).
pub fn host_memory_from(meminfo: Option<&str>, swaps: Option<&str>) -> (r: HostMemory)
    ensures
        r == host_memory_spec(opt_str(meminfo), opt_str(swaps)),
{
    let (total_kb, available_kb) = match meminfo {
        Some(text) => meminfo_totals(text),
        None => (0, 0),
    };
    let s = match swaps {
        Some(text) => swap_totals(text),
        None => (0, 0, 0, 0),
    };
    HostMemory {
        ram_total: total_kb.wrapping_mul(1024),
        ram_used: total_kb.saturating_sub(available_kb).wrapping_mul(1024),
        zram_total: s.0,
        zram_used: s.1,
        swapfile_total: s.2,
        swapfile_used: s.3,
    }
}

} // verus!
