//! Parsers for the Linux `/proc` files the host monitor reads.
//!
//! Every parser is total: malformed input yields defaults, never a panic.
//! Each one is stated as a spec function over the characters of the file,
//! and the executable parser is proved to compute it. Reading the files is
//! left to the caller.
use vstd::prelude::*;

use crate::order::{
    is_stable_order, keys_view, sorted_positions, stable_order, KeyView, SortKey,
};
use crate::text::{
    all_digits, chars_eq_str, chars_of, lines, matches_at, parse_i32, parse_i32_spec, push_all,
    split_lines, split_words, trim, trim_chars, word_scan, words, contains_seq, contains_str, has_prefix, is_ascii_digit, is_digit,
    parse_u64_or_zero, same_chars, starts_with_str, string_of, u64_or_zero, views,
};

verus! {

pub const SECTOR_SIZE: u64 = 512;

pub const PAGE_SIZE: u64 = 4096;

// ---------------------------------------------------------------------------
// Records
// ---------------------------------------------------------------------------

#[derive(Clone, Copy, Debug, Default, PartialEq, Eq)]
pub struct CoreRaw {
    /// Total CPU ticks across all states.
    pub total: u64,
    /// idle + iowait ticks.
    pub idle: u64,
}

#[derive(Clone, Debug, Default)]
pub struct DiskRaw {
    pub name: String,
    pub sectors_read: u64,
    pub sectors_written: u64,
    pub reads_completed: u64,
    pub writes_completed: u64,
    pub time_read_ms: u64,
    pub time_write_ms: u64,
    /// I/Os currently in flight (instantaneous gauge, not a counter).
    pub ios_in_progress: u64,
    /// Milliseconds spent doing I/O.
    pub io_time_ms: u64,
    pub weighted_ms: u64,
    /// Block-device capacity from `/proc/partitions`, 0 when unknown.
    pub capacity_bytes: u64,
}

/// What a `DiskRaw` holds, its name as characters.
pub struct DiskSpec {
    pub name: Seq<char>,
    pub sectors_read: u64,
    pub sectors_written: u64,
    pub reads_completed: u64,
    pub writes_completed: u64,
    pub time_read_ms: u64,
    pub time_write_ms: u64,
    pub ios_in_progress: u64,
    pub io_time_ms: u64,
    pub weighted_ms: u64,
    pub capacity_bytes: u64,
}

impl View for DiskRaw {
    type V = DiskSpec;

    open spec fn view(&self) -> DiskSpec {
        DiskSpec {
            name: self.name@,
            sectors_read: self.sectors_read,
            sectors_written: self.sectors_written,
            reads_completed: self.reads_completed,
            writes_completed: self.writes_completed,
            time_read_ms: self.time_read_ms,
            time_write_ms: self.time_write_ms,
            ios_in_progress: self.ios_in_progress,
            io_time_ms: self.io_time_ms,
            weighted_ms: self.weighted_ms,
            capacity_bytes: self.capacity_bytes,
        }
    }
}

#[derive(Clone, Debug, Default)]
pub struct NetRaw {
    pub name: String,
    pub rx_bytes: u64,
    pub tx_bytes: u64,
    pub rx_packets: u64,
    pub tx_packets: u64,
    pub rx_errs: u64,
    pub rx_drop: u64,
    pub tx_errs: u64,
    pub tx_drop: u64,
}

/// What a `NetRaw` holds, its name as characters.
pub struct NetSpec {
    pub name: Seq<char>,
    pub rx_bytes: u64,
    pub tx_bytes: u64,
    pub rx_packets: u64,
    pub tx_packets: u64,
    pub rx_errs: u64,
    pub rx_drop: u64,
    pub tx_errs: u64,
    pub tx_drop: u64,
}

impl View for NetRaw {
    type V = NetSpec;

    open spec fn view(&self) -> NetSpec {
        NetSpec {
            name: self.name@,
            rx_bytes: self.rx_bytes,
            tx_bytes: self.tx_bytes,
            rx_packets: self.rx_packets,
            tx_packets: self.tx_packets,
            rx_errs: self.rx_errs,
            rx_drop: self.rx_drop,
            tx_errs: self.tx_errs,
            tx_drop: self.tx_drop,
        }
    }
}

#[derive(Clone, Debug, Default)]
pub struct MountRaw {
    /// Source device as written in `/proc/mounts` (e.g. `/dev/sda3`).
    pub device: String,
    pub mountpoint: String,
    pub fstype: String,
    /// Partition capacity from `/proc/partitions`, 0 when unknown.
    pub size_bytes: u64,
}

/// What a `MountRaw` holds, its texts as characters.
pub struct MountSpec {
    pub device: Seq<char>,
    pub mountpoint: Seq<char>,
    pub fstype: Seq<char>,
    pub size_bytes: u64,
}

impl View for MountRaw {
    type V = MountSpec;

    open spec fn view(&self) -> MountSpec {
        MountSpec {
            device: self.device@,
            mountpoint: self.mountpoint@,
            fstype: self.fstype@,
            size_bytes: self.size_bytes,
        }
    }
}

#[derive(Clone, Debug, Default)]
pub struct ProcRaw {
    pub pid: i32,
    pub name: String,
    pub state: char,
    pub utime: u64,
    pub stime: u64,
    pub rss_pages: u64,
    pub threads: u64,
}

/// What a `ProcRaw` holds, its name as characters.
pub struct ProcSpec {
    pub pid: i32,
    pub name: Seq<char>,
    pub state: char,
    pub utime: u64,
    pub stime: u64,
    pub rss_pages: u64,
    pub threads: u64,
}

impl View for ProcRaw {
    type V = ProcSpec;

    open spec fn view(&self) -> ProcSpec {
        ProcSpec {
            pid: self.pid,
            name: self.name@,
            state: self.state,
            utime: self.utime,
            stime: self.stime,
            rss_pages: self.rss_pages,
            threads: self.threads,
        }
    }
}

// ---------------------------------------------------------------------------
// Fields
// ---------------------------------------------------------------------------

/// Field `i` of a whitespace-split line read as a `u64`, 0 when it is
/// missing or not a number.
pub open spec fn field_u64(f: Seq<Seq<char>>, i: int) -> u64 {
    if 0 <= i < f.len() {
        u64_or_zero(f[i])
    } else {
        0
    }
}

/// Field `index` of `fields` read as a `u64`, 0 when it is missing or not a
/// number.
pub fn num(fields: &Vec<Vec<char>>, index: usize) -> (r: u64)
    ensures
        r == field_u64(views(fields@), index as int),
{
    if index < fields.len() {
        parse_u64_or_zero(&fields[index])
    } else {
        0
    }
}

// ---------------------------------------------------------------------------
// Block device names
// ---------------------------------------------------------------------------

/// Devices that are never storage: loop/ram/zram backing, floppies, optical
/// drives, the `nullb` test driver.
pub open spec fn ignored_virtual(name: Seq<char>) -> bool {
    ||| has_prefix(name, "loop"@)
    ||| has_prefix(name, "ram"@)
    ||| has_prefix(name, "zram"@)
    ||| has_prefix(name, "fd"@)
    ||| has_prefix(name, "sr"@)
    ||| has_prefix(name, "nullb"@)
}

/// A non-empty run of decimal digits.
pub open spec fn number_suffix(s: Seq<char>) -> bool {
    s.len() > 0 && all_digits(s)
}

/// Position of the last `c` in `s`.
pub open spec fn last_index_of(s: Seq<char>, c: char) -> Option<int>
    decreases s.len(),
{
    if s.len() == 0 {
        None
    } else if s.last() == c {
        Some(s.len() - 1)
    } else {
        last_index_of(s.drop_last(), c)
    }
}

/// Position of the first `c` in `s`.
pub open spec fn first_index_of(s: Seq<char>, c: char) -> Option<int>
    decreases s.len(),
{
    if s.len() == 0 {
        None
    } else if s[0] == c {
        Some(0)
    } else {
        match first_index_of(s.drop_first(), c) {
            Some(i) => Some(i + 1),
            None => None,
        }
    }
}

/// Whole physical disks (partitions excluded) across naming schemes:
/// `sda`/`vda`/`xvda` (a trailing digit marks a partition), NVMe, MMC and
/// NBD (a `p<digits>` suffix marks a partition). `dm-*` and `md<digits>` are
/// virtual.
pub open spec fn physical_whole(name: Seq<char>) -> bool {
    if has_prefix(name, "dm-"@) {
        false
    } else if has_prefix(name, "md"@) && number_suffix(name.skip(2)) {
        false
    } else if has_prefix(name, "nvme"@) || has_prefix(name, "mmcblk"@) || has_prefix(name, "nbd"@) {
        if contains_seq(name, "boot"@) || contains_seq(name, "rpmb"@) {
            false
        } else if last_index_of(name, 'p') is Some && number_suffix(
            name.skip(last_index_of(name, 'p')->0 + 1),
        ) {
            false
        } else if name.len() > 0 && name.last() == 'p' {
            false
        } else {
            true
        }
    } else {
        !(name.len() > 0 && is_digit(name.last()))
    }
}

/// Whole virtual devices: `dm-<digits>` (LVM), `md<digits>` (RAID).
pub open spec fn virtual_whole(name: Seq<char>) -> bool {
    if has_prefix(name, "dm-"@) {
        number_suffix(name.skip(3))
    } else if has_prefix(name, "md"@) {
        number_suffix(name.skip(2))
    } else {
        false
    }
}

fn all_digits_from(s: &Vec<char>, start: usize) -> (r: bool)
    requires
        start <= s.len(),
    ensures
        r == number_suffix(s@.skip(start as int)),
{
    if start == s.len() {
        return false;
    }
    let mut i: usize = start;
    while i < s.len()
        invariant
            start <= i <= s.len(),
            forall|k: int| start <= k < i ==> is_digit(s@[k]),
        decreases s.len() - i,
    {
        if !is_ascii_digit(s[i]) {
            assert(!is_digit(s@.skip(start as int)[i - start]));
            return false;
        }
        i += 1;
    }
    assert forall|k: int| 0 <= k < s@.skip(start as int).len() implies is_digit(
        #[trigger] s@.skip(start as int)[k],
    ) by {
        assert(s@.skip(start as int)[k] == s@[start + k]);
    }
    true
}

/// Position of the last `c` in `s`.
pub fn rfind_char(s: &Vec<char>, c: char) -> (r: Option<usize>)
    ensures
        match r {
            Some(i) => last_index_of(s@, c) == Some(i as int),
            None => last_index_of(s@, c) is None,
        },
{
    let mut i: usize = s.len();
    assert(s@.take(s.len() as int) =~= s@);
    while i > 0
        invariant
            i <= s.len(),
            last_index_of(s@, c) == last_index_of(s@.take(i as int), c),
        decreases i,
    {
        assert(s@.take(i as int).drop_last() == s@.take(i - 1));
        if s[i - 1] == c {
            return Some(i - 1);
        }
        i -= 1;
    }
    None
}

/// Position of the first `c` in `s`.
pub fn find_char(s: &Vec<char>, c: char) -> (r: Option<usize>)
    ensures
        match r {
            Some(i) => first_index_of(s@, c) == Some(i as int),
            None => first_index_of(s@, c) is None,
        },
{
    let mut i: usize = 0;
    while i < s.len()
        invariant
            i <= s.len(),
            forall|k: int| 0 <= k < i ==> s@[k] != c,
        decreases s.len() - i,
    {
        if s[i] == c {
            proof {
                lemma_first_index_of(s@, c, i as int);
            }
            return Some(i);
        }
        i += 1;
    }
    proof {
        lemma_first_index_of_none(s@, c);
    }
    None
}

proof fn lemma_first_index_of(s: Seq<char>, c: char, i: int)
    requires
        0 <= i < s.len(),
        s[i] == c,
        forall|k: int| 0 <= k < i ==> s[k] != c,
    ensures
        first_index_of(s, c) == Some(i),
    decreases i,
{
    if i > 0 {
        lemma_first_index_of(s.drop_first(), c, i - 1);
    }
}

proof fn lemma_first_index_of_none(s: Seq<char>, c: char)
    requires
        forall|k: int| 0 <= k < s.len() ==> s[k] != c,
    ensures
        first_index_of(s, c) is None,
    decreases s.len(),
{
    if s.len() > 0 {
        lemma_first_index_of_none(s.drop_first(), c);
    }
}

proof fn lemma_first_index_of_bounds(s: Seq<char>, c: char)
    ensures
        first_index_of(s, c) is Some ==> 0 <= first_index_of(s, c)->0 < s.len() && s[first_index_of(
            s,
            c,
        )->0] == c,
    decreases s.len(),
{
    if s.len() > 0 && s[0] != c {
        lemma_first_index_of_bounds(s.drop_first(), c);
    }
}

pub proof fn lemma_last_index_of_bounds(s: Seq<char>, c: char)
    ensures
        last_index_of(s, c) is Some ==> 0 <= last_index_of(s, c)->0 < s.len() && s[last_index_of(
            s,
            c,
        )->0] == c,
    decreases s.len(),
{
    if s.len() > 0 && s.last() != c {
        lemma_last_index_of_bounds(s.drop_last(), c);
    }
}

fn ignored_virtual_chars(name: &Vec<char>) -> (r: bool)
    ensures
        r == ignored_virtual(name@),
{
    starts_with_str(name, "loop") || starts_with_str(name, "ram") || starts_with_str(name, "zram")
        || starts_with_str(name, "fd") || starts_with_str(name, "sr") || starts_with_str(
        name,
        "nullb",
    )
}

fn physical_whole_chars(name: &Vec<char>) -> (r: bool)
    ensures
        r == physical_whole(name@),
{
    proof {
        reveal_strlit("md");
        reveal_strlit("dm-");
    }
    if starts_with_str(name, "dm-") {
        return false;
    }
    if starts_with_str(name, "md") && all_digits_from(name, 2) {
        return false;
    }
    if starts_with_str(name, "nvme") || starts_with_str(name, "mmcblk") || starts_with_str(
        name,
        "nbd",
    ) {
        if contains_str(name, "boot") || contains_str(name, "rpmb") {
            return false;
        }
        match rfind_char(name, 'p') {
            Some(p) => {
                proof {
                    lemma_last_index_of_bounds(name@, 'p');
                    assert(p < name.len());
                }
                if all_digits_from(name, p + 1) {
                    return false;
                }
            },
            None => {},
        }
        if name.len() > 0 && name[name.len() - 1] == 'p' {
            return false;
        }
        return true;
    }
    !(name.len() > 0 && is_ascii_digit(name[name.len() - 1]))
}

fn virtual_whole_chars(name: &Vec<char>) -> (r: bool)
    ensures
        r == virtual_whole(name@),
{
    proof {
        reveal_strlit("md");
        reveal_strlit("dm-");
    }
    if starts_with_str(name, "dm-") {
        all_digits_from(name, 3)
    } else if starts_with_str(name, "md") {
        all_digits_from(name, 2)
    } else {
        false
    }
}

/// Devices that are never storage (`loop*`, `ram*`, `zram*`, `fd*`, `sr*`,
/// `nullb*`).
pub fn is_ignored_virtual(name: &str) -> (r: bool)
    ensures
        r == ignored_virtual(name@),
{
    ignored_virtual_chars(&chars_of(name))
}

/// Whole physical disks, partitions and virtual devices excluded.
pub fn is_physical_whole(name: &str) -> (r: bool)
    ensures
        r == physical_whole(name@),
{
    physical_whole_chars(&chars_of(name))
}

/// Whole virtual devices: `dm-<digits>`, `md<digits>`.
pub fn is_virtual_whole(name: &str) -> (r: bool)
    ensures
        r == virtual_whole(name@),
{
    virtual_whole_chars(&chars_of(name))
}

// ---------------------------------------------------------------------------
// /proc/stat
// ---------------------------------------------------------------------------

/// The first `n` items of `s`, or all of them when there are fewer.
pub open spec fn take_upto<A>(s: Seq<A>, n: int) -> Seq<A> {
    if s.len() <= n {
        s
    } else {
        s.take(n)
    }
}

/// The tick counters of a `cpu` line: at most eight fields after the name
/// (user nice system idle iowait irq softirq steal); guest time is not added
/// because it is already counted in user time.
pub open spec fn stat_values(f: Seq<Seq<char>>) -> Seq<u64> {
    take_upto(f.skip(1), 8).map_values(|w: Seq<char>| u64_or_zero(w))
}

/// Sum of `v` in `u64` arithmetic, wrapping around on overflow (as a
/// release build adds).
pub open spec fn wrap_sum(v: Seq<u64>) -> u64
    decreases v.len(),
{
    if v.len() == 0 {
        0
    } else {
        vstd::wrapping::u64_specs::wrapping_add(wrap_sum(v.drop_last()), v.last())
    }
}

pub open spec fn value_at(v: Seq<u64>, i: int) -> u64 {
    if 0 <= i < v.len() {
        v[i]
    } else {
        0
    }
}

/// Totals of one `cpu` line: all its tick counters, and idle + iowait.
pub open spec fn core_from_fields(f: Seq<Seq<char>>) -> CoreRaw {
    let v = stat_values(f);
    CoreRaw {
        total: wrap_sum(v),
        idle: vstd::wrapping::u64_specs::wrapping_add(value_at(v, 3), value_at(v, 4)),
    }
}

/// `cpu<digits>`: a per-core line.
pub open spec fn core_name(w: Seq<char>) -> bool {
    w.len() > 3 && all_digits(w.skip(3))
}

/// The aggregate `cpu` line (the last one wins) and the per-core lines in
/// order, over the lines of `/proc/stat`.
pub open spec fn stat_scan(ls: Seq<Seq<char>>) -> (CoreRaw, Seq<CoreRaw>)
    decreases ls.len(),
{
    if ls.len() == 0 {
        (CoreRaw { total: 0, idle: 0 }, Seq::empty())
    } else {
        let acc = stat_scan(ls.drop_last());
        let line = ls.last();
        let f = words(line);
        if !has_prefix(line, "cpu"@) || f.len() == 0 {
            acc
        } else {
            let core = core_from_fields(f);
            if f[0] == "cpu"@ {
                (core, acc.1)
            } else if core_name(f[0]) {
                (acc.0, acc.1.push(core))
            } else {
                acc
            }
        }
    }
}

fn core_from_fields_exec(f: &Vec<Vec<char>>) -> (r: CoreRaw)
    requires
        f.len() > 0,
    ensures
        r == core_from_fields(views(f@)),
{
    let ghost fv = views(f@);
    let n: usize = if f.len() - 1 < 8 {
        f.len() - 1
    } else {
        8
    };
    let mut vals: Vec<u64> = Vec::new();
    let mut k: usize = 0;
    while k < n
        invariant
            fv == views(f@),
            n <= 8,
            n + 1 <= f.len(),
            k <= n,
            vals@ == take_upto(fv.skip(1), 8).take(k as int).map_values(
                |w: Seq<char>| u64_or_zero(w),
            ),
            n == take_upto(fv.skip(1), 8).len(),
        decreases n - k,
    {
        let v = parse_u64_or_zero(&f[k + 1]);
        vals.push(v);
        proof {
            let t = take_upto(fv.skip(1), 8);
            assert(t[k as int] == fv[k + 1]);
            assert(t.take(k + 1).map_values(|w: Seq<char>| u64_or_zero(w)) =~= t.take(
                k as int,
            ).map_values(|w: Seq<char>| u64_or_zero(w)).push(u64_or_zero(fv[k + 1])));
        }
        k += 1;
    }
    proof {
        let t = take_upto(fv.skip(1), 8);
        assert(t.take(n as int) == t);
        assert(vals@ == stat_values(fv));
    }
    let a: u64 = if n > 3 {
        vals[3]
    } else {
        0
    };
    let b: u64 = if n > 4 {
        vals[4]
    } else {
        0
    };
    let idle = a.wrapping_add(b);
    let mut total: u64 = 0;
    let mut j: usize = 0;
    while j < vals.len()
        invariant
            j <= vals.len(),
            total == wrap_sum(vals@.take(j as int)),
        decreases vals.len() - j,
    {
        assert(vals@.take(j + 1).drop_last() == vals@.take(j as int));
        total = total.wrapping_add(vals[j]);
        j += 1;
    }
    assert(vals@.take(vals.len() as int) == vals@);
    CoreRaw { total, idle }
}

/// Parse the aggregate `cpu` line and every per-core `cpuN` line of
/// `/proc/stat`.
pub fn parse_stat(contents: &str) -> (r: (CoreRaw, Vec<CoreRaw>))
    ensures
        stat_scan(lines(contents@)) == (r.0, r.1@),
{
    let text = chars_of(contents);
    let ls = split_lines(&text);
    let ghost lv = views(ls@);
    let mut aggregate = CoreRaw { total: 0, idle: 0 };
    let mut cores: Vec<CoreRaw> = Vec::new();
    let mut i: usize = 0;
    while i < ls.len()
        invariant
            lv == views(ls@),
            lv == lines(contents@),
            i <= ls.len(),
            stat_scan(lv.take(i as int)) == (aggregate, cores@),
        decreases ls.len() - i,
    {
        assert(lv.take(i + 1).drop_last() == lv.take(i as int));
        let line = &ls[i];
        if starts_with_str(line, "cpu") {
            let f = split_words(line);
            if f.len() > 0 {
                let core = core_from_fields_exec(&f);
                if chars_eq_str(&f[0], "cpu") {
                    aggregate = core;
                } else if f[0].len() > 3 && all_digits_from(&f[0], 3) {
                    cores.push(core);
                }
            }
        }
        i += 1;
    }
    assert(lv.take(ls.len() as int) == lv);
    (aggregate, cores)
}

// ---------------------------------------------------------------------------
// Block-device capacities (/proc/partitions)
// ---------------------------------------------------------------------------

/// Device name to capacity in bytes. Inserting a name again replaces its
/// capacity.
pub struct Capacities {
    entries: Vec<(Vec<char>, u64)>,
}

pub open spec fn entries_map(s: Seq<(Seq<char>, u64)>) -> Map<Seq<char>, u64>
    decreases s.len(),
{
    if s.len() == 0 {
        Map::empty()
    } else {
        entries_map(s.drop_last()).insert(s.last().0, s.last().1)
    }
}

pub open spec fn entry_views(s: Seq<(Vec<char>, u64)>) -> Seq<(Seq<char>, u64)> {
    s.map_values(|e: (Vec<char>, u64)| (e.0@, e.1))
}

impl View for Capacities {
    type V = Map<Seq<char>, u64>;

    closed spec fn view(&self) -> Map<Seq<char>, u64> {
        entries_map(entry_views(self.entries@))
    }
}

/// Capacity recorded for `name`, 0 when unknown.
pub open spec fn cap_of(caps: Map<Seq<char>, u64>, name: Seq<char>) -> u64 {
    if caps.contains_key(name) {
        caps[name]
    } else {
        0
    }
}

proof fn lemma_entries_map_suffix(s: Seq<(Seq<char>, u64)>, i: int, k: Seq<char>)
    requires
        0 <= i <= s.len(),
        forall|j: int| i <= j < s.len() ==> s[j].0 != k,
    ensures
        entries_map(s).contains_key(k) == entries_map(s.take(i)).contains_key(k),
        entries_map(s).contains_key(k) ==> entries_map(s)[k] == entries_map(s.take(i))[k],
    decreases s.len() - i,
{
    if i < s.len() {
        assert(s.drop_last().take(i) == s.take(i));
        lemma_entries_map_suffix(s.drop_last(), i, k);
    } else {
        assert(s.take(i) == s);
    }
}

impl Capacities {
    pub fn new() -> (c: Self)
        ensures
            c@ == Map::<Seq<char>, u64>::empty(),
    {
        let c = Capacities { entries: Vec::new() };
        assert(entry_views(c.entries@) =~= Seq::empty());
        c
    }

    fn insert_chars(&mut self, name: Vec<char>, bytes: u64)
        ensures
            final(self)@ == old(self)@.insert(name@, bytes),
    {
        let ghost before = entry_views(self.entries@);
        self.entries.push((name, bytes));
        assert(entry_views(self.entries@) =~= before.push((name@, bytes)));
        assert(entry_views(self.entries@).drop_last() == before);
    }

    /// Record `bytes` as the capacity of `name`.
    pub fn insert(&mut self, name: String, bytes: u64)
        ensures
            final(self)@ == old(self)@.insert(name@, bytes),
    {
        let v = chars_of(name.as_str());
        self.insert_chars(v, bytes);
    }

    fn lookup(&self, name: &Vec<char>) -> (r: Option<u64>)
        ensures
            match r {
                Some(v) => self@.contains_key(name@) && self@[name@] == v,
                None => !self@.contains_key(name@),
            },
    {
        let ghost ev = entry_views(self.entries@);
        let mut i: usize = self.entries.len();
        while i > 0
            invariant
                ev == entry_views(self.entries@),
                i <= self.entries.len(),
                forall|j: int| i <= j < ev.len() ==> ev[j].0 != name@,
            decreases i,
        {
            if same_chars(&self.entries[i - 1].0, name) {
                proof {
                    lemma_entries_map_suffix(ev, i as int, name@);
                    assert(ev.take(i as int).drop_last() == ev.take(i - 1));
                    assert(ev.take(i as int).last() == ev[i - 1]);
                }
                return Some(self.entries[i - 1].1);
            }
            i -= 1;
        }
        proof {
            lemma_entries_map_suffix(ev, 0, name@);
            assert(ev.take(0) == Seq::<(Seq<char>, u64)>::empty());
        }
        None
    }

    /// Capacity recorded for `name`.
    pub fn get(&self, name: &str) -> (r: Option<u64>)
        ensures
            match r {
                Some(v) => self@.contains_key(name@) && self@[name@] == v,
                None => !self@.contains_key(name@),
            },
    {
        self.lookup(&chars_of(name))
    }

    /// Capacity recorded for `name`, 0 when unknown.
    pub fn capacity_of(&self, name: &Vec<char>) -> (r: u64)
        ensures
            r == cap_of(self@, name@),
    {
        match self.lookup(name) {
            Some(v) => v,
            None => 0,
        }
    }
}

pub open spec fn sat_mul(a: u64, b: u64) -> u64 {
    if a * b > u64::MAX {
        u64::MAX
    } else {
        (a * b) as u64
    }
}

/// `/proc/partitions`: lines `major minor #blocks name` with 1 KiB blocks;
/// lines with fewer than four fields or zero blocks (the header) are skipped,
/// a later line for a name replaces an earlier one.
pub open spec fn partitions_scan(ls: Seq<Seq<char>>) -> Map<Seq<char>, u64>
    decreases ls.len(),
{
    if ls.len() == 0 {
        Map::empty()
    } else {
        let m = partitions_scan(ls.drop_last());
        let f = words(ls.last());
        if f.len() < 4 || u64_or_zero(f[2]) == 0 {
            m
        } else {
            m.insert(f[3], sat_mul(u64_or_zero(f[2]), 1024))
        }
    }
}

/// Parse `/proc/partitions` into name → capacity in bytes.
pub fn parse_partitions(contents: &str) -> (r: Capacities)
    ensures
        r@ == partitions_scan(lines(contents@)),
{
    let text = chars_of(contents);
    let ls = split_lines(&text);
    let ghost lv = views(ls@);
    let mut map = Capacities::new();
    let mut i: usize = 0;
    while i < ls.len()
        invariant
            lv == views(ls@),
            lv == lines(contents@),
            i <= ls.len(),
            map@ == partitions_scan(lv.take(i as int)),
        decreases ls.len() - i,
    {
        assert(lv.take(i + 1).drop_last() == lv.take(i as int));
        let mut f = split_words(&ls[i]);
        if f.len() >= 4 {
            let blocks = parse_u64_or_zero(&f[2]);
            if blocks != 0 {
                let bytes: u64 = match blocks.checked_mul(1024) {
                    Some(b) => b,
                    None => u64::MAX,
                };
                let ghost fv = views(f@);
                let name = f.swap_remove(3);
                assert(name@ == fv[3]);
                map.insert_chars(name, bytes);
            }
        }
        i += 1;
    }
    assert(lv.take(ls.len() as int) == lv);
    map
}

// ---------------------------------------------------------------------------
// /proc/diskstats
// ---------------------------------------------------------------------------

/// The fields of the `/proc/diskstats` lines that describe a device: at
/// least 14 fields, and a name that is not an ignored virtual device.
pub open spec fn disk_lines(ls: Seq<Seq<char>>) -> Seq<Seq<Seq<char>>>
    decreases ls.len(),
{
    if ls.len() == 0 {
        Seq::empty()
    } else {
        let prev = disk_lines(ls.drop_last());
        let f = words(ls.last());
        if f.len() >= 14 && !ignored_virtual(f[2]) {
            prev.push(f)
        } else {
            prev
        }
    }
}

/// The device a `/proc/diskstats` line describes. Columns: 0 major, 1 minor,
/// 2 name, 3 reads completed, 5 sectors read, 6 ms reading, 7 writes
/// completed, 9 sectors written, 10 ms writing, 11 in flight, 12 ms doing
/// I/O, 13 weighted ms.
pub open spec fn disk_of(f: Seq<Seq<char>>, caps: Map<Seq<char>, u64>) -> DiskSpec {
    DiskSpec {
        name: f[2],
        sectors_read: field_u64(f, 5),
        sectors_written: field_u64(f, 9),
        reads_completed: field_u64(f, 3),
        writes_completed: field_u64(f, 7),
        time_read_ms: field_u64(f, 6),
        time_write_ms: field_u64(f, 10),
        ios_in_progress: field_u64(f, 11),
        io_time_ms: field_u64(f, 12),
        weighted_ms: field_u64(f, 13),
        capacity_bytes: cap_of(caps, f[2]),
    }
}

pub open spec fn disk_maker(caps: Map<Seq<char>, u64>) -> spec_fn(Seq<Seq<char>>) -> DiskSpec {
    |f: Seq<Seq<char>>| disk_of(f, caps)
}

pub open spec fn physical_line() -> spec_fn(Seq<Seq<char>>) -> bool {
    |f: Seq<Seq<char>>| physical_whole(f[2])
}

pub open spec fn virtual_line() -> spec_fn(Seq<Seq<char>>) -> bool {
    |f: Seq<Seq<char>>| virtual_whole(f[2])
}

/// Sectors read plus sectors written, saturating.
pub open spec fn disk_busy(f: Seq<Seq<char>>) -> u64 {
    field_u64(f, 5).saturating_add(field_u64(f, 9))
}

/// Sort key that puts the busiest device first.
pub open spec fn busiest_first(f: Seq<Seq<char>>) -> KeyView {
    ((u64::MAX - disk_busy(f)) as u64, 0u64, Seq::empty())
}

pub open spec fn busy_keys(all: Seq<Seq<Seq<char>>>) -> Seq<KeyView> {
    all.map_values(|f: Seq<Seq<char>>| busiest_first(f))
}

pub open spec fn disk_views(v: Seq<DiskRaw>) -> Seq<DiskSpec> {
    v.map_values(|d: DiskRaw| d@)
}

/// What `parse_diskstats` returns for the device lines `all`: the whole
/// physical disks in kernel order; failing those the whole virtual devices;
/// failing those the eight busiest devices, busiest first (stable).
pub open spec fn diskstats_choice(
    all: Seq<Seq<Seq<char>>>,
    caps: Map<Seq<char>, u64>,
    out: Seq<DiskSpec>,
) -> bool {
    let phys = all.filter(physical_line());
    let virt = all.filter(virtual_line());
    if phys.len() > 0 {
        out == phys.map_values(disk_maker(caps))
    } else if virt.len() > 0 {
        out == virt.map_values(disk_maker(caps))
    } else {
        out == take_upto(sorted_positions(busy_keys(all)), 8).map_values(
            |i: usize| disk_of(all[i as int], caps),
        )
    }
}

fn disk_from_fields(f: &Vec<Vec<char>>, capacities: &Capacities) -> (d: DiskRaw)
    requires
        f.len() >= 14,
    ensures
        d@ == disk_of(views(f@), capacities@),
{
    DiskRaw {
        name: string_of(&f[2]),
        sectors_read: num(f, 5),
        sectors_written: num(f, 9),
        reads_completed: num(f, 3),
        writes_completed: num(f, 7),
        time_read_ms: num(f, 6),
        time_write_ms: num(f, 10),
        ios_in_progress: num(f, 11),
        io_time_ms: num(f, 12),
        weighted_ms: num(f, 13),
        capacity_bytes: capacities.capacity_of(&f[2]),
    }
}

/// The devices of `all` whose name is a whole physical disk (`physical`) or
/// a whole virtual device (`!physical`), in order.
fn disks_where(all: &Vec<Vec<Vec<char>>>, capacities: &Capacities, physical: bool) -> (r: Vec<
    DiskRaw,
>)
    requires
        forall|i: int| 0 <= i < all.len() ==> (#[trigger] all@[i]).len() >= 14,
    ensures
        disk_views(r@) == views_of_lines(all@).filter(
            if physical {
                physical_line()
            } else {
                virtual_line()
            },
        ).map_values(disk_maker(capacities@)),
{
    let ghost pred = if physical {
        physical_line()
    } else {
        virtual_line()
    };
    let ghost av = views_of_lines(all@);
    let mut out: Vec<DiskRaw> = Vec::new();
    let mut i: usize = 0;
    while i < all.len()
        invariant
            av == views_of_lines(all@),
            pred == (if physical {
                physical_line()
            } else {
                virtual_line()
            }),
            forall|i: int| 0 <= i < all.len() ==> (#[trigger] all@[i]).len() >= 14,
            i <= all.len(),
            disk_views(out@) == av.take(i as int).filter(pred).map_values(disk_maker(capacities@)),
        decreases all.len() - i,
    {
        let f = &all[i];
        let keep = if physical {
            physical_whole_chars(&f[2])
        } else {
            virtual_whole_chars(&f[2])
        };
        proof {
            reveal_with_fuel(Seq::filter, 1);
            assert(av.take(i + 1).drop_last() == av.take(i as int));
            assert(av[i as int] == views(f@));
            assert(keep == pred(av[i as int]));
        }
        if keep {
            let d = disk_from_fields(f, capacities);
            let ghost before = disk_views(out@);
            out.push(d);
            assert(disk_views(out@) =~= before.push(d@));
        }
        i += 1;
    }
    assert(av.take(all.len() as int) == av);
    out
}

pub open spec fn views_of_lines(v: Seq<Vec<Vec<char>>>) -> Seq<Seq<Seq<char>>> {
    v.map_values(|f: Vec<Vec<char>>| views(f@))
}

/// Parse `/proc/diskstats` (full counters). Device selection falls back in
/// three tiers so the list is never empty without reason: whole physical
/// disks, then whole virtual devices (LVM, RAID), then the eight busiest
/// devices.
pub fn parse_diskstats(contents: &str, capacities: &Capacities) -> (r: Vec<DiskRaw>)
    ensures
        diskstats_choice(disk_lines(lines(contents@)), capacities@, disk_views(r@)),
{
    let text = chars_of(contents);
    let ls = split_lines(&text);
    let ghost lv = views(ls@);
    let mut all: Vec<Vec<Vec<char>>> = Vec::new();
    let mut i: usize = 0;
    while i < ls.len()
        invariant
            lv == views(ls@),
            lv == lines(contents@),
            i <= ls.len(),
            views_of_lines(all@) == disk_lines(lv.take(i as int)),
            forall|i: int| 0 <= i < all.len() ==> (#[trigger] all@[i]).len() >= 14,
        decreases ls.len() - i,
    {
        assert(lv.take(i + 1).drop_last() == lv.take(i as int));
        let f = split_words(&ls[i]);
        if f.len() >= 14 && !ignored_virtual_chars(&f[2]) {
            let ghost before = views_of_lines(all@);
            all.push(f);
            assert(views_of_lines(all@) =~= before.push(views(f@)));
        }
        i += 1;
    }
    assert(lv.take(ls.len() as int) == lv);
    let ghost av = views_of_lines(all@);
    // Tier 1: whole physical disks, in kernel order.
    let physical = disks_where(&all, capacities, true);
    proof {
        assert(av == disk_lines(lines(contents@)));
        assert(disk_views(physical@).len() == physical@.len());
        assert(av.filter(physical_line()).map_values(disk_maker(capacities@)).len() == av.filter(
            physical_line(),
        ).len());
    }
    if physical.len() > 0 {
        return physical;
    }
    // Tier 2: whole virtual devices.
    let virtual_devs = disks_where(&all, capacities, false);
    proof {
        assert(disk_views(virtual_devs@).len() == virtual_devs@.len());
        assert(av.filter(virtual_line()).map_values(disk_maker(capacities@)).len() == av.filter(
            virtual_line(),
        ).len());
    }
    if virtual_devs.len() > 0 {
        return virtual_devs;
    }
    // Tier 3: the busiest devices, so the panel always has something to show.
    let mut keys: Vec<SortKey> = Vec::new();
    let mut k: usize = 0;
    while k < all.len()
        invariant
            av == views_of_lines(all@),
            forall|i: int| 0 <= i < all.len() ==> (#[trigger] all@[i]).len() >= 14,
            k <= all.len(),
            keys_view(keys@) == av.take(k as int).map_values(
                |f: Seq<Seq<char>>| busiest_first(f),
            ),
        decreases all.len() - k,
    {
        let busy = num(&all[k], 5).saturating_add(num(&all[k], 9));
        let ghost before = keys_view(keys@);
        keys.push(SortKey { rank: u64::MAX - busy, tie: 0, text: Vec::new() });
        proof {
            assert(av[k as int] == views(all@[k as int]@));
            assert(keys_view(keys@) =~= before.push(busiest_first(av[k as int])));
            assert(av.take(k + 1).map_values(|f: Seq<Seq<char>>| busiest_first(f)) =~= av.take(
                k as int,
            ).map_values(|f: Seq<Seq<char>>| busiest_first(f)).push(busiest_first(av[k as int])));
        }
        k += 1;
    }
    assert(av.take(all.len() as int) == av);
    let order = stable_order(&keys);
    let count: usize = if order.len() < 8 {
        order.len()
    } else {
        8
    };
    let mut rest: Vec<DiskRaw> = Vec::new();
    let mut j: usize = 0;
    while j < count
        invariant
            av == views_of_lines(all@),
            forall|i: int| 0 <= i < all.len() ==> (#[trigger] all@[i]).len() >= 14,
            is_stable_order(keys_view(keys@), order@),
            keys_view(keys@) == busy_keys(av),
            count == take_upto(order@, 8).len(),
            j <= count,
            disk_views(rest@) == take_upto(order@, 8).take(j as int).map_values(
                |i: usize| disk_of(av[i as int], capacities@),
            ),
        decreases count - j,
    {
        let idx = order[j];
        assert(order@[j as int] < keys_view(keys@).len());
        let d = disk_from_fields(&all[idx], capacities);
        let ghost before = disk_views(rest@);
        rest.push(d);
        proof {
            assert(take_upto(order@, 8)[j as int] == idx);
            assert(disk_views(rest@) =~= before.push(d@));
            assert(take_upto(order@, 8).take(j + 1).map_values(
                |i: usize| disk_of(av[i as int], capacities@),
            ) =~= take_upto(order@, 8).take(j as int).map_values(
                |i: usize| disk_of(av[i as int], capacities@),
            ).push(disk_of(av[idx as int], capacities@)));
        }
        j += 1;
    }
    assert(take_upto(order@, 8).take(count as int) == take_upto(order@, 8));
    rest
}

// ---------------------------------------------------------------------------
// /proc/net/dev
// ---------------------------------------------------------------------------

/// The interface a `/proc/net/dev` line describes: `name: counters`, with
/// 0 rx_bytes, 1 rx_packets, 2 rx_errs, 3 rx_drop, 8 tx_bytes, 9 tx_packets,
/// 10 tx_errs, 11 tx_drop among the counters.
pub open spec fn net_of(name: Seq<char>, f: Seq<u64>) -> NetSpec {
    NetSpec {
        name: name,
        rx_bytes: f[0],
        rx_packets: f[1],
        rx_errs: f[2],
        rx_drop: f[3],
        tx_bytes: f[8],
        tx_packets: f[9],
        tx_errs: f[10],
        tx_drop: f[11],
    }
}

pub open spec fn counters(s: Seq<char>) -> Seq<u64> {
    words(s).map_values(|w: Seq<char>| u64_or_zero(w))
}

/// Interfaces of `/proc/net/dev` in file order: lines without a colon (the
/// two headers), loopback, nameless lines and lines with fewer than 16
/// counters are skipped.
pub open spec fn net_scan(ls: Seq<Seq<char>>) -> Seq<NetSpec>
    decreases ls.len(),
{
    if ls.len() == 0 {
        Seq::empty()
    } else {
        let prev = net_scan(ls.drop_last());
        let l = ls.last();
        match first_index_of(l, ':') {
            None => prev,
            Some(c) => {
                let name = trim(l.take(c));
                let f = counters(l.skip(c + 1));
                if name.len() == 0 || name == "lo"@ || f.len() < 16 {
                    prev
                } else {
                    prev.push(net_of(name, f))
                }
            },
        }
    }
}

pub open spec fn net_views(v: Seq<NetRaw>) -> Seq<NetSpec> {
    v.map_values(|n: NetRaw| n@)
}

/// `s[from..to]` as a new vector.
pub fn slice_chars(s: &Vec<char>, from: usize, to: usize) -> (r: Vec<char>)
    requires
        from <= to <= s.len(),
    ensures
        r@ == s@.subrange(from as int, to as int),
{
    let mut r: Vec<char> = Vec::new();
    let mut i: usize = from;
    while i < to
        invariant
            from <= i <= to <= s.len(),
            r@ == s@.subrange(from as int, i as int),
        decreases to - i,
    {
        r.push(s[i]);
        assert(s@.subrange(from as int, i + 1) == s@.subrange(from as int, i as int).push(
            s@[i as int],
        ));
        i += 1;
    }
    r
}

fn counters_exec(s: &Vec<char>) -> (r: Vec<u64>)
    ensures
        r@ == counters(s@),
{
    let w = split_words(s);
    let ghost wv = views(w@);
    let mut r: Vec<u64> = Vec::new();
    let mut i: usize = 0;
    while i < w.len()
        invariant
            wv == views(w@),
            wv == words(s@),
            i <= w.len(),
            r@ == wv.take(i as int).map_values(|w: Seq<char>| u64_or_zero(w)),
        decreases w.len() - i,
    {
        let v = parse_u64_or_zero(&w[i]);
        r.push(v);
        assert(wv.take(i + 1).map_values(|w: Seq<char>| u64_or_zero(w)) =~= wv.take(
            i as int,
        ).map_values(|w: Seq<char>| u64_or_zero(w)).push(u64_or_zero(wv[i as int])));
        i += 1;
    }
    assert(wv.take(w.len() as int) == wv);
    r
}

/// Parse `/proc/net/dev` (full counters). Skips the two header lines (no
/// colon) and loopback, and keeps discovery order.
pub fn parse_net_dev(contents: &str) -> (r: Vec<NetRaw>)
    ensures
        net_views(r@) == net_scan(lines(contents@)),
{
    let text = chars_of(contents);
    let ls = split_lines(&text);
    let ghost lv = views(ls@);
    let mut nets: Vec<NetRaw> = Vec::new();
    let mut i: usize = 0;
    while i < ls.len()
        invariant
            lv == views(ls@),
            lv == lines(contents@),
            i <= ls.len(),
            net_views(nets@) == net_scan(lv.take(i as int)),
        decreases ls.len() - i,
    {
        assert(lv.take(i + 1).drop_last() == lv.take(i as int));
        let line = &ls[i];
        match find_char(line, ':') {
            None => {},
            Some(c) => {
                proof {
                    lemma_first_index_of_bounds(line@, ':');
                }
                let left = slice_chars(line, 0, c);
                let right = slice_chars(line, c + 1, line.len());
                assert(left@ == line@.take(c as int));
                assert(right@ == line@.skip(c + 1));
                let name = trim_chars(&left);
                let f = counters_exec(&right);
                if !(name.len() == 0 || chars_eq_str(&name, "lo") || f.len() < 16) {
                    let n = NetRaw {
                        name: string_of(&name),
                        rx_bytes: f[0],
                        tx_bytes: f[8],
                        rx_packets: f[1],
                        tx_packets: f[9],
                        rx_errs: f[2],
                        rx_drop: f[3],
                        tx_errs: f[10],
                        tx_drop: f[11],
                    };
                    let ghost before = net_views(nets@);
                    nets.push(n);
                    assert(net_views(nets@) =~= before.push(n@));
                }
            },
        }
        i += 1;
    }
    assert(lv.take(ls.len() as int) == lv);
    nets
}

// ---------------------------------------------------------------------------
// /proc/mounts
// ---------------------------------------------------------------------------

/// `str::replace(pat, rep)`: every occurrence of `pat`, scanning left to
/// right without overlap, replaced by `rep`.
pub open spec fn replace_all(s: Seq<char>, pat: Seq<char>, rep: Seq<char>) -> Seq<char>
    decreases s.len(),
{
    if s.len() == 0 {
        Seq::empty()
    } else if pat.len() > 0 && has_prefix(s, pat) {
        rep + replace_all(s.skip(pat.len() as int), pat, rep)
    } else {
        seq![s[0]] + replace_all(s.drop_first(), pat, rep)
    }
}

/// `/proc/mounts` escapes spaces as `\040`, tabs as `\011`, newlines as
/// `\012` and backslashes as `\\`.
pub open spec fn unescape(s: Seq<char>) -> Seq<char> {
    replace_all(
        replace_all(replace_all(replace_all(s, "\\040"@, " "@), "\\011"@, "\t"@), "\\012"@, "\n"@),
        "\\\\"@,
        "\\"@,
    )
}

fn replace_chars(s: &Vec<char>, pat: &Vec<char>, rep: &Vec<char>) -> (r: Vec<char>)
    requires
        pat.len() > 0,
    ensures
        r@ == replace_all(s@, pat@, rep@),
{
    let mut out: Vec<char> = Vec::new();
    let mut i: usize = 0;
    assert(s@.skip(0) == s@);
    while i < s.len()
        invariant
            pat.len() > 0,
            i <= s.len(),
            out@ + replace_all(s@.skip(i as int), pat@, rep@) == replace_all(s@, pat@, rep@),
        decreases s.len() - i,
    {
        let ghost rest = s@.skip(i as int);
        if matches_at(s, pat, i) {
            proof {
                assert(rest.take(pat.len() as int) == s@.subrange(i as int, i + pat.len()));
                assert(rest.skip(pat.len() as int) == s@.skip(i + pat.len()));
            }
            let ghost o = out@;
            push_all(&mut out, rep);
            assert(o + (rep@ + replace_all(rest.skip(pat.len() as int), pat@, rep@)) == (o + rep@)
                + replace_all(s@.skip(i + pat.len()), pat@, rep@));
            i = i + pat.len();
        } else {
            proof {
                if has_prefix(rest, pat@) {
                    assert(rest.take(pat.len() as int) == s@.subrange(i as int, i + pat.len()));
                }
                assert(rest.drop_first() == s@.skip(i + 1));
                assert(rest[0] == s@[i as int]);
            }
            let ghost o = out@;
            out.push(s[i]);
            assert(o + (seq![s@[i as int]] + replace_all(s@.skip(i + 1), pat@, rep@)) == o.push(
                s@[i as int],
            ) + replace_all(s@.skip(i + 1), pat@, rep@));
            i += 1;
        }
    }
    assert(s@.skip(s.len() as int) == Seq::<char>::empty());
    assert(out@ + Seq::<char>::empty() == out@);
    out
}

fn replace_str(s: &Vec<char>, pat: &str, rep: &str) -> (r: Vec<char>)
    requires
        pat@.len() > 0,
    ensures
        r@ == replace_all(s@, pat@, rep@),
{
    replace_chars(s, &chars_of(pat), &chars_of(rep))
}

fn unescape_chars(s: &Vec<char>) -> (r: Vec<char>)
    ensures
        r@ == unescape(s@),
{
    proof {
        reveal_strlit("\\040");
        reveal_strlit("\\011");
        reveal_strlit("\\012");
        reveal_strlit("\\\\");
    }
    let a = replace_str(s, "\\040", " ");
    let b = replace_str(&a, "\\011", "\t");
    let c = replace_str(&b, "\\012", "\n");
    replace_str(&c, "\\\\", "\\")
}

/// `/proc/mounts` escapes spaces as `\040` (and tabs, newlines, backslashes
/// similarly); undo those escapes.
pub fn unescape_mount(value: &str) -> (r: String)
    ensures
        r@ == unescape(value@),
{
    string_of(&unescape_chars(&chars_of(value)))
}

/// Filesystem types backed by a real block device.
pub open spec fn real_fstype(t: Seq<char>) -> bool {
    ||| t == "btrfs"@
    ||| t == "ext2"@
    ||| t == "ext3"@
    ||| t == "ext4"@
    ||| t == "xfs"@
    ||| t == "vfat"@
    ||| t == "exfat"@
    ||| t == "ntfs"@
    ||| t == "ntfs3"@
    ||| t == "f2fs"@
    ||| t == "jfs"@
    ||| t == "reiserfs"@
    ||| t == "zfs"@
    ||| t == "bcachefs"@
    ||| t == "hfsplus"@
    ||| t == "apfs"@
    ||| t == "nilfs2"@
    ||| t == "ufs"@
}

fn real_fstype_chars(t: &Vec<char>) -> (r: bool)
    ensures
        r == real_fstype(t@),
{
    chars_eq_str(t, "btrfs") || chars_eq_str(t, "ext2") || chars_eq_str(t, "ext3")
        || chars_eq_str(t, "ext4") || chars_eq_str(t, "xfs") || chars_eq_str(t, "vfat")
        || chars_eq_str(t, "exfat") || chars_eq_str(t, "ntfs") || chars_eq_str(t, "ntfs3")
        || chars_eq_str(t, "f2fs") || chars_eq_str(t, "jfs") || chars_eq_str(t, "reiserfs")
        || chars_eq_str(t, "zfs") || chars_eq_str(t, "bcachefs") || chars_eq_str(t, "hfsplus")
        || chars_eq_str(t, "apfs") || chars_eq_str(t, "nilfs2") || chars_eq_str(t, "ufs")
}

/// Whether `fstype` is a filesystem backed by a real block device.
pub fn is_real_fstype(fstype: &str) -> (r: bool)
    ensures
        r == real_fstype(fstype@),
{
    real_fstype_chars(&chars_of(fstype))
}

/// The last path component of a device path (`/dev/sda3` → `sda3`).
pub open spec fn base_name(device: Seq<char>) -> Seq<char> {
    match last_index_of(device, '/') {
        Some(i) => device.skip(i + 1),
        None => device,
    }
}

/// Block-backed filesystems of `/proc/mounts`, in file order: the source is
/// under `/dev/` and the type is a real filesystem; a (device, mountpoint)
/// pair already kept is not kept again. The pair is compared with the
/// mountpoint as it stands in the file against the kept, unescaped one.
pub open spec fn mount_scan(ls: Seq<Seq<char>>, caps: Map<Seq<char>, u64>) -> Seq<MountSpec>
    decreases ls.len(),
{
    if ls.len() == 0 {
        Seq::empty()
    } else {
        let prev = mount_scan(ls.drop_last(), caps);
        let f = words(ls.last());
        if f.len() < 3 || !has_prefix(f[0], "/dev/"@) || !real_fstype(f[2]) {
            prev
        } else if exists|j: int|
            0 <= j < prev.len() && (#[trigger] prev[j]).device == f[0] && prev[j].mountpoint
                == f[1] {
            prev
        } else {
            prev.push(
                MountSpec {
                    device: f[0],
                    mountpoint: unescape(f[1]),
                    fstype: f[2],
                    size_bytes: cap_of(caps, base_name(f[0])),
                },
            )
        }
    }
}

pub open spec fn mount_keys(m: Seq<MountSpec>) -> Seq<KeyView> {
    m.map_values(|x: MountSpec| (0u64, 0u64, x.mountpoint))
}

pub open spec fn mount_views(v: Seq<MountRaw>) -> Seq<MountSpec> {
    v.map_values(|m: MountRaw| m@)
}

/// The kept filesystems sorted by mountpoint (stable).
pub open spec fn mounts_sorted(found: Seq<MountSpec>) -> Seq<MountSpec> {
    sorted_positions(mount_keys(found)).map_values(|i: usize| found[i as int])
}

struct MountParts {
    device: Vec<char>,
    mountpoint: Vec<char>,
    fstype: Vec<char>,
    size_bytes: u64,
}

spec fn parts_view(m: MountParts) -> MountSpec {
    MountSpec {
        device: m.device@,
        mountpoint: m.mountpoint@,
        fstype: m.fstype@,
        size_bytes: m.size_bytes,
    }
}

spec fn parts_views(v: Seq<MountParts>) -> Seq<MountSpec> {
    v.map_values(|m: MountParts| parts_view(m))
}

fn already_kept(found: &Vec<MountParts>, device: &Vec<char>, mountpoint: &Vec<char>) -> (r: bool)
    ensures
        r == exists|j: int|
            0 <= j < parts_views(found@).len() && (#[trigger] parts_views(found@)[j]).device
                == device@ && parts_views(found@)[j].mountpoint == mountpoint@,
{
    let mut j: usize = 0;
    while j < found.len()
        invariant
            j <= found.len(),
            forall|k: int|
                0 <= k < j ==> !((#[trigger] parts_views(found@)[k]).device == device@
                    && parts_views(found@)[k].mountpoint == mountpoint@),
        decreases found.len() - j,
    {
        if same_chars(&found[j].device, device) && same_chars(&found[j].mountpoint, mountpoint) {
            assert(parts_views(found@)[j as int] == parts_view(found@[j as int]));
            return true;
        }
        assert(parts_views(found@)[j as int] == parts_view(found@[j as int]));
        j += 1;
    }
    false
}

fn base_name_chars(device: &Vec<char>) -> (r: Vec<char>)
    ensures
        r@ == base_name(device@),
{
    match rfind_char(device, '/') {
        Some(i) => {
            proof {
                lemma_last_index_of_bounds(device@, '/');
            }
            let n = device.len();
            slice_chars(device, i + 1, n)
        },
        None => slice_chars(device, 0, device.len()),
    }
}

/// Parse `/proc/mounts`, keeping real block-backed filesystems only (source
/// under `/dev/`, physical filesystem type), one row per (device,
/// mountpoint), sorted by mountpoint.
pub fn parse_mounts(contents: &str, capacities: &Capacities) -> (r: Vec<MountRaw>)
    ensures
        mount_views(r@) == mounts_sorted(mount_scan(lines(contents@), capacities@)),
{
    let text = chars_of(contents);
    let ls = split_lines(&text);
    let ghost lv = views(ls@);
    let mut found: Vec<MountParts> = Vec::new();
    let mut i: usize = 0;
    while i < ls.len()
        invariant
            lv == views(ls@),
            lv == lines(contents@),
            i <= ls.len(),
            parts_views(found@) == mount_scan(lv.take(i as int), capacities@),
        decreases ls.len() - i,
    {
        assert(lv.take(i + 1).drop_last() == lv.take(i as int));
        let mut f = split_words(&ls[i]);
        let ghost fv = views(f@);
        if f.len() >= 3 && starts_with_str(&f[0], "/dev/") && real_fstype_chars(&f[2]) {
            if !already_kept(&found, &f[0], &f[1]) {
                let base = base_name_chars(&f[0]);
                let size = capacities.capacity_of(&base);
                let mountpoint = unescape_chars(&f[1]);
                let fstype = f.swap_remove(2);
                let ghost after_first = f@;
                let raw_point = f.swap_remove(1);
                let device = f.swap_remove(0);
                assert(fstype@ == fv[2]);
                assert(device@ == fv[0]);
                let part = MountParts { device, mountpoint, fstype, size_bytes: size };
                let ghost before = parts_views(found@);
                found.push(part);
                assert(parts_views(found@) =~= before.push(parts_view(part)));
            }
        }
        i += 1;
    }
    assert(lv.take(ls.len() as int) == lv);
    let ghost fv = parts_views(found@);
    let mut keys: Vec<SortKey> = Vec::new();
    let mut k: usize = 0;
    while k < found.len()
        invariant
            fv == parts_views(found@),
            k <= found.len(),
            keys_view(keys@) == mount_keys(fv.take(k as int)),
        decreases found.len() - k,
    {
        let text = slice_chars(&found[k].mountpoint, 0, found[k].mountpoint.len());
        let ghost before = keys_view(keys@);
        keys.push(SortKey { rank: 0, tie: 0, text });
        proof {
            assert(fv[k as int] == parts_view(found@[k as int]));
            assert(found@[k as int].mountpoint@.subrange(0, found@[k as int].mountpoint@.len() as int)
                == found@[k as int].mountpoint@);
            assert(keys_view(keys@) =~= before.push((0u64, 0u64, fv[k as int].mountpoint)));
            assert(mount_keys(fv.take(k + 1)) =~= mount_keys(fv.take(k as int)).push(
                (0u64, 0u64, fv[k as int].mountpoint),
            ));
        }
        k += 1;
    }
    assert(fv.take(found.len() as int) == fv);
    let order = stable_order(&keys);
    let mut out: Vec<MountRaw> = Vec::new();
    let mut j: usize = 0;
    while j < order.len()
        invariant
            fv == parts_views(found@),
            is_stable_order(keys_view(keys@), order@),
            keys_view(keys@) == mount_keys(fv),
            j <= order.len(),
            mount_views(out@) == order@.take(j as int).map_values(|i: usize| fv[i as int]),
        decreases order.len() - j,
    {
        let idx = order[j];
        assert(order@[j as int] < keys_view(keys@).len());
        let part = &found[idx];
        let m = MountRaw {
            device: string_of(&part.device),
            mountpoint: string_of(&part.mountpoint),
            fstype: string_of(&part.fstype),
            size_bytes: part.size_bytes,
        };
        let ghost before = mount_views(out@);
        out.push(m);
        proof {
            assert(fv[idx as int] == parts_view(found@[idx as int]));
            assert(mount_views(out@) =~= before.push(m@));
            assert(order@.take(j + 1).map_values(|i: usize| fv[i as int]) =~= order@.take(
                j as int,
            ).map_values(|i: usize| fv[i as int]).push(fv[idx as int]));
        }
        j += 1;
    }
    assert(order@.take(order.len() as int) == order@);
    out
}

// ---------------------------------------------------------------------------
// /proc/<pid>/stat and /proc/<pid>/status
// ---------------------------------------------------------------------------

/// The thread-group id of a `/proc/<pid>/status` text: the second field of
/// the first `Tgid:` line read as an `i32`, -1 when that fails.
pub open spec fn tgid_scan(ls: Seq<Seq<char>>) -> i32
    decreases ls.len(),
{
    if ls.len() == 0 {
        -1i32
    } else if has_prefix(ls[0], "Tgid:"@) {
        let w = words(ls[0]);
        if w.len() > 1 {
            match parse_i32_spec(w[1]) {
                Some(v) => v,
                None => -1i32,
            }
        } else {
            -1i32
        }
    } else {
        tgid_scan(ls.drop_first())
    }
}

/// Thread-group id from `/proc/<pid>/status`, -1 when it cannot be read.
pub fn parse_tgid(status: &str) -> (r: i32)
    ensures
        r == tgid_scan(lines(status@)),
{
    let text = chars_of(status);
    let ls = split_lines(&text);
    let ghost lv = views(ls@);
    let mut i: usize = 0;
    assert(lv.skip(0) == lv);
    while i < ls.len()
        invariant
            lv == views(ls@),
            lv == lines(status@),
            i <= ls.len(),
            tgid_scan(lv) == tgid_scan(lv.skip(i as int)),
        decreases ls.len() - i,
    {
        assert(lv.skip(i as int)[0] == lv[i as int]);
        if starts_with_str(&ls[i], "Tgid:") {
            let w = split_words(&ls[i]);
            if w.len() > 1 {
                return match parse_i32(&w[1]) {
                    Some(v) => v,
                    None => -1,
                };
            } else {
                return -1;
            }
        }
        assert(lv.skip(i as int).drop_first() == lv.skip(i + 1));
        i += 1;
    }
    -1
}

/// The fields of a `/proc/<pid>/stat` line. The command name is the text
/// between the first `(` and the last `)` (it may hold spaces and
/// parentheses); of the fields after it, 0 is the state, 11 utime, 12 stime,
/// 17 threads and 21 rss (pages). The pid is left 0.
pub open spec fn proc_stat_spec(line: Seq<char>) -> Option<ProcSpec> {
    match (first_index_of(line, '('), last_index_of(line, ')')) {
        (Some(open), Some(close)) => {
            if close <= open {
                None
            } else {
                let rest = words(line.skip(close + 1));
                Some(
                    ProcSpec {
                        pid: 0,
                        name: line.subrange(open + 1, close),
                        state: if rest.len() > 0 {
                            rest[0][0]
                        } else {
                            '?'
                        },
                        utime: field_u64(rest, 11),
                        stime: field_u64(rest, 12),
                        rss_pages: field_u64(rest, 21),
                        threads: field_u64(rest, 17),
                    },
                )
            }
        },
        _ => None,
    }
}

proof fn lemma_words_nonempty(s: Seq<char>)
    ensures
        forall|i: int| 0 <= i < words(s).len() ==> (#[trigger] words(s)[i]).len() > 0,
{
    lemma_word_scan_nonempty(s);
}

proof fn lemma_word_scan_nonempty(s: Seq<char>)
    ensures
        forall|i: int| 0 <= i < word_scan(s).0.len() ==> (#[trigger] word_scan(s).0[i]).len() > 0,
    decreases s.len(),
{
    if s.len() > 0 {
        lemma_word_scan_nonempty(s.drop_last());
        let prev = word_scan(s.drop_last());
        assert forall|i: int| 0 <= i < word_scan(s).0.len() implies (#[trigger] word_scan(
            s,
        ).0[i]).len() > 0 by {
            if i < prev.0.len() {
                assert(word_scan(s).0[i] == prev.0[i]);
            }
        }
    }
}

/// Parse a `/proc/<pid>/stat` line; `None` without a `(` before a `)`.
pub fn parse_proc_stat_line(line: &str) -> (r: Option<ProcRaw>)
    ensures
        match r {
            Some(p) => proc_stat_spec(line@) == Some(p@),
            None => proc_stat_spec(line@) is None,
        },
{
    let l = chars_of(line);
    let open = match find_char(&l, '(') {
        Some(i) => i,
        None => return None,
    };
    let close = match rfind_char(&l, ')') {
        Some(i) => i,
        None => return None,
    };
    if close <= open {
        return None;
    }
    proof {
        lemma_first_index_of_bounds(l@, '(');
        lemma_last_index_of_bounds(l@, ')');
        lemma_words_nonempty(l@.skip(close + 1));
    }
    let name = slice_chars(&l, open + 1, close);
    let tail = slice_chars(&l, close + 1, l.len());
    assert(tail@ == l@.skip(close + 1));
    let rest = split_words(&tail);
    let state = if rest.len() > 0 {
        assert(views(rest@)[0] == rest@[0]@);
        rest[0][0]
    } else {
        '?'
    };
    Some(
        ProcRaw {
            pid: 0,
            name: string_of(&name),
            state,
            utime: num(&rest, 11),
            stime: num(&rest, 12),
            rss_pages: num(&rest, 21),
            threads: num(&rest, 17),
        },
    )
}

/// The directory name of a `/proc` entry read as a pid.
pub fn parse_pid(name: &str) -> (r: Option<i32>)
    ensures
        r == parse_i32_spec(name@),
{
    parse_i32(&chars_of(name))
}

/// The process listed under pid `pid`, from its `stat` and `status` texts:
/// `None` when the stat line does not parse or the pid is a thread of
/// another process (its thread-group id differs).
pub open spec fn process_spec(pid: i32, stat: Seq<char>, status: Seq<char>) -> Option<ProcSpec> {
    match proc_stat_spec(stat) {
        None => None,
        Some(p) => {
            if tgid_scan(lines(status)) != pid {
                None
            } else {
                Some(ProcSpec { pid: pid, ..p })
            }
        },
    }
}

/// The process-group leader under pid `pid`, from the texts of its `stat`
/// and `status` files; `None` for threads and unparsable entries.
pub fn process_from(pid: i32, stat: &str, status: &str) -> (r: Option<ProcRaw>)
    ensures
        match r {
            Some(p) => process_spec(pid, stat@, status@) == Some(p@),
            None => process_spec(pid, stat@, status@) is None,
        },
{
    let parsed = match parse_proc_stat_line(stat) {
        Some(p) => p,
        None => return None,
    };
    let tgid = parse_tgid(status);
    if tgid != pid {
        return None;
    }
    Some(ProcRaw { pid, ..parsed })
}

} // verus!
