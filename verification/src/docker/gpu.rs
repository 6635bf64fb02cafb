//! GPU information read from the text that `nvidia-smi` or `rocm-smi`
//! prints. Running those tools is left to the caller.
use vstd::prelude::*;

use crate::docker::host::kb_field;
use crate::text::{
    chars_of, contains_seq, contains_str, decimal, has_prefix, lines, parse_u64_or_zero, pieces,
    push_decimal, push_str, split_lines, split_on, split_words, starts_with_str, string_from,
    string_of, trim, trim_chars, u64_or_zero, views,
};

verus! {

#[derive(Clone, Debug, Default)]
pub struct GpuInfo {
    pub present: bool,
    pub vendor: String,
    pub gpus: Vec<GpuDevice>,
}

#[derive(Clone, Debug)]
pub struct GpuDevice {
    pub index: usize,
    pub name: String,
    pub utilization: u64,
    pub memory_used_mb: u64,
    pub memory_total_mb: u64,
}

/// What a `GpuDevice` holds, its name as characters.
pub struct GpuSpec {
    pub index: usize,
    pub name: Seq<char>,
    pub utilization: u64,
    pub memory_used_mb: u64,
    pub memory_total_mb: u64,
}

impl View for GpuDevice {
    type V = GpuSpec;

    open spec fn view(&self) -> GpuSpec {
        GpuSpec {
            index: self.index,
            name: self.name@,
            utilization: self.utilization,
            memory_used_mb: self.memory_used_mb,
            memory_total_mb: self.memory_total_mb,
        }
    }
}

pub open spec fn gpu_views(v: Seq<GpuDevice>) -> Seq<GpuSpec> {
    v.map_values(|g: GpuDevice| g@)
}

/// Memory used over the devices, summed in `u64` arithmetic that wraps
/// around on overflow (as a release build adds).
pub open spec fn used_sum(v: Seq<GpuDevice>) -> u64
    decreases v.len(),
{
    if v.len() == 0 {
        0
    } else {
        vstd::wrapping::u64_specs::wrapping_add(used_sum(v.drop_last()), v.last().memory_used_mb)
    }
}

/// Memory available over the devices, summed like `used_sum`.
pub open spec fn total_sum(v: Seq<GpuDevice>) -> u64
    decreases v.len(),
{
    if v.len() == 0 {
        0
    } else {
        vstd::wrapping::u64_specs::wrapping_add(total_sum(v.drop_last()), v.last().memory_total_mb)
    }
}

/// `{used} MiB / {total} MiB` over all GPUs, `—` when no memory is known.
pub open spec fn memory_summary_text(v: Seq<GpuDevice>) -> Seq<char> {
    if total_sum(v) == 0 {
        "—"@
    } else {
        decimal(used_sum(v) as nat) + " MiB / "@ + decimal(total_sum(v) as nat) + " MiB"@
    }
}

impl GpuInfo {
    /// No GPU: not present, no vendor, no devices.
    pub fn none() -> (g: Self)
        ensures
            !g.present,
            g.vendor@ == Seq::<char>::empty(),
            g.gpus@.len() == 0,
    {
        GpuInfo { present: false, vendor: String::new(), gpus: Vec::new() }
    }

    pub fn is_present(&self) -> (r: bool)
        ensures
            r == self.present,
    {
        self.present
    }

    /// Memory used and available over all GPUs.
    pub fn memory_summary(&self) -> (r: String)
        ensures
            r@ == memory_summary_text(self.gpus@),
    {
        let mut used: u64 = 0;
        let mut total: u64 = 0;
        let mut i: usize = 0;
        while i < self.gpus.len()
            invariant
                i <= self.gpus.len(),
                used == used_sum(self.gpus@.take(i as int)),
                total == total_sum(self.gpus@.take(i as int)),
            decreases self.gpus.len() - i,
        {
            assert(self.gpus@.take(i + 1).drop_last() == self.gpus@.take(i as int));
            used = used.wrapping_add(self.gpus[i].memory_used_mb);
            total = total.wrapping_add(self.gpus[i].memory_total_mb);
            i += 1;
        }
        assert(self.gpus@.take(self.gpus.len() as int) == self.gpus@);
        if total == 0 {
            string_from("—")
        } else {
            let mut v: Vec<char> = Vec::new();
            push_decimal(&mut v, used);
            push_str(&mut v, " MiB / ");
            push_decimal(&mut v, total);
            push_str(&mut v, " MiB");
            string_of(&v)
        }
    }
}

/// The GPUs found: those NVIDIA reports, else those AMD reports, else none.
pub fn detect_gpus(nvidia: Option<GpuInfo>, amd: Option<GpuInfo>) -> (r: GpuInfo)
    ensures
        match (nvidia, amd) {
            (Some(n), _) => r == n,
            (None, Some(a)) => r == a,
            (None, None) => !r.present && r.vendor@.len() == 0 && r.gpus@.len() == 0,
        },
{
    match nvidia {
        Some(info) => info,
        None => match amd {
            Some(info) => info,
            None => GpuInfo::none(),
        },
    }
}

/// The second whitespace-separated field of `line` as a number of MiB, 0
/// when missing or not a number.
pub fn parse_mb(line: &str) -> (r: u64)
    ensures
        r == kb_field(line@),
{
    crate::docker::host::parse_kb(line)
}

// ---------------------------------------------------------------------------
// nvidia-smi --query-gpu=index,name,utilization.gpu,memory.used,memory.total
//            --format=csv,noheader,nounits
// ---------------------------------------------------------------------------

pub open spec fn nonblank() -> spec_fn(Seq<char>) -> bool {
    |l: Seq<char>| trim(l).len() > 0
}

/// The comma-separated fields of a CSV line, each trimmed.
pub open spec fn csv_fields(line: Seq<char>) -> Seq<Seq<char>> {
    pieces(line, ',').map_values(|p: Seq<char>| trim(p))
}

/// The GPUs of the non-blank CSV lines `ls`: a GPU's index is the position
/// of its line among the non-blank lines; lines of fewer than five fields
/// are skipped.
pub open spec fn nvidia_scan(ls: Seq<Seq<char>>) -> Seq<GpuSpec>
    decreases ls.len(),
{
    if ls.len() == 0 {
        Seq::empty()
    } else {
        let prev = nvidia_scan(ls.drop_last());
        let f = csv_fields(ls.last());
        if f.len() < 5 {
            prev
        } else {
            prev.push(
                GpuSpec {
                    index: (ls.len() - 1) as usize,
                    name: f[1],
                    utilization: u64_or_zero(f[2]),
                    memory_used_mb: u64_or_zero(f[3]),
                    memory_total_mb: u64_or_zero(f[4]),
                },
            )
        }
    }
}

pub open spec fn nvidia_devices(text: Seq<char>) -> Seq<GpuSpec> {
    nvidia_scan(lines(text).filter(nonblank()))
}

fn csv_fields_exec(line: &Vec<char>) -> (r: Vec<Vec<char>>)
    ensures
        views(r@) == csv_fields(line@),
{
    let raw = split_on(line, ',');
    let ghost rv = views(raw@);
    let mut out: Vec<Vec<char>> = Vec::new();
    let mut i: usize = 0;
    while i < raw.len()
        invariant
            rv == views(raw@),
            rv == pieces(line@, ','),
            i <= raw.len(),
            views(out@) == rv.take(i as int).map_values(|p: Seq<char>| trim(p)),
        decreases raw.len() - i,
    {
        let t = trim_chars(&raw[i]);
        let ghost before = views(out@);
        out.push(t);
        proof {
            assert(views(out@) =~= before.push(t@));
            assert(rv.take(i + 1).map_values(|p: Seq<char>| trim(p)) =~= rv.take(
                i as int,
            ).map_values(|p: Seq<char>| trim(p)).push(trim(rv[i as int])));
        }
        i += 1;
    }
    assert(rv.take(raw.len() as int) == rv);
    out
}

/// The GPUs `nvidia-smi` lists in `text` (CSV without header or units):
/// `None` when it lists none.
pub fn parse_nvidia_smi(text: &str) -> (r: Option<GpuInfo>)
    ensures
        match r {
            Some(g) => g.present && g.vendor@ == "NVIDIA"@ && gpu_views(g.gpus@) == nvidia_devices(
                text@,
            ) && g.gpus@.len() > 0,
            None => nvidia_devices(text@).len() == 0,
        },
{
    let ls = split_lines(&chars_of(text));
    let ghost lv = views(ls@);
    let mut gpus: Vec<GpuDevice> = Vec::new();
    let mut index: usize = 0;
    let mut i: usize = 0;
    while i < ls.len()
        invariant
            lv == views(ls@),
            lv == lines(text@),
            i <= ls.len(),
            index == lv.take(i as int).filter(nonblank()).len(),
            index <= i,
            gpu_views(gpus@) == nvidia_scan(lv.take(i as int).filter(nonblank())),
        decreases ls.len() - i,
    {
        proof {
            reveal_with_fuel(Seq::filter, 1);
            assert(lv.take(i + 1).drop_last() == lv.take(i as int));
            assert(lv.take(i + 1).last() == lv[i as int]);
        }
        let line = &ls[i];
        let t = trim_chars(line);
        if t.len() > 0 {
            let ghost kept = lv.take(i as int).filter(nonblank());
            assert(lv.take(i + 1).filter(nonblank()) == kept.push(lv[i as int]));
            assert(kept.push(lv[i as int]).drop_last() == kept);
            let f = csv_fields_exec(line);
            if f.len() >= 5 {
                let g = GpuDevice {
                    index,
                    name: string_of(&f[1]),
                    utilization: parse_u64_or_zero(&f[2]),
                    memory_used_mb: parse_u64_or_zero(&f[3]),
                    memory_total_mb: parse_u64_or_zero(&f[4]),
                };
                let ghost before = gpu_views(gpus@);
                gpus.push(g);
                assert(gpu_views(gpus@) =~= before.push(g@));
            }
            index += 1;
        }
        i += 1;
    }
    assert(lv.take(ls.len() as int) == lv);
    if gpus.len() == 0 {
        None
    } else {
        Some(GpuInfo { present: true, vendor: string_from("NVIDIA"), gpus })
    }
}

// ---------------------------------------------------------------------------
// rocm-smi --showuse --showmeminfo vram
// ---------------------------------------------------------------------------

/// `str::trim_end_matches(c)`: every trailing `c` removed.
pub open spec fn trim_end_char(s: Seq<char>, c: char) -> Seq<char>
    decreases s.len(),
{
    if s.len() > 0 && s.last() == c {
        trim_end_char(s.drop_last(), c)
    } else {
        s
    }
}

/// The percentage after the first `:` of a `GPU use` line, 0 when missing or
/// not a number.
pub open spec fn use_value(line: Seq<char>) -> u64 {
    let p = pieces(line, ':');
    if p.len() > 1 {
        u64_or_zero(trim_end_char(trim(p[1]), '%'))
    } else {
        0
    }
}

/// The name after the first `]` of a `GPU[n]` line, trimmed.
pub open spec fn amd_name(line: Seq<char>) -> Seq<char> {
    let p = pieces(line, ']');
    if p.len() > 1 {
        trim(p[1])
    } else {
        Seq::empty()
    }
}

/// State of the `rocm-smi` reader over the lines `ls` (each trimmed): the
/// devices finished and the one being read. A `GPU[` line starts a device
/// (indexed by the number finished before it); `GPU use` and `vram`
/// `Used`/`Total` lines fill in the current one.
pub open spec fn amd_scan(ls: Seq<Seq<char>>) -> (Seq<GpuSpec>, Option<GpuSpec>)
    decreases ls.len(),
{
    if ls.len() == 0 {
        (Seq::empty(), None)
    } else {
        let prev = amd_scan(ls.drop_last());
        let line = trim(ls.last());
        if has_prefix(line, "GPU["@) {
            let done = match prev.1 {
                Some(d) => prev.0.push(d),
                None => prev.0,
            };
            (
                done,
                Some(
                    GpuSpec {
                        index: done.len() as usize,
                        name: amd_name(line),
                        utilization: 0,
                        memory_used_mb: 0,
                        memory_total_mb: 0,
                    },
                ),
            )
        } else {
            match prev.1 {
                None => prev,
                Some(d) => {
                    if contains_seq(line, "GPU use"@) {
                        (prev.0, Some(GpuSpec { utilization: use_value(line), ..d }))
                    } else if contains_seq(line, "vram"@) && contains_seq(line, "Used"@) {
                        (prev.0, Some(GpuSpec { memory_used_mb: kb_field(line), ..d }))
                    } else if contains_seq(line, "vram"@) && contains_seq(line, "Total"@) {
                        (prev.0, Some(GpuSpec { memory_total_mb: kb_field(line), ..d }))
                    } else {
                        prev
                    }
                },
            }
        }
    }
}

pub open spec fn amd_devices(text: Seq<char>) -> Seq<GpuSpec> {
    let r = amd_scan(lines(text));
    match r.1 {
        Some(d) => r.0.push(d),
        None => r.0,
    }
}

fn trim_end_char_exec(s: &Vec<char>, c: char) -> (r: Vec<char>)
    ensures
        r@ == trim_end_char(s@, c),
{
    let mut end: usize = s.len();
    assert(s@.take(s.len() as int) == s@);
    while end > 0 && s[end - 1] == c
        invariant
            end <= s.len(),
            trim_end_char(s@, c) == trim_end_char(s@.take(end as int), c),
        decreases end,
    {
        assert(s@.take(end as int).drop_last() == s@.take(end - 1));
        end -= 1;
    }
    crate::host::proc::slice_chars(s, 0, end)
}

fn use_value_exec(line: &Vec<char>) -> (r: u64)
    ensures
        r == use_value(line@),
{
    let p = split_on(line, ':');
    if p.len() > 1 {
        let t = trim_end_char_exec(&trim_chars(&p[1]), '%');
        parse_u64_or_zero(&t)
    } else {
        0
    }
}

fn amd_name_exec(line: &Vec<char>) -> (r: Vec<char>)
    ensures
        r@ == amd_name(line@),
{
    let p = split_on(line, ']');
    if p.len() > 1 {
        trim_chars(&p[1])
    } else {
        Vec::new()
    }
}

pub open spec fn opt_view(d: Option<GpuDevice>) -> Option<GpuSpec> {
    match d {
        Some(g) => Some(g@),
        None => None,
    }
}

/// The GPUs `rocm-smi --showuse --showmeminfo vram` lists in `text`: `None`
/// when it lists none.
pub fn parse_rocm_smi(text: &str) -> (r: Option<GpuInfo>)
    ensures
        match r {
            Some(g) => g.present && g.vendor@ == "AMD"@ && gpu_views(g.gpus@) == amd_devices(text@)
                && g.gpus@.len() > 0,
            None => amd_devices(text@).len() == 0,
        },
{
    let ls = split_lines(&chars_of(text));
    let ghost lv = views(ls@);
    let mut gpus: Vec<GpuDevice> = Vec::new();
    let mut current: Option<GpuDevice> = None;
    let mut i: usize = 0;
    while i < ls.len()
        invariant
            lv == views(ls@),
            lv == lines(text@),
            i <= ls.len(),
            (gpu_views(gpus@), opt_view(current)) == amd_scan(lv.take(i as int)),
        decreases ls.len() - i,
    {
        assert(lv.take(i + 1).drop_last() == lv.take(i as int));
        let line = trim_chars(&ls[i]);
        if starts_with_str(&line, "GPU[") {
            match current {
                Some(device) => {
                    let ghost before = gpu_views(gpus@);
                    gpus.push(device);
                    assert(gpu_views(gpus@) =~= before.push(device@));
                },
                None => {},
            }
            let name = amd_name_exec(&line);
            current = Some(
                GpuDevice {
                    index: gpus.len(),
                    name: string_of(&name),
                    utilization: 0,
                    memory_used_mb: 0,
                    memory_total_mb: 0,
                },
            );
        } else {
            match current {
                None => {},
                Some(mut device) => {
                    if contains_str(&line, "GPU use") {
                        device.utilization = use_value_exec(&line);
                    } else if contains_str(&line, "vram") && contains_str(&line, "Used") {
                        device.memory_used_mb = parse_mb_chars(&line);
                    } else if contains_str(&line, "vram") && contains_str(&line, "Total") {
                        device.memory_total_mb = parse_mb_chars(&line);
                    }
                    current = Some(device);
                },
            }
        }
        i += 1;
    }
    assert(lv.take(ls.len() as int) == lv);
    match current {
        Some(device) => {
            let ghost before = gpu_views(gpus@);
            gpus.push(device);
            assert(gpu_views(gpus@) =~= before.push(device@));
        },
        None => {},
    }
    if gpus.len() == 0 {
        None
    } else {
        Some(GpuInfo { present: true, vendor: string_from("AMD"), gpus })
    }
}

fn parse_mb_chars(line: &Vec<char>) -> (r: u64)
    ensures
        r == kb_field(line@),
{
    crate::host::proc::num(&split_words(line), 1)
}

} // verus!
