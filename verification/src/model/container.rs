//! Container rows as the monitor lists them, and duration formatting.
use vstd::prelude::*;

use crate::text::{
    chars_eq_str, chars_of, contains, contains_seq, decimal, lower, push_decimal, push_str,
    string_of, to_lower,
};

verus! {

/// Metadata of a container that only an inspect call reveals.
#[derive(Clone, Debug, Default)]
pub struct ContainerMeta {
    pub started: i64,
    pub restart_count: i64,
    pub health: String,
}

/// Resource usage of a container. `cpu_percent_bits` holds the bits of the
/// CPU percentage (`f64::to_bits`), so that listings can be ordered by it.
#[derive(Clone, Copy, Debug, Default)]
pub struct Metrics {
    pub cpu_percent_bits: u64,
    pub memory_bytes: u64,
    pub memory_limit: u64,
    pub network_rx_bytes: u64,
    pub network_tx_bytes: u64,
    pub block_read_bytes: u64,
    pub block_write_bytes: u64,
    pub pids: u64,
}

/// Transfer rates of a container in bytes per second, as `f64::to_bits`.
#[derive(Clone, Copy, Debug, Default)]
pub struct ResourceDelta {
    pub network_rx_rate_bits: u64,
    pub network_tx_rate_bits: u64,
    pub block_read_rate_bits: u64,
    pub block_write_rate_bits: u64,
}

impl Metrics {
    pub open spec fn zero() -> Metrics {
        Metrics {
            cpu_percent_bits: 0,
            memory_bytes: 0,
            memory_limit: 0,
            network_rx_bytes: 0,
            network_tx_bytes: 0,
            block_read_bytes: 0,
            block_write_bytes: 0,
            pids: 0,
        }
    }

    /// No usage: every counter 0 (and a CPU percentage of 0.0).
    pub fn new() -> (m: Self)
        ensures
            m == Metrics::zero(),
    {
        Metrics {
            cpu_percent_bits: 0,
            memory_bytes: 0,
            memory_limit: 0,
            network_rx_bytes: 0,
            network_tx_bytes: 0,
            block_read_bytes: 0,
            block_write_bytes: 0,
            pids: 0,
        }
    }
}

impl ResourceDelta {
    pub open spec fn zero() -> ResourceDelta {
        ResourceDelta {
            network_rx_rate_bits: 0,
            network_tx_rate_bits: 0,
            block_read_rate_bits: 0,
            block_write_rate_bits: 0,
        }
    }

    /// All rates 0.0.
    pub fn new() -> (d: Self)
        ensures
            d == ResourceDelta::zero(),
    {
        ResourceDelta {
            network_rx_rate_bits: 0,
            network_tx_rate_bits: 0,
            block_read_rate_bits: 0,
            block_write_rate_bits: 0,
        }
    }
}

#[derive(Clone, Debug, Default)]
pub struct ContainerRow {
    pub id: String,
    pub name: String,
    pub image: String,
    pub state: String,
    pub status: String,
    pub health: String,
    pub created: i64,
    pub started: i64,
    pub restart_count: i64,
    pub ports: String,
    pub metrics: Metrics,
    pub delta: ResourceDelta,
}

/// A filter query matches a row when, ignoring ASCII case, it occurs in the
/// name, the image, the state or the status.
pub open spec fn row_matches(row: ContainerRow, query: Seq<char>) -> bool {
    let q = lower(query);
    ||| contains_seq(lower(row.name@), q)
    ||| contains_seq(lower(row.image@), q)
    ||| contains_seq(lower(row.state@), q)
    ||| contains_seq(lower(row.status@), q)
}

/// `{n:02}`: at least two digits, zero-padded.
pub open spec fn pad2(n: nat) -> Seq<char> {
    if n < 10 {
        seq!['0'] + decimal(n)
    } else {
        decimal(n)
    }
}

/// Compact duration: seconds below a minute, minutes below an hour, hours
/// and minutes below a day, then days and hours.
pub open spec fn duration_text(s: nat) -> Seq<char> {
    let minutes = s / 60;
    let hours = minutes / 60;
    if s < 60 {
        decimal(s) + "s"@
    } else if minutes < 60 {
        decimal(minutes) + "m"@
    } else if hours < 24 {
        decimal(hours) + "h "@ + pad2(minutes % 60) + "m"@
    } else {
        decimal(hours / 24) + "d "@ + pad2(hours % 24) + "h"@
    }
}

fn push_pad2(v: &mut Vec<char>, n: u64)
    ensures
        final(v)@ == old(v)@ + pad2(n as nat),
{
    if n < 10 {
        v.push('0');
        push_decimal(v, n);
        assert(old(v)@.push('0') + decimal(n as nat) =~= old(v)@ + (seq!['0'] + decimal(
            n as nat,
        )));
    } else {
        push_decimal(v, n);
    }
}

/// `12s`, `5m`, `3h 07m`, `2d 04h`.
pub fn format_duration(seconds: u64) -> (r: String)
    ensures
        r@ == duration_text(seconds as nat),
{
    let mut v: Vec<char> = Vec::new();
    let minutes = seconds / 60;
    let hours = minutes / 60;
    if seconds < 60 {
        push_decimal(&mut v, seconds);
        push_str(&mut v, "s");
    } else if minutes < 60 {
        push_decimal(&mut v, minutes);
        push_str(&mut v, "m");
    } else if hours < 24 {
        push_decimal(&mut v, hours);
        push_str(&mut v, "h ");
        push_pad2(&mut v, minutes % 60);
        push_str(&mut v, "m");
    } else {
        push_decimal(&mut v, hours / 24);
        push_str(&mut v, "d ");
        push_pad2(&mut v, hours % 24);
        push_str(&mut v, "h");
    }
    assert(v@ =~= duration_text(seconds as nat));
    string_of(&v)
}

#[verifier::external_type_specification]
#[verifier::external_body]
pub struct ExSystemTime(std::time::SystemTime);

#[verifier::external_type_specification]
#[verifier::external_body]
pub struct ExSystemTimeError(std::time::SystemTimeError);

/// `SystemTime::now`: the system clock's reading. Nothing is stated of it;
/// it depends on the machine and the moment.
#[verifier::external_body]
fn clock_now() -> std::time::SystemTime {
    std::time::SystemTime::now()
}

/// `SystemTime::duration_since(UNIX_EPOCH)`: how long after the Unix epoch
/// `t` is, an error when `t` is before it. Nothing is stated of the value.
#[verifier::external_body]
fn since_epoch(t: &std::time::SystemTime) -> Result<std::time::Duration, std::time::SystemTimeError> {
    t.duration_since(std::time::UNIX_EPOCH)
}

/// `Duration::as_secs`: the whole seconds of `d`. Nothing is stated of the
/// value, as `Duration` is opaque here.
#[verifier::external_body]
fn whole_seconds(d: &std::time::Duration) -> u64 {
    d.as_secs()
}

/// Seconds since the Unix epoch by the system clock, `None` when the clock
/// reads before the epoch.
pub(crate) fn clock_seconds() -> Option<u64> {
    let now = clock_now();
    match since_epoch(&now) {
        Ok(elapsed) => Some(whole_seconds(&elapsed)),
        Err(_) => None,
    }
}

/// `i64::saturating_sub`.
pub open spec fn sat_sub_i64(a: i64, b: i64) -> i64 {
    if a - b > i64::MAX {
        i64::MAX
    } else if a - b < i64::MIN {
        i64::MIN
    } else {
        (a - b) as i64
    }
}

fn saturating_sub_i64(a: i64, b: i64) -> (r: i64)
    ensures
        r == sat_sub_i64(a, b),
{
    match a.checked_sub(b) {
        Some(d) => d,
        None => {
            if b < 0 {
                i64::MAX
            } else {
                i64::MIN
            }
        },
    }
}

/// Uptime of a running container at `now` (seconds since the epoch): the
/// time since it started, `—` when it is not running or never started.
pub open spec fn uptime_text(row: ContainerRow, now: u64) -> Seq<char> {
    if row.started <= 0 || row.state@ != "running"@ {
        "—"@
    } else {
        duration_text(sat_sub_i64(now as i64, row.started) as u64 as nat)
    }
}

impl ContainerRow {
    /// Uptime at `now`, in seconds since the epoch.
    pub fn uptime_at(&self, now: u64) -> (r: String)
        ensures
            r@ == uptime_text(*self, now),
    {
        if self.started <= 0 || !chars_eq_str(&chars_of(self.state.as_str()), "running") {
            return crate::text::string_from("—");
        }
        let now_signed = now as i64;
        let elapsed = saturating_sub_i64(now_signed, self.started);
        format_duration(elapsed as u64)
    }

    /// Uptime by the system clock (a clock before the epoch counts as 0).
    pub fn uptime(&self) -> (r: String)
        ensures
            exists|now: u64| r@ == uptime_text(*self, now),
    {
        let now = match clock_seconds() {
            Some(s) => s,
            None => 0,
        };
        self.uptime_at(now)
    }

    /// Whether the filter `query` matches this row, ignoring ASCII case.
    pub fn matches(&self, query: &str) -> (r: bool)
        ensures
            r == row_matches(*self, query@),
    {
        let q = to_lower(&chars_of(query));
        contains(&to_lower(&chars_of(self.name.as_str())), &q) || contains(
            &to_lower(&chars_of(self.image.as_str())),
            &q,
        ) || contains(&to_lower(&chars_of(self.state.as_str())), &q) || contains(
            &to_lower(&chars_of(self.status.as_str())),
            &q,
        )
    }
}

} // verus!
