//! Messages between the interface and the Docker supervisor, and the
//! supervisor's decisions that need no I/O: which containers to sample next
//! and how a failure reads.
use vstd::prelude::*;

use crate::action::ContainerAction;
use crate::docker::{GpuInfo, HostMemory};
use crate::model::{
    ConnectionState, ContainerDetails, ContainerRow, DockerEvent, ImageRow, LogLine, NetworkRow,
    VolumeRow,
};
use crate::text::{
    chars_eq_str, chars_of, contains_seq, contains_str, lower, string_from, to_lower,
};

verus! {

/// Requests from the interface to the supervisor.
#[derive(Debug)]
pub enum RuntimeCommand {
    Connect(String),
    Refresh,
    RefreshInventory,
    UpdateSettings { show_stopped: bool },
    Inspect(String),
    Action { id: String, action: ContainerAction },
    SubscribeLogs { id: String, follow: bool },
    UnsubscribeLogs,
    Shutdown,
}

/// What the supervisor reports to the interface.
#[derive(Debug)]
pub enum RuntimeEvent {
    Connection { state: ConnectionState, message: String },
    Snapshot { containers: Vec<ContainerRow> },
    Inventory {
        images: Vec<ImageRow>,
        volumes: Vec<VolumeRow>,
        networks: Vec<NetworkRow>,
        host_memory: HostMemory,
        gpu: GpuInfo,
    },
    Details(ContainerDetails),
    DockerEvent(DockerEvent),
    Log(LogLine),
    LogsEnded(String),
    ActionFinished { action: ContainerAction, name: String },
    Error(String),
}

/// How a failure message reads, ignoring ASCII case: permission problems,
/// an unreachable daemon, or anything else.
pub open spec fn classify_spec(message: Seq<char>) -> ConnectionState {
    let m = lower(message);
    if contains_seq(m, "permission"@) || contains_seq(m, "access denied"@) {
        ConnectionState::PermissionDenied
    } else if contains_seq(m, "connect"@) || contains_seq(m, "socket"@) || contains_seq(
        m,
        "no such file"@,
    ) {
        ConnectionState::Unavailable
    } else {
        ConnectionState::Error
    }
}

/// The connection state a failure with text `message` indicates.
pub fn classify_error(message: &str) -> (r: ConnectionState)
    ensures
        r == classify_spec(message@),
{
    let m = to_lower(&chars_of(message));
    if contains_str(&m, "permission") || contains_str(&m, "access denied") {
        ConnectionState::PermissionDenied
    } else if contains_str(&m, "connect") || contains_str(&m, "socket") || contains_str(
        &m,
        "no such file",
    ) {
        ConnectionState::Unavailable
    } else {
        ConnectionState::Error
    }
}

/// Stats requests that may run at once.
pub const STATS_CONCURRENCY: usize = 16;

/// Containers sampled per stats round: twice the concurrency.
pub const STATS_BATCH: usize = 32;

/// Round-robin over the running containers, so that large hosts are sampled
/// in bounded batches that wrap around.
pub struct StatsRotation {
    pub running_ids: Vec<String>,
    pub cursor: usize,
}

pub open spec fn ids_view(v: Seq<String>) -> Seq<Seq<char>> {
    v.map_values(|s: String| s@)
}

/// The batch taken from `ids` starting at `cursor`: up to 32 ids, wrapping
/// around the end.
pub open spec fn batch_spec(ids: Seq<Seq<char>>, cursor: int) -> Seq<Seq<char>> {
    let count = if ids.len() < 32 {
        ids.len()
    } else {
        32
    };
    Seq::new(count, |k: int| ids[(cursor + k) % (ids.len() as int)])
}

impl StatsRotation {
    pub fn new() -> (r: Self)
        ensures
            r.running_ids@.len() == 0,
            r.cursor == 0,
    {
        StatsRotation { running_ids: Vec::new(), cursor: 0 }
    }

    /// Replace the running containers and start over from the first.
    pub fn reset(&mut self, ids: Vec<String>)
        ensures
            final(self).running_ids@ == ids@,
            final(self).cursor == 0,
    {
        self.running_ids = ids;
        self.cursor = 0;
    }

    /// The next batch of running containers to sample, advancing the cursor
    /// past it.
    pub fn next_stats_ids(&mut self) -> (r: Vec<String>)
        ensures
            final(self).running_ids == old(self).running_ids,
            old(self).running_ids@.len() == 0 ==> r@.len() == 0 && final(self).cursor == old(
                self,
            ).cursor,
            old(self).running_ids@.len() > 0 ==> {
                &&& ids_view(r@) == batch_spec(ids_view(old(self).running_ids@), old(self).cursor as int)
                &&& final(self).cursor == (old(self).cursor + r@.len()) % (old(
                    self,
                ).running_ids@.len() as int)
            },
    {
        let n = self.running_ids.len();
        if n == 0 {
            return Vec::new();
        }
        let count: usize = if n < STATS_BATCH {
            n
        } else {
            STATS_BATCH
        };
        let ghost iv = ids_view(self.running_ids@);
        let start = self.cursor % n;
        let mut selected: Vec<String> = Vec::new();
        let mut k: usize = 0;
        while k < count
            invariant
                n == self.running_ids.len(),
                n > 0,
                start == self.cursor % n,
                iv == ids_view(self.running_ids@),
                count == (if n < 32 {
                    n
                } else {
                    32
                }),
                k <= count,
                ids_view(selected@) =~= batch_spec(iv, self.cursor as int).take(k as int),
            decreases count - k,
        {
            let pos = wrap_offset(start, k, n);
            proof {
                vstd::arithmetic::div_mod::lemma_add_mod_noop(self.cursor as int, k as int, n as int);
                vstd::arithmetic::div_mod::lemma_small_mod(k as nat, n as nat);
            }
            let id = string_from(self.running_ids[pos].as_str());
            let ghost before = ids_view(selected@);
            selected.push(id);
            proof {
                assert(ids_view(selected@) =~= before.push(id@));
                assert(batch_spec(iv, self.cursor as int).take(k + 1) =~= batch_spec(
                    iv,
                    self.cursor as int,
                ).take(k as int).push(iv[(self.cursor + k) % (n as int)]));
            }
            k += 1;
        }
        let next = wrap_offset(start, count, n);
        proof {
            assert(ids_view(selected@) =~= batch_spec(iv, self.cursor as int));
            assert(selected@.len() == count);
            vstd::arithmetic::div_mod::lemma_add_mod_noop(self.cursor as int, count as int, n as int);
            vstd::arithmetic::div_mod::lemma_mod_twice(self.cursor as int, n as int);
            if count < n {
                vstd::arithmetic::div_mod::lemma_small_mod(count as nat, n as nat);
            } else {
                vstd::arithmetic::div_mod::lemma_mod_self_0(n as int);
                vstd::arithmetic::div_mod::lemma_mod_add_multiples_vanish(start as int, n as int);
                vstd::arithmetic::div_mod::lemma_mod_add_multiples_vanish(self.cursor as int, n as int);
            }
            assert(next == (self.cursor + count) % (n as int));
        }
        self.cursor = next;
        selected
    }
}

/// `(start + k) % n` for `start < n` and `k <= n`, without overflow.
fn wrap_offset(start: usize, k: usize, n: usize) -> (r: usize)
    requires
        start < n,
        k <= n,
    ensures
        r == (start + k) % (n as int),
        r < n,
{
    if k >= n - start {
        let r = k - (n - start);
        proof {
            vstd::arithmetic::div_mod::lemma_mod_add_multiples_vanish(r as int, n as int);
            vstd::arithmetic::div_mod::lemma_small_mod(r as nat, n as nat);
        }
        r
    } else {
        proof {
            vstd::arithmetic::div_mod::lemma_small_mod((start + k) as nat, n as nat);
        }
        start + k
    }
}

/// Size of one batch out of `n` running containers.
pub open spec fn batch_len(n: int) -> int {
    if n < 32 {
        n
    } else {
        32
    }
}

/// The cursor after `k` batches taken from `n` running containers,
/// starting at `cursor`.
pub open spec fn cursor_after(cursor: int, n: int, k: nat) -> int
    decreases k,
{
    if k == 0 {
        cursor
    } else {
        (cursor_after(cursor, n, (k - 1) as nat) + batch_len(n)) % n
    }
}

/// The position that slot `k` of batch `j` reads.
pub open spec fn batch_position(cursor: int, n: int, j: nat, k: int) -> int {
    (cursor_after(cursor, n, j) + k) % n
}

proof fn lemma_cursor_after(cursor: int, n: int, k: nat)
    requires
        n > 32,
        0 <= cursor < n,
    ensures
        cursor_after(cursor, n, k) == (cursor + 32 * k) % n,
    decreases k,
{
    if k == 0 {
        vstd::arithmetic::div_mod::lemma_small_mod(cursor as nat, n as nat);
    } else {
        lemma_cursor_after(cursor, n, (k - 1) as nat);
        vstd::arithmetic::div_mod::lemma_add_mod_noop(cursor + 32 * (k - 1), 32, n);
        vstd::arithmetic::div_mod::lemma_small_mod(32, n as nat);
    }
}

/// Sampling never starves a container: starting from any cursor on the
/// list, the first `ceil(n / 32)` batches together read every one of the
/// `n` running containers (a batch reads positions `cursor + k mod n`).
pub proof fn lemma_batches_cover_all(n: int, cursor: int, i: int)
    requires
        0 <= cursor < n,
        0 <= i < n,
    ensures
        exists|j: nat, k: int|
            j < (n + batch_len(n) - 1) / batch_len(n) && 0 <= k < batch_len(n)
                && #[trigger] batch_position(cursor, n, j, k) == i,
{
    let t = if i >= cursor {
        i - cursor
    } else {
        i - cursor + n
    };
    vstd::arithmetic::div_mod::lemma_small_mod(i as nat, n as nat);
    vstd::arithmetic::div_mod::lemma_mod_add_multiples_vanish(i, n);
    assert((cursor + t) % n == i);
    if n <= 32 {
        assert(cursor_after(cursor, n, 0) == cursor);
        assert((n + n - 1) / n == 1) by {
            vstd::arithmetic::div_mod::lemma_fundamental_div_mod_converse(n + n - 1, n, 1, n - 1);
        }
        assert(batch_position(cursor, n, 0, t) == i);
    } else {
        let j: nat = (t / 32) as nat;
        let k = t % 32;
        lemma_cursor_after(cursor, n, j);
        vstd::arithmetic::div_mod::lemma_add_mod_noop(cursor + 32 * j, k, n);
        vstd::arithmetic::div_mod::lemma_small_mod(k as nat, n as nat);
        assert(cursor + 32 * j + k == cursor + t);
        assert(batch_position(cursor, n, j, k) == i);
        assert(j < (n + 31) / 32);
    }
}

/// The ids of the running containers among `(id, state)` pairs of the
/// container summaries; the state as the API names it, compared ignoring
/// ASCII case.
pub open spec fn running_spec(entries: Seq<(Option<String>, Option<String>)>) -> Seq<Seq<char>>
    decreases entries.len(),
{
    if entries.len() == 0 {
        Seq::empty()
    } else {
        let prev = running_spec(entries.drop_last());
        let e = entries.last();
        match (e.0, e.1) {
            (Some(id), Some(state)) => {
                if lower(state@) == "running"@ {
                    prev.push(id@)
                } else {
                    prev
                }
            },
            _ => prev,
        }
    }
}

/// The ids of the running containers, in summary order.
pub fn running_ids(entries: &Vec<(Option<String>, Option<String>)>) -> (r: Vec<String>)
    ensures
        ids_view(r@) == running_spec(entries@),
{
    let mut out: Vec<String> = Vec::new();
    let mut i: usize = 0;
    while i < entries.len()
        invariant
            i <= entries.len(),
            ids_view(out@) == running_spec(entries@.take(i as int)),
        decreases entries.len() - i,
    {
        assert(entries@.take(i + 1).drop_last() == entries@.take(i as int));
        match (&entries[i].0, &entries[i].1) {
            (Some(id), Some(state)) => {
                if chars_eq_str(&to_lower(&chars_of(state.as_str())), "running") {
                    let s = string_from(id.as_str());
                    let ghost before = ids_view(out@);
                    out.push(s);
                    assert(ids_view(out@) =~= before.push(s@));
                }
            },
            _ => {},
        }
        i += 1;
    }
    assert(entries@.take(entries.len() as int) == entries@);
    out
}

} // verus!
