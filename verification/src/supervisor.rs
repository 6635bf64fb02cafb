//! The decisions of the Docker supervisor: when to connect, which
//! collection to start, what to report to the interface, which workers to
//! start or stop. The supervisor's loop owns the timers, the Docker client
//! and the worker tasks; it performs the actions a step returns and feeds
//! back what came of them as the next input.
use vstd::prelude::*;

use crate::action::ContainerAction;
use crate::model::ConnectionState;
use crate::runtime::{
    batch_len, batch_spec, classify_error, classify_spec, ids_view, running_ids, running_spec,
    RuntimeCommand, RuntimeEvent, StatsRotation,
};
use crate::text::{chars_of, push_str, string_from, string_of};

verus! {

/// What the supervisor knows between steps.
pub struct SupervisorCore {
    /// A Docker client is connected.
    pub connected: bool,
    /// The socket to connect to, once the interface has named one.
    pub socket: Option<String>,
    pub show_stopped: bool,
    /// The last container listing was not empty.
    pub has_containers: bool,
    /// The running containers, sampled in rotation.
    pub rotation: StatsRotation,
    pub stats_running: bool,
    pub inventory_running: bool,
    pub log_worker: bool,
    pub event_worker: bool,
}

/// What happened since the last step.
#[derive(Debug)]
pub enum SupervisorInput {
    /// The reconnect timer fired (it runs while no client is connected).
    ConnectTick,
    /// The refresh timer fired.
    RefreshTick,
    /// The inventory timer fired.
    InventoryTick,
    /// Outcome of a `Connect` action, with the error text on failure.
    ConnectResult(Result<(), String>),
    /// A stats collection finished (its samples already stored), or failed.
    StatsCollected(Result<(), String>),
    /// The stats collection task itself failed.
    StatsTaskFailed(String),
    /// An inventory collection finished with the (id, state) of each listed
    /// container, or failed.
    InventoryCollected(Result<Vec<(Option<String>, Option<String>)>, String>),
    /// The inventory collection task itself failed.
    InventoryTaskFailed(String),
    /// A command of the interface; `None` once the interface is gone.
    Command(Option<RuntimeCommand>),
}

/// What the supervisor's loop is to do.
#[derive(Debug)]
pub enum SupervisorAction {
    /// Connect a Docker client to this socket.
    Connect(String),
    StartEventWorker,
    StopEventWorker,
    /// List containers (stopped ones too when asked), images, volumes and
    /// networks, with the inspect metadata, host memory and GPUs.
    CollectInventory { show_stopped: bool },
    /// Sample the stats of these containers.
    CollectStats(Vec<String>),
    /// Send this report to the interface.
    Report(RuntimeEvent),
    /// Send the container rows built from the stored listing and samples.
    ReportSnapshot,
    /// Send the stored images, volumes, networks, host memory and GPUs.
    ReportInventory,
    /// Drop the stored samples of containers no longer running.
    ForgetStoppedStats,
    /// Inspect a container and report its details (or the error).
    Inspect(String),
    /// Run a container action and report its end (or the error).
    RunAction { id: String, action: ContainerAction },
    StartLogWorker { id: String, follow: bool },
    StopLogWorker,
    /// Abort the collections in flight.
    AbortCollections,
    /// Leave the loop.
    Stop,
}

// ---------------------------------------------------------------------------
// Specification
// ---------------------------------------------------------------------------

/// `acts` are, one by one, actions of the kinds `expected` describes.
pub open spec fn acts_match(
    acts: Seq<SupervisorAction>,
    expected: Seq<spec_fn(SupervisorAction) -> bool>,
) -> bool {
    &&& acts.len() == expected.len()
    &&& forall|i: int| 0 <= i < acts.len() ==> (#[trigger] expected[i])(acts[i])
}

pub open spec fn when(
    b: bool,
    p: spec_fn(SupervisorAction) -> bool,
) -> Seq<spec_fn(SupervisorAction) -> bool> {
    if b {
        seq![p]
    } else {
        Seq::empty()
    }
}

pub open spec fn is_connect(socket: Seq<char>) -> spec_fn(SupervisorAction) -> bool {
    |a: SupervisorAction| a matches SupervisorAction::Connect(s) && s@ == socket
}

pub open spec fn is_start_event_worker() -> spec_fn(SupervisorAction) -> bool {
    |a: SupervisorAction| a is StartEventWorker
}

pub open spec fn is_collect_inventory(show_stopped: bool) -> spec_fn(SupervisorAction) -> bool {
    |a: SupervisorAction| a matches SupervisorAction::CollectInventory { show_stopped: s } && s == show_stopped
}

/// The next batch of the rotation in state `s`.
pub open spec fn is_collect_stats(s: SupervisorCore) -> spec_fn(SupervisorAction) -> bool {
    |a: SupervisorAction|
        a matches SupervisorAction::CollectStats(ids) && ids_view(ids@) == batch_spec(
            ids_view(s.rotation.running_ids@),
            s.rotation.cursor as int,
        )
}

pub open spec fn connected_text() -> Seq<char> {
    "Docker daemon connected"@
}

/// A report of the connection state, with its message.
pub open spec fn is_connection_report(
    state: ConnectionState,
    message: Seq<char>,
) -> spec_fn(SupervisorAction) -> bool {
    |a: SupervisorAction|
        a matches SupervisorAction::Report(RuntimeEvent::Connection { state: st, message: m })
            && st == state && m@ == message
}

/// A failure reported as the connection state its text indicates.
pub open spec fn is_failure_report(message: Seq<char>) -> spec_fn(SupervisorAction) -> bool {
    is_connection_report(classify_spec(message), message)
}

pub open spec fn is_error_report(text: Seq<char>) -> spec_fn(SupervisorAction) -> bool {
    |a: SupervisorAction| a matches SupervisorAction::Report(RuntimeEvent::Error(m)) && m@ == text
}

pub open spec fn is_snapshot() -> spec_fn(SupervisorAction) -> bool {
    |a: SupervisorAction| a is ReportSnapshot
}

pub open spec fn is_inventory() -> spec_fn(SupervisorAction) -> bool {
    |a: SupervisorAction| a is ReportInventory
}

pub open spec fn is_forget() -> spec_fn(SupervisorAction) -> bool {
    |a: SupervisorAction| a is ForgetStoppedStats
}

/// Starting an inventory collection: only with a client and none in flight.
pub open spec fn inventory_starts(s: SupervisorCore) -> bool {
    !s.inventory_running && s.connected
}

pub open spec fn after_inventory(s: SupervisorCore) -> SupervisorCore {
    if inventory_starts(s) {
        SupervisorCore { inventory_running: true, ..s }
    } else {
        s
    }
}

pub open spec fn inventory_acts(s: SupervisorCore) -> Seq<spec_fn(SupervisorAction) -> bool> {
    when(inventory_starts(s), is_collect_inventory(s.show_stopped))
}

/// A stats round takes the next batch of the rotation when none is in
/// flight and the last listing had containers and some are running; it is
/// sent only with a client (the rotation moves on either way).
pub open spec fn stats_batch_taken(s: SupervisorCore) -> bool {
    !s.stats_running && s.has_containers && s.rotation.running_ids@.len() > 0
}

pub open spec fn stats_starts(s: SupervisorCore) -> bool {
    stats_batch_taken(s) && s.connected
}

pub open spec fn after_stats(s: SupervisorCore) -> SupervisorCore {
    if stats_batch_taken(s) {
        let n = s.rotation.running_ids@.len() as int;
        SupervisorCore {
            rotation: StatsRotation {
                running_ids: s.rotation.running_ids,
                cursor: ((s.rotation.cursor + batch_len(n)) % n) as usize,
            },
            stats_running: s.connected,
            ..s
        }
    } else {
        s
    }
}

pub open spec fn stats_acts(s: SupervisorCore) -> Seq<spec_fn(SupervisorAction) -> bool> {
    when(stats_starts(s), is_collect_stats(s))
}

/// Trying to connect: only once a socket is named.
pub open spec fn connect_acts(s: SupervisorCore) -> Seq<spec_fn(SupervisorAction) -> bool> {
    match s.socket {
        Some(sock) => seq![is_connect(sock@)],
        None => Seq::empty(),
    }
}

/// After a client connected: the event worker (once), an inventory and a
/// stats round.
pub open spec fn connected_state(s: SupervisorCore) -> SupervisorCore {
    SupervisorCore { connected: true, event_worker: true, ..s }
}

pub open spec fn connected_acts(s: SupervisorCore) -> Seq<spec_fn(SupervisorAction) -> bool> {
    let s1 = connected_state(s);
    let s2 = after_inventory(s1);
    when(!s.event_worker, is_start_event_worker()) + inventory_acts(s1) + stats_acts(s2)
}

/// What a step does in state `s` on input `input`: the next state `t` and
/// the actions `acts` for the loop, in order.
pub open spec fn step_spec(
    s: SupervisorCore,
    input: SupervisorInput,
    t: SupervisorCore,
    acts: Seq<SupervisorAction>,
) -> bool {
    match input {
        SupervisorInput::ConnectTick => if s.connected {
            t == s && acts.len() == 0
        } else {
            t == s && acts_match(acts, connect_acts(s))
        },
        SupervisorInput::RefreshTick => if !s.stats_running && s.connected {
            t == after_stats(s) && acts_match(acts, stats_acts(s))
        } else {
            t == s && acts.len() == 0
        },
        SupervisorInput::InventoryTick => t == after_inventory(s) && acts_match(acts, inventory_acts(s)),
        SupervisorInput::ConnectResult(r) => match r {
            Ok(_) => t == after_stats(after_inventory(connected_state(s))) && acts_match(
                acts,
                connected_acts(s),
            ),
            Err(message) => t == s && acts_match(acts, seq![is_failure_report(message@)]),
        },
        SupervisorInput::StatsCollected(r) => {
            &&& t == (SupervisorCore { stats_running: false, ..s })
            &&& match r {
                Ok(_) => acts_match(
                    acts,
                    seq![is_connection_report(ConnectionState::Connected, connected_text()), is_snapshot()],
                ),
                Err(message) => acts_match(acts, seq![is_failure_report(message@)]),
            }
        },
        SupervisorInput::StatsTaskFailed(message) => {
            &&& t == (SupervisorCore { stats_running: false, ..s })
            &&& acts_match(acts, seq![is_error_report("stats task failed: "@ + message@)])
        },
        SupervisorInput::InventoryCollected(r) => match r {
            Ok(entries) => {
                &&& t == (SupervisorCore {
                    inventory_running: false,
                    has_containers: entries@.len() > 0,
                    rotation: t.rotation,
                    ..s
                })
                &&& ids_view(t.rotation.running_ids@) == running_spec(entries@)
                &&& t.rotation.cursor == 0
                &&& acts_match(
                    acts,
                    seq![
                        is_forget(),
                        is_connection_report(ConnectionState::Connected, connected_text()),
                        is_snapshot(),
                        is_inventory(),
                    ],
                )
            },
            Err(message) => {
                &&& t == (SupervisorCore { inventory_running: false, ..s })
                &&& acts_match(acts, seq![is_failure_report(message@)])
            },
        },
        SupervisorInput::InventoryTaskFailed(message) => {
            &&& t == (SupervisorCore { inventory_running: false, ..s })
            &&& acts_match(acts, seq![is_error_report("inventory task failed: "@ + message@)])
        },
        SupervisorInput::Command(c) => command_spec(s, c, t, acts),
    }
}

/// What a command of the interface does.
pub open spec fn command_spec(
    s: SupervisorCore,
    c: Option<RuntimeCommand>,
    t: SupervisorCore,
    acts: Seq<SupervisorAction>,
) -> bool {
    match c {
        Some(RuntimeCommand::Connect(sock)) => {
            let s1 = SupervisorCore { socket: Some(sock), ..s };
            t == s1 && acts_match(acts, seq![is_connect(sock@)])
        },
        Some(RuntimeCommand::Refresh) => if !s.connected {
            t == s && acts_match(acts, connect_acts(s))
        } else if !s.has_containers {
            t == after_inventory(s) && acts_match(acts, inventory_acts(s))
        } else {
            t == after_stats(s) && acts_match(acts, stats_acts(s))
        },
        Some(RuntimeCommand::RefreshInventory) => t == after_inventory(s) && acts_match(
            acts,
            inventory_acts(s),
        ),
        Some(RuntimeCommand::UpdateSettings { show_stopped }) => {
            let s1 = SupervisorCore { show_stopped, ..s };
            t == after_inventory(s1) && acts_match(acts, inventory_acts(s1))
        },
        Some(RuntimeCommand::Inspect(id)) => t == s && acts_match(
            acts,
            when(
                s.connected,
                |a: SupervisorAction| a matches SupervisorAction::Inspect(i) && i@ == id@,
            ),
        ),
        Some(RuntimeCommand::Action { id, action }) => t == after_inventory(s) && acts_match(
            acts,
            when(
                s.connected,
                |a: SupervisorAction|
                    a matches SupervisorAction::RunAction { id: i, action: x } && i@ == id@ && x
                        == action,
            ) + inventory_acts(s),
        ),
        Some(RuntimeCommand::SubscribeLogs { id, follow }) => {
            &&& t == (SupervisorCore { log_worker: true, ..s })
            &&& acts_match(
                acts,
                when(s.log_worker, |a: SupervisorAction| a is StopLogWorker) + when(
                    s.connected,
                    |a: SupervisorAction|
                        a matches SupervisorAction::StartLogWorker { id: i, follow: f } && i@
                            == id@ && f == follow,
                ),
            )
        },
        Some(RuntimeCommand::UnsubscribeLogs) => {
            &&& t == (SupervisorCore { log_worker: false, ..s })
            &&& acts_match(acts, when(s.log_worker, |a: SupervisorAction| a is StopLogWorker))
        },
        Some(RuntimeCommand::Shutdown) | None => {
            &&& t == (SupervisorCore { log_worker: false, event_worker: false, ..s })
            &&& acts_match(
                acts,
                when(s.log_worker, |a: SupervisorAction| a is StopLogWorker) + when(
                    s.event_worker,
                    |a: SupervisorAction| a is StopEventWorker,
                ) + seq![
                    |a: SupervisorAction| a is AbortCollections,
                    |a: SupervisorAction| a is Stop,
                ],
            )
        },
    }
}

// ---------------------------------------------------------------------------
// Steps
// ---------------------------------------------------------------------------

proof fn lemma_acts_concat(
    a: Seq<SupervisorAction>,
    b: Seq<SupervisorAction>,
    p: Seq<spec_fn(SupervisorAction) -> bool>,
    q: Seq<spec_fn(SupervisorAction) -> bool>,
)
    requires
        acts_match(a, p),
        acts_match(b, q),
    ensures
        acts_match(a + b, p + q),
{
    assert forall|i: int| 0 <= i < (a + b).len() implies (#[trigger] (p + q)[i])((a + b)[i]) by {
        if i >= a.len() {
            assert((a + b)[i] == b[i - a.len()]);
            assert((p + q)[i] == q[i - a.len()]);
        } else {
            assert((a + b)[i] == a[i]);
            assert((p + q)[i] == p[i]);
        }
    }
}

fn one(a: SupervisorAction) -> (r: Vec<SupervisorAction>)
    ensures
        r@ == seq![a],
{
    let mut r: Vec<SupervisorAction> = Vec::new();
    r.push(a);
    assert(r@ =~= seq![a]);
    r
}

fn failure_report(message: String) -> (a: SupervisorAction)
    ensures
        is_failure_report(message@)(a),
{
    let state = classify_error(message.as_str());
    SupervisorAction::Report(RuntimeEvent::Connection { state, message })
}

fn connected_report() -> (a: SupervisorAction)
    ensures
        is_connection_report(ConnectionState::Connected, connected_text())(a),
{
    SupervisorAction::Report(
        RuntimeEvent::Connection {
            state: ConnectionState::Connected,
            message: string_from("Docker daemon connected"),
        },
    )
}

fn error_report(prefix: &str, message: String) -> (a: SupervisorAction)
    ensures
        is_error_report(prefix@ + message@)(a),
{
    let mut text = chars_of(prefix);
    push_str(&mut text, message.as_str());
    SupervisorAction::Report(RuntimeEvent::Error(string_of(&text)))
}

impl SupervisorCore {
    /// A supervisor that knows no socket yet and runs nothing.
    pub fn new(show_stopped: bool) -> (s: Self)
        ensures
            !s.connected,
            s.socket is None,
            s.show_stopped == show_stopped,
            !s.has_containers,
            s.rotation.running_ids@.len() == 0,
            s.rotation.cursor == 0,
            !s.stats_running,
            !s.inventory_running,
            !s.log_worker,
            !s.event_worker,
    {
        SupervisorCore {
            connected: false,
            socket: None,
            show_stopped,
            has_containers: false,
            rotation: StatsRotation::new(),
            stats_running: false,
            inventory_running: false,
            log_worker: false,
            event_worker: false,
        }
    }

    /// The first report to the interface, before any socket is known.
    pub fn greeting() -> (e: RuntimeEvent)
        ensures
            e matches RuntimeEvent::Connection { state, message } && state
                == ConnectionState::Connecting && message@ == "waiting for Docker socket"@,
    {
        RuntimeEvent::Connection {
            state: ConnectionState::Connecting,
            message: string_from("waiting for Docker socket"),
        }
    }

    fn start_inventory(&mut self) -> (acts: Vec<SupervisorAction>)
        ensures
            *final(self) == after_inventory(*old(self)),
            acts_match(acts@, inventory_acts(*old(self))),
    {
        if self.inventory_running || !self.connected {
            return Vec::new();
        }
        self.inventory_running = true;
        one(SupervisorAction::CollectInventory { show_stopped: self.show_stopped })
    }

    fn start_stats(&mut self) -> (acts: Vec<SupervisorAction>)
        ensures
            *final(self) == after_stats(*old(self)),
            acts_match(acts@, stats_acts(*old(self))),
    {
        if self.stats_running || !self.has_containers || self.rotation.running_ids.len() == 0 {
            return Vec::new();
        }
        let ids = self.rotation.next_stats_ids();
        assert(ids@.len() == ids_view(ids@).len());
        if !self.connected {
            return Vec::new();
        }
        self.stats_running = true;
        one(SupervisorAction::CollectStats(ids))
    }

    fn try_connect(&self) -> (acts: Vec<SupervisorAction>)
        ensures
            acts_match(acts@, connect_acts(*self)),
    {
        match &self.socket {
            Some(sock) => one(SupervisorAction::Connect(string_from(sock.as_str()))),
            None => Vec::new(),
        }
    }

    fn on_connected(&mut self) -> (acts: Vec<SupervisorAction>)
        ensures
            *final(self) == after_stats(after_inventory(connected_state(*old(self)))),
            acts_match(acts@, connected_acts(*old(self))),
    {
        let ghost s0 = *self;
        let mut acts: Vec<SupervisorAction> = Vec::new();
        if !self.event_worker {
            acts.push(SupervisorAction::StartEventWorker);
        }
        self.connected = true;
        self.event_worker = true;
        assert(acts_match(acts@, when(!s0.event_worker, is_start_event_worker())));
        let ghost a1 = acts@;
        let mut more = self.start_inventory();
        acts.append(&mut more);
        proof {
            lemma_acts_concat(
                a1,
                acts@.skip(a1.len() as int),
                when(!s0.event_worker, is_start_event_worker()),
                inventory_acts(connected_state(s0)),
            );
            assert(a1 + acts@.skip(a1.len() as int) == acts@);
        }
        let ghost a2 = acts@;
        let mut rest = self.start_stats();
        acts.append(&mut rest);
        proof {
            lemma_acts_concat(
                a2,
                acts@.skip(a2.len() as int),
                when(!s0.event_worker, is_start_event_worker()) + inventory_acts(connected_state(s0)),
                stats_acts(after_inventory(connected_state(s0))),
            );
            assert(a2 + acts@.skip(a2.len() as int) == acts@);
        }
        acts
    }

    fn stop_log_worker(&mut self) -> (acts: Vec<SupervisorAction>)
        ensures
            *final(self) == (SupervisorCore { log_worker: false, ..*old(self) }),
            acts_match(acts@, when(old(self).log_worker, |a: SupervisorAction| a is StopLogWorker)),
    {
        if self.log_worker {
            self.log_worker = false;
            one(SupervisorAction::StopLogWorker)
        } else {
            Vec::new()
        }
    }

    fn command(&mut self, c: Option<RuntimeCommand>) -> (acts: Vec<SupervisorAction>)
        ensures
            command_spec(*old(self), c, *final(self), acts@),
    {
        match c {
            Some(RuntimeCommand::Connect(sock)) => {
                self.socket = Some(sock);
                self.try_connect()
            },
            Some(RuntimeCommand::Refresh) => {
                if !self.connected {
                    self.try_connect()
                } else if !self.has_containers {
                    self.start_inventory()
                } else {
                    self.start_stats()
                }
            },
            Some(RuntimeCommand::RefreshInventory) => self.start_inventory(),
            Some(RuntimeCommand::UpdateSettings { show_stopped }) => {
                self.show_stopped = show_stopped;
                self.start_inventory()
            },
            Some(RuntimeCommand::Inspect(id)) => {
                if self.connected {
                    one(SupervisorAction::Inspect(id))
                } else {
                    Vec::new()
                }
            },
            Some(RuntimeCommand::Action { id, action }) => {
                let mut acts: Vec<SupervisorAction> = if self.connected {
                    one(SupervisorAction::RunAction { id, action })
                } else {
                    Vec::new()
                };
                let ghost a1 = acts@;
                let ghost s0 = *self;
                let mut more = self.start_inventory();
                acts.append(&mut more);
                proof {
                    lemma_acts_concat(
                        a1,
                        acts@.skip(a1.len() as int),
                        when(
                            s0.connected,
                            |a: SupervisorAction|
                                a matches SupervisorAction::RunAction { id: i, action: x } && i@
                                    == id@ && x == action,
                        ),
                        inventory_acts(s0),
                    );
                    assert(a1 + acts@.skip(a1.len() as int) == acts@);
                }
                acts
            },
            Some(RuntimeCommand::SubscribeLogs { id, follow }) => {
                let ghost s0 = *self;
                let mut acts = self.stop_log_worker();
                let ghost a1 = acts@;
                let mut more: Vec<SupervisorAction> = if self.connected {
                    one(SupervisorAction::StartLogWorker { id, follow })
                } else {
                    Vec::new()
                };
                let ghost a2 = more@;
                acts.append(&mut more);
                self.log_worker = true;
                proof {
                    lemma_acts_concat(
                        a1,
                        a2,
                        when(s0.log_worker, |a: SupervisorAction| a is StopLogWorker),
                        when(
                            s0.connected,
                            |a: SupervisorAction|
                                a matches SupervisorAction::StartLogWorker { id: i, follow: f }
                                    && i@ == id@ && f == follow,
                        ),
                    );
                }
                acts
            },
            Some(RuntimeCommand::UnsubscribeLogs) => self.stop_log_worker(),
            Some(RuntimeCommand::Shutdown) | None => {
                let ghost s0 = *self;
                let mut acts = self.stop_log_worker();
                let ghost a1 = acts@;
                let mut more: Vec<SupervisorAction> = if self.event_worker {
                    self.event_worker = false;
                    one(SupervisorAction::StopEventWorker)
                } else {
                    Vec::new()
                };
                let ghost a2 = more@;
                acts.append(&mut more);
                let ghost a3 = acts@;
                acts.push(SupervisorAction::AbortCollections);
                acts.push(SupervisorAction::Stop);
                proof {
                    let p1 = when(s0.log_worker, |a: SupervisorAction| a is StopLogWorker);
                    let p2 = when(s0.event_worker, |a: SupervisorAction| a is StopEventWorker);
                    let p3 = seq![
                        |a: SupervisorAction| a is AbortCollections,
                        |a: SupervisorAction| a is Stop,
                    ];
                    lemma_acts_concat(a1, a2, p1, p2);
                    assert(acts@ == a3 + acts@.skip(a3.len() as int));
                    assert(acts_match(acts@.skip(a3.len() as int), p3));
                    lemma_acts_concat(a3, acts@.skip(a3.len() as int), p1 + p2, p3);
                }
                acts
            },
        }
    }

    /// One step of the supervisor: the state moves on as `step_spec` says,
    /// and the returned actions are left to the loop, in order.
    pub fn step(&mut self, input: SupervisorInput) -> (acts: Vec<SupervisorAction>)
        ensures
            step_spec(*old(self), input, *final(self), acts@),
    {
        match input {
            SupervisorInput::ConnectTick => {
                if self.connected {
                    Vec::new()
                } else {
                    self.try_connect()
                }
            },
            SupervisorInput::RefreshTick => {
                if !self.stats_running && self.connected {
                    self.start_stats()
                } else {
                    Vec::new()
                }
            },
            SupervisorInput::InventoryTick => self.start_inventory(),
            SupervisorInput::ConnectResult(r) => match r {
                Ok(_) => self.on_connected(),
                Err(message) => one(failure_report(message)),
            },
            SupervisorInput::StatsCollected(r) => {
                self.stats_running = false;
                match r {
                    Ok(_) => {
                        let mut acts = one(connected_report());
                        acts.push(SupervisorAction::ReportSnapshot);
                        acts
                    },
                    Err(message) => one(failure_report(message)),
                }
            },
            SupervisorInput::StatsTaskFailed(message) => {
                self.stats_running = false;
                one(error_report("stats task failed: ", message))
            },
            SupervisorInput::InventoryCollected(r) => {
                self.inventory_running = false;
                match r {
                    Ok(entries) => {
                        let ids = running_ids(&entries);
                        self.has_containers = entries.len() > 0;
                        self.rotation.reset(ids);
                        let mut acts = one(SupervisorAction::ForgetStoppedStats);
                        acts.push(connected_report());
                        acts.push(SupervisorAction::ReportSnapshot);
                        acts.push(SupervisorAction::ReportInventory);
                        acts
                    },
                    Err(message) => one(failure_report(message)),
                }
            },
            SupervisorInput::InventoryTaskFailed(message) => {
                self.inventory_running = false;
                one(error_report("inventory task failed: ", message))
            },
            SupervisorInput::Command(c) => self.command(c),
        }
    }
}

// ---------------------------------------------------------------------------
// Properties
// ---------------------------------------------------------------------------

/// Action `a`, if it starts a collection, starts one that was not running
/// in `s` and is recorded as running in `t`.
pub open spec fn collection_recorded(s: SupervisorCore, t: SupervisorCore, a: SupervisorAction) -> bool {
    &&& a is CollectStats ==> !s.stats_running && t.stats_running
    &&& a is CollectInventory ==> !s.inventory_running && t.inventory_running
}

proof fn lemma_collect_origin(
    s: SupervisorCore,
    input: SupervisorInput,
    t: SupervisorCore,
    acts: Seq<SupervisorAction>,
    i: int,
)
    requires
        step_spec(s, input, t, acts),
        0 <= i < acts.len(),
    ensures
        collection_recorded(s, t, acts[i]),
{
    let a = acts[i];
    match input {
        SupervisorInput::ConnectTick => {
            if !s.connected {
                assert(connect_acts(s)[i](a));
            }
        },
        SupervisorInput::RefreshTick => {
            if !s.stats_running && s.connected {
                assert(stats_acts(s)[i](a));
            }
        },
        SupervisorInput::InventoryTick => {
            assert(inventory_acts(s)[i](a));
        },
        SupervisorInput::ConnectResult(r) => {
            match r {
                Ok(_) => {
                    assert(connected_acts(s)[i](a));
                },
                Err(message) => {
                    assert(seq![is_failure_report(message@)][i](a));
                },
            }
        },
        SupervisorInput::StatsCollected(r) => {
            match r {
                Ok(_) => {
                    assert(seq![
                        is_connection_report(ConnectionState::Connected, connected_text()),
                        is_snapshot(),
                    ][i](a));
                },
                Err(message) => {
                    assert(seq![is_failure_report(message@)][i](a));
                },
            }
        },
        SupervisorInput::StatsTaskFailed(message) => {
            assert(seq![is_error_report("stats task failed: "@ + message@)][i](a));
        },
        SupervisorInput::InventoryCollected(r) => {
            match r {
                Ok(_) => {
                    assert(seq![
                        is_forget(),
                        is_connection_report(ConnectionState::Connected, connected_text()),
                        is_snapshot(),
                        is_inventory(),
                    ][i](a));
                },
                Err(message) => {
                    assert(seq![is_failure_report(message@)][i](a));
                },
            }
        },
        SupervisorInput::InventoryTaskFailed(message) => {
            assert(seq![is_error_report("inventory task failed: "@ + message@)][i](a));
        },
        SupervisorInput::Command(c) => {
            lemma_command_collect_origin(s, c, t, acts, i);
        },
    }
}

proof fn lemma_command_collect_origin(
    s: SupervisorCore,
    c: Option<RuntimeCommand>,
    t: SupervisorCore,
    acts: Seq<SupervisorAction>,
    i: int,
)
    requires
        command_spec(s, c, t, acts),
        0 <= i < acts.len(),
    ensures
        collection_recorded(s, t, acts[i]),
{
    let a = acts[i];
    match c {
        Some(RuntimeCommand::Connect(sock)) => {
            assert(seq![is_connect(sock@)][i](a));
        },
        Some(RuntimeCommand::Refresh) => {
            if !s.connected {
                assert(connect_acts(s)[i](a));
            } else if !s.has_containers {
                assert(inventory_acts(s)[i](a));
            } else {
                assert(stats_acts(s)[i](a));
            }
        },
        Some(RuntimeCommand::RefreshInventory) => {
            assert(inventory_acts(s)[i](a));
        },
        Some(RuntimeCommand::UpdateSettings { show_stopped }) => {
            assert(inventory_acts(SupervisorCore { show_stopped, ..s })[i](a));
        },
        Some(RuntimeCommand::Inspect(id)) => {
            assert(when(
                s.connected,
                |a: SupervisorAction| a matches SupervisorAction::Inspect(x) && x@ == id@,
            )[i](a));
        },
        Some(RuntimeCommand::Action { id, action }) => {
            let p = when(
                s.connected,
                |a: SupervisorAction|
                    a matches SupervisorAction::RunAction { id: x, action: y } && x@ == id@ && y
                        == action,
            );
            assert((p + inventory_acts(s))[i](a));
        },
        Some(RuntimeCommand::SubscribeLogs { id, follow }) => {
            let p = when(s.log_worker, |a: SupervisorAction| a is StopLogWorker) + when(
                s.connected,
                |a: SupervisorAction|
                    a matches SupervisorAction::StartLogWorker { id: x, follow: f } && x@ == id@
                        && f == follow,
            );
            assert(p[i](a));
        },
        Some(RuntimeCommand::UnsubscribeLogs) => {
            assert(when(s.log_worker, |a: SupervisorAction| a is StopLogWorker)[i](a));
        },
        Some(RuntimeCommand::Shutdown) | None => {
            let p = when(s.log_worker, |a: SupervisorAction| a is StopLogWorker) + when(
                s.event_worker,
                |a: SupervisorAction| a is StopEventWorker,
            ) + seq![
                |a: SupervisorAction| a is AbortCollections,
                |a: SupervisorAction| a is Stop,
            ];
            assert(p[i](a));
        },
    }
}

/// At most one stats round and one inventory collection are in flight: a
/// step asks for a collection only when none of its kind is running, and
/// then records that one is.
pub proof fn lemma_one_collection_in_flight(
    s: SupervisorCore,
    input: SupervisorInput,
    t: SupervisorCore,
    acts: Seq<SupervisorAction>,
)
    requires
        step_spec(s, input, t, acts),
    ensures
        forall|i: int| 0 <= i < acts.len() ==> collection_recorded(s, t, #[trigger] acts[i]),
{
    assert forall|i: int| 0 <= i < acts.len() implies collection_recorded(s, t, #[trigger] acts[i]) by {
        lemma_collect_origin(s, input, t, acts, i);
    }
}

} // verus!
