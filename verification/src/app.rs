//! The interface state and its decisions: navigation, filtering, sorting,
//! container actions with confirmation, settings, and how supervisor reports
//! update the display. Every decision is a state change plus at most one
//! effect for the caller to carry out (a message to the supervisor, or
//! saving the settings).
use vstd::prelude::*;

use crate::action::{action_label, available_in, ContainerAction};
use crate::config::{
    is_default_config, previous_sort, previous_theme, sort_at, sort_index, theme_at, theme_index,
    Config, SortOrder,
};
use crate::input::{Key, KeyCode};
use crate::model::app_state::{next_primary_spec, primary_screens};
use crate::model::container::row_matches;
use crate::model::{AppData, ConnectionState, ContainerRow, Screen};
use crate::order::{
    before, float_order, float_rank, key_lt, key_of, keys_view, lemma_before_irreflexive,
    lemma_stable_order_exists, sorted_positions, stable_order, text_lt, KeyView, SortKey,
};
use crate::runtime::{RuntimeCommand, RuntimeEvent};
use crate::text::{
    chars_eq_str, chars_of, lower, push_char, push_str, string_from, string_of, to_lower,
};

verus! {

/// Last row of the Home menu.
pub const HOME_LAST: usize = 6;

/// Settings rows: 0 mode, 1 theme, 2 sort, 3 show stopped, 4 follow logs,
/// 5 density, 6 hints, 7 GPU panel, then the two commands below.
pub const SETTINGS_SAVE: usize = 8;

pub const SETTINGS_RESET: usize = 9;

pub struct App {
    pub config: Config,
    pub config_path: String,
    pub data: AppData,
    pub screen: Screen,
    pub connection: ConnectionState,
    pub selected_container: usize,
    pub home_selection: usize,
    pub settings_selection: usize,
    pub filter: String,
    pub filter_mode: bool,
    pub event_filter: String,
    pub log_filter: String,
    pub log_follow: bool,
    pub log_scroll: u16,
    pub notice: Option<String>,
    pub confirm: Option<(ContainerAction, String)>,
    pub pending_action: bool,
    pub should_quit: bool,
}

/// Work a decision leaves to the caller.
#[derive(Debug)]
pub enum Effect {
    /// Send to the supervisor; a failure to send is an error.
    Send(RuntimeCommand),
    /// Send to the supervisor; a failure to send is ignored.
    SendQuietly(RuntimeCommand),
    /// Write the settings to the settings file.
    SaveConfig,
}

// ---------------------------------------------------------------------------
// The container list
// ---------------------------------------------------------------------------

/// A row is listed when stopped rows are shown or it is running or paused,
/// and the filter is empty or matches it.
pub open spec fn shown(c: ContainerRow, show_stopped: bool, filter: Seq<char>) -> bool {
    &&& (show_stopped || c.state@ == "running"@ || c.state@ == "paused"@)
    &&& (filter.len() == 0 || row_matches(c, filter))
}

/// Positions of the listed rows, in order.
pub open spec fn shown_positions(cs: Seq<ContainerRow>, show_stopped: bool, filter: Seq<char>) -> Seq<
    usize,
>
    decreases cs.len(),
{
    if cs.len() == 0 {
        Seq::empty()
    } else {
        let prev = shown_positions(cs.drop_last(), show_stopped, filter);
        if shown(cs.last(), show_stopped, filter) {
            prev.push((cs.len() - 1) as usize)
        } else {
            prev
        }
    }
}

/// Sort key of a row: name (ASCII case ignored) or state ascending; CPU,
/// memory or start time descending.
pub open spec fn row_key(c: ContainerRow, sort: SortOrder) -> KeyView {
    match sort {
        SortOrder::Name => (0u64, 0u64, lower(c.name@)),
        SortOrder::Cpu => (
            (u64::MAX - float_order(c.metrics.cpu_percent_bits)) as u64,
            0u64,
            Seq::empty(),
        ),
        SortOrder::Memory => ((u64::MAX - c.metrics.memory_bytes) as u64, 0u64, Seq::empty()),
        SortOrder::Uptime => ((i64::MAX - c.started) as u64, 0u64, Seq::empty()),
        SortOrder::Status => (0u64, 0u64, c.state@),
    }
}

pub open spec fn shown_keys(cs: Seq<ContainerRow>, vis: Seq<usize>, sort: SortOrder) -> Seq<
    KeyView,
> {
    vis.map_values(|i: usize| row_key(cs[i as int], sort))
}

/// The listed rows, in the order the listing shows them (a stable sort).
pub open spec fn visible_spec(
    cs: Seq<ContainerRow>,
    sort: SortOrder,
    show_stopped: bool,
    filter: Seq<char>,
) -> Seq<usize> {
    let vis = shown_positions(cs, show_stopped, filter);
    sorted_positions(shown_keys(cs, vis, sort)).map_values(|j: usize| vis[j as int])
}

pub open spec fn app_visible(app: App) -> Seq<usize> {
    visible_spec(app.data.containers@, app.config.sort, app.config.show_stopped, app.filter@)
}

/// Position of the first `x` in `s`.
pub open spec fn index_of(s: Seq<usize>, x: usize) -> Option<int>
    decreases s.len(),
{
    if s.len() == 0 {
        None
    } else if s[0] == x {
        Some(0)
    } else {
        match index_of(s.drop_first(), x) {
            Some(i) => Some(i + 1),
            None => None,
        }
    }
}

pub open spec fn count_state(cs: Seq<ContainerRow>, state: Seq<char>) -> nat
    decreases cs.len(),
{
    if cs.len() == 0 {
        0
    } else {
        count_state(cs.drop_last(), state) + if cs.last().state@ == state {
            1nat
        } else {
            0nat
        }
    }
}

/// Memory used over the rows, summed in `u64` arithmetic that wraps around
/// on overflow (as a release build adds).
pub open spec fn memory_used(cs: Seq<ContainerRow>) -> u64
    decreases cs.len(),
{
    if cs.len() == 0 {
        0
    } else {
        vstd::wrapping::u64_specs::wrapping_add(
            memory_used(cs.drop_last()),
            cs.last().metrics.memory_bytes,
        )
    }
}

pub open spec fn memory_limit_max(cs: Seq<ContainerRow>) -> u64
    decreases cs.len(),
{
    if cs.len() == 0 {
        0
    } else {
        let prev = memory_limit_max(cs.drop_last());
        if cs.last().metrics.memory_limit > prev {
            cs.last().metrics.memory_limit
        } else {
            prev
        }
    }
}

/// The row under the cursor.
pub open spec fn selected_row(app: App) -> Option<ContainerRow> {
    if app.selected_container < app.data.containers@.len() {
        Some(app.data.containers@[app.selected_container as int])
    } else {
        None
    }
}

// ---------------------------------------------------------------------------
// Decisions
// ---------------------------------------------------------------------------

/// What a key press does in a given state.
pub enum KeyDecision {
    Confirm,
    CancelConfirm,
    EndFilter,
    EraseFilter,
    TypeFilter(char),
    Quit,
    GoHome,
    NextSection,
    Help,
    Up,
    Down,
    ScrollUp,
    ScrollDown,
    Enter,
    StartFilter,
    Details,
    Logs,
    Request(ContainerAction),
    ChangeSetting(bool),
    ToggleFollow,
    ClearLogs,
    ClearEvents,
    Nothing,
}

/// The key bindings. A pending confirmation takes every key (Enter
/// confirms, Esc cancels); so does filter editing; otherwise keys act by
/// screen.
pub open spec fn key_decision(app: App, key: Key) -> KeyDecision {
    let s = app.screen;
    if app.confirm is Some {
        match key.code {
            KeyCode::Enter => KeyDecision::Confirm,
            KeyCode::Esc => KeyDecision::CancelConfirm,
            _ => KeyDecision::Nothing,
        }
    } else if app.filter_mode {
        match key.code {
            KeyCode::Enter | KeyCode::Esc => KeyDecision::EndFilter,
            KeyCode::Backspace => KeyDecision::EraseFilter,
            KeyCode::Char(c) => KeyDecision::TypeFilter(c),
            _ => KeyDecision::Nothing,
        }
    } else {
        match key.code {
            KeyCode::Char('q') if !key.other_modifiers => KeyDecision::Quit,
            KeyCode::Esc => KeyDecision::GoHome,
            KeyCode::Tab => KeyDecision::NextSection,
            KeyCode::Char('?') => KeyDecision::Help,
            KeyCode::F(1) => KeyDecision::Help,
            KeyCode::Up => KeyDecision::Up,
            KeyCode::Down => KeyDecision::Down,
            KeyCode::PageUp => KeyDecision::ScrollUp,
            KeyCode::PageDown => KeyDecision::ScrollDown,
            KeyCode::Enter => KeyDecision::Enter,
            KeyCode::Char('/') if s == Screen::Containers || s == Screen::Events || s
                == Screen::Logs => KeyDecision::StartFilter,
            KeyCode::Char('d') if s == Screen::Containers => KeyDecision::Details,
            KeyCode::Char('l') if s == Screen::Containers => KeyDecision::Logs,
            KeyCode::Char('s') if s == Screen::Containers => KeyDecision::Request(
                ContainerAction::Start,
            ),
            KeyCode::Char('x') if s == Screen::Containers => KeyDecision::Request(
                ContainerAction::Stop,
            ),
            KeyCode::Char('r') if s == Screen::Containers => KeyDecision::Request(
                ContainerAction::Restart,
            ),
            KeyCode::Char('p') if s == Screen::Containers => KeyDecision::Request(
                ContainerAction::Pause,
            ),
            KeyCode::Char('u') if s == Screen::Containers => KeyDecision::Request(
                ContainerAction::Unpause,
            ),
            KeyCode::Left if s == Screen::Settings => KeyDecision::ChangeSetting(false),
            KeyCode::Right if s == Screen::Settings => KeyDecision::ChangeSetting(true),
            KeyCode::Char(' ') if s == Screen::Logs => KeyDecision::ToggleFollow,
            KeyCode::Char('c') if s == Screen::Logs => KeyDecision::ClearLogs,
            KeyCode::Char('C') if s == Screen::Events => KeyDecision::ClearEvents,
            _ => KeyDecision::Nothing,
        }
    }
}

pub open spec fn help_text() -> Seq<char> {
    "Tab sections · Esc home · arrows select · Enter open · q quit"@
}

pub open spec fn select_first_text() -> Seq<char> {
    "select a container first"@
}

/// `new` is `app` with only the notice changed, to `text`.
pub open spec fn noticed(app: App, new: App, text: Seq<char>) -> bool {
    &&& new == App { notice: new.notice, ..app }
    &&& new.notice is Some
    &&& new.notice->0@ == text
}

/// Running `action` on the selected container: marks an action pending and
/// asks the supervisor for it; nothing without a selection.
pub open spec fn execute_spec(app: App, action: ContainerAction, new: App, eff: Option<Effect>) -> bool {
    match selected_row(app) {
        Some(row) => {
            &&& new == App { pending_action: true, ..app }
            &&& eff matches Some(Effect::Send(RuntimeCommand::Action { id, action: a }))
            &&& id@ == row.id@
            &&& a == action
        },
        None => new == app && eff is None,
    }
}

/// Asking the supervisor for the logs of the selected container, following
/// them or not; nothing without a selection.
pub open spec fn subscribe_spec(app: App, eff: Option<Effect>) -> bool {
    match selected_row(app) {
        Some(row) => {
            &&& eff matches Some(Effect::Send(RuntimeCommand::SubscribeLogs { id, follow }))
            &&& id@ == row.id@
            &&& follow == app.log_follow
        },
        None => eff is None,
    }
}

/// The details screen of the selected container.
pub open spec fn open_details_spec(app: App, new: App, eff: Option<Effect>) -> bool {
    match selected_row(app) {
        Some(row) => {
            &&& new == App { screen: Screen::Details, ..app }
            &&& eff matches Some(Effect::Send(RuntimeCommand::Inspect(id)))
            &&& id@ == row.id@
        },
        None => noticed(app, new, select_first_text()) && eff is None,
    }
}

/// The log screen of the selected container, from an empty buffer at the top.
pub open spec fn open_logs_spec(app: App, new: App, eff: Option<Effect>) -> bool {
    match selected_row(app) {
        Some(row) => {
            &&& new == App {
                screen: Screen::Logs,
                log_scroll: 0,
                data: AppData { logs: new.data.logs, ..app.data },
                ..app
            }
            &&& new.data.logs.items@.len() == 0
            &&& new.data.logs.capacity == app.data.logs.capacity
            &&& subscribe_spec(new, eff)
        },
        None => noticed(app, new, select_first_text()) && eff is None,
    }
}

/// Requesting `action`: ignored while another action is pending; refused
/// with a notice without a selection or in a state it does not apply to;
/// disruptive actions wait for confirmation; others run at once.
pub open spec fn request_spec(app: App, action: ContainerAction, new: App, eff: Option<Effect>) -> bool {
    if app.pending_action {
        new == app && eff is None
    } else {
        match selected_row(app) {
            None => noticed(app, new, select_first_text()) && eff is None,
            Some(row) => {
                if !available_in(action, row.state@) {
                    noticed(app, new, action_label(action) + " is not available for "@ + row.name@)
                        && eff is None
                } else if action is Stop || action is Restart || action is Pause {
                    &&& new == App { confirm: new.confirm, ..app }
                    &&& new.confirm matches Some((a, name))
                    &&& a == action
                    &&& name@ == row.name@
                    &&& eff is None
                } else {
                    execute_spec(app, action, new, eff)
                }
            },
        }
    }
}

/// Arrow up: previous menu row (stopping at the first), previous listed
/// container, or one line of log scroll.
pub open spec fn move_up_spec(app: App, new: App) -> bool {
    match app.screen {
        Screen::Home => new == App {
            home_selection: if app.home_selection > 0 {
                (app.home_selection - 1) as usize
            } else {
                0
            },
            ..app
        },
        Screen::Settings => new == App {
            settings_selection: if app.settings_selection > 0 {
                (app.settings_selection - 1) as usize
            } else {
                0
            },
            ..app
        },
        Screen::Containers => {
            let vis = app_visible(app);
            match index_of(vis, app.selected_container) {
                Some(k) if k > 0 => new == App { selected_container: vis[k - 1], ..app },
                _ => new == app,
            }
        },
        _ => new == App { log_scroll: app.log_scroll.saturating_sub(1), ..app },
    }
}

/// Arrow down: next menu row (stopping at the last), next listed container
/// (the first one when the cursor is on no listed row), or one line of log
/// scroll.
pub open spec fn move_down_spec(app: App, new: App) -> bool {
    match app.screen {
        Screen::Home => new == App {
            home_selection: if app.home_selection + 1 < HOME_LAST {
                (app.home_selection + 1) as usize
            } else {
                HOME_LAST
            },
            ..app
        },
        Screen::Settings => new == App {
            settings_selection: if app.settings_selection + 1 < SETTINGS_RESET {
                (app.settings_selection + 1) as usize
            } else {
                SETTINGS_RESET
            },
            ..app
        },
        Screen::Containers => {
            let vis = app_visible(app);
            match index_of(vis, app.selected_container) {
                Some(k) => if k + 1 < vis.len() {
                    new == App { selected_container: vis[k + 1], ..app }
                } else {
                    new == app
                },
                None => if vis.len() > 0 {
                    new == App { selected_container: vis[0], ..app }
                } else {
                    new == app
                },
            }
        },
        _ => new == App { log_scroll: app.log_scroll.saturating_add(1), ..app },
    }
}

/// The settings after Left (`right == false`) or Right on settings row
/// `row`: the mode and the switches toggle, the theme and the sort order step
/// through their cycles.
pub open spec fn changed_config(c: Config, row: usize, right: bool) -> Config {
    if row == 0 {
        Config {
            mode: match c.mode {
                crate::config::Mode::Docker => crate::config::Mode::All,
                crate::config::Mode::All => crate::config::Mode::Docker,
            },
            ..c
        }
    } else if row == 1 {
        Config {
            theme: if right {
                theme_at((theme_index(c.theme) + 1) % 4)
            } else {
                theme_at((theme_index(c.theme) + 3) % 4)
            },
            ..c
        }
    } else if row == 2 {
        Config {
            sort: if right {
                sort_at((sort_index(c.sort) + 1) % 5)
            } else {
                sort_at((sort_index(c.sort) + 4) % 5)
            },
            ..c
        }
    } else if row == 3 {
        Config { show_stopped: !c.show_stopped, ..c }
    } else if row == 4 {
        Config { follow_logs: !c.follow_logs, ..c }
    } else if row == 5 {
        Config {
            density: match c.density {
                crate::config::Density::Comfortable => crate::config::Density::Compact,
                crate::config::Density::Compact => crate::config::Density::Comfortable,
            },
            ..c
        }
    } else if row == 6 {
        Config { show_hints: !c.show_hints, ..c }
    } else if row == 7 {
        Config { show_gpu: !c.show_gpu, ..c }
    } else {
        c
    }
}

/// Enter: open the section under the Home cursor; the details of the
/// selected container; save or reset the settings.
pub open spec fn enter_spec(app: App, new: App, eff: Option<Effect>) -> bool {
    match app.screen {
        Screen::Home => new == App {
            screen: primary_screens(app.config.mode)[if app.home_selection < HOME_LAST {
                app.home_selection as int
            } else {
                HOME_LAST as int
            }],
            ..app
        } && eff is None,
        Screen::Containers => open_details_spec(app, new, eff),
        Screen::Settings => {
            if app.settings_selection == SETTINGS_SAVE {
                new == app && eff matches Some(Effect::SaveConfig)
            } else if app.settings_selection == SETTINGS_RESET {
                &&& new == App { config: new.config, notice: new.notice, ..app }
                &&& is_default_config(new.config)
                &&& new.notice is Some
                &&& new.notice->0@ == "settings reset to defaults"@
                &&& eff matches Some(
                    Effect::SendQuietly(RuntimeCommand::UpdateSettings { show_stopped }),
                )
                &&& show_stopped == new.config.show_stopped
            } else {
                new == app && eff is None
            }
        },
        _ => new == app && eff is None,
    }
}

/// Which filter the filter editor edits: the event filter on Events, the
/// log filter on Logs, the container filter elsewhere.
pub open spec fn filter_edited(app: App, new: App, edit: spec_fn(Seq<char>) -> Seq<char>) -> bool {
    match app.screen {
        Screen::Events => new == App { event_filter: new.event_filter, ..app }
            && new.event_filter@ == edit(app.event_filter@),
        Screen::Logs => new == App { log_filter: new.log_filter, ..app } && new.log_filter@
            == edit(app.log_filter@),
        _ => new == App { filter: new.filter, ..app } && new.filter@ == edit(app.filter@),
    }
}

pub open spec fn erase_last() -> spec_fn(Seq<char>) -> Seq<char> {
    |s: Seq<char>|
        if s.len() > 0 {
            s.drop_last()
        } else {
            s
        }
}

pub open spec fn append_char(c: char) -> spec_fn(Seq<char>) -> Seq<char> {
    |s: Seq<char>| s.push(c)
}

/// What carrying out decision `d` in state `app` leads to.
pub open spec fn step_spec(app: App, d: KeyDecision, new: App, eff: Option<Effect>) -> bool {
    match d {
        KeyDecision::Confirm => match app.confirm {
            Some((action, _)) => execute_spec(App { confirm: None, ..app }, action, new, eff),
            None => new == app && eff is None,
        },
        KeyDecision::CancelConfirm => new == App { confirm: None, ..app } && eff is None,
        KeyDecision::EndFilter => new == App { filter_mode: false, ..app } && eff is None,
        KeyDecision::EraseFilter => filter_edited(app, new, erase_last()) && eff is None,
        KeyDecision::TypeFilter(c) => filter_edited(app, new, append_char(c)) && eff is None,
        KeyDecision::Quit => new == App { should_quit: true, ..app } && eff is None,
        KeyDecision::GoHome => new == App { screen: Screen::Home, ..app } && eff matches Some(
            Effect::SendQuietly(RuntimeCommand::UnsubscribeLogs),
        ),
        KeyDecision::NextSection => new == App {
            screen: next_primary_spec(app.config.mode, app.screen),
            ..app
        } && eff is None,
        KeyDecision::Help => noticed(app, new, help_text()) && eff is None,
        KeyDecision::Up => move_up_spec(app, new) && eff is None,
        KeyDecision::Down => move_down_spec(app, new) && eff is None,
        KeyDecision::ScrollUp => new == App { log_scroll: app.log_scroll.saturating_sub(10), ..app }
            && eff is None,
        KeyDecision::ScrollDown => new == App {
            log_scroll: app.log_scroll.saturating_add(10),
            ..app
        } && eff is None,
        KeyDecision::Enter => enter_spec(app, new, eff),
        KeyDecision::StartFilter => new == App { filter_mode: true, ..app } && eff is None,
        KeyDecision::Details => open_details_spec(app, new, eff),
        KeyDecision::Logs => open_logs_spec(app, new, eff),
        KeyDecision::Request(action) => request_spec(app, action, new, eff),
        KeyDecision::ChangeSetting(right) => new == App {
            config: changed_config(app.config, app.settings_selection, right),
            ..app
        } && eff is None,
        KeyDecision::ToggleFollow => new == App { log_follow: !app.log_follow, ..app }
            && subscribe_spec(new, eff),
        KeyDecision::ClearLogs => {
            &&& new == App { data: AppData { logs: new.data.logs, ..app.data }, ..app }
            &&& new.data.logs.items@.len() == 0
            &&& new.data.logs.capacity == app.data.logs.capacity
            &&& eff is None
        },
        KeyDecision::ClearEvents => {
            &&& new == App { data: AppData { events: new.data.events, ..app.data }, ..app }
            &&& new.data.events.items@.len() == 0
            &&& new.data.events.capacity == app.data.events.capacity
            &&& eff is None
        },
        KeyDecision::Nothing => new == app && eff is None,
    }
}

/// How a supervisor report changes the state.
pub open spec fn event_spec(app: App, event: RuntimeEvent, new: App) -> bool {
    match event {
        RuntimeEvent::Connection { state, message } => new == App {
            connection: state,
            notice: Some(message),
            ..app
        },
        RuntimeEvent::Snapshot { containers } => {
            let n = containers@.len();
            new == App {
                data: AppData { containers: containers, ..app.data },
                selected_container: if app.selected_container >= n {
                    if n > 0 {
                        (n - 1) as usize
                    } else {
                        0
                    }
                } else {
                    app.selected_container
                },
                ..app
            }
        },
        RuntimeEvent::Inventory { images, volumes, networks, host_memory, gpu } => new == App {
            data: AppData { images, volumes, networks, host_memory, gpu, ..app.data },
            ..app
        },
        RuntimeEvent::Details(details) => new == App {
            data: AppData { details: Some(details), ..app.data },
            ..app
        },
        RuntimeEvent::DockerEvent(e) => {
            &&& new == App { data: AppData { events: new.data.events, ..app.data }, ..app }
            &&& new.data.events.items@ == crate::model::resource::pushed(
                app.data.events.items@,
                app.data.events.capacity as nat,
                e,
            )
            &&& new.data.events.capacity == app.data.events.capacity
        },
        RuntimeEvent::Log(line) => {
            &&& new == App {
                data: AppData { logs: new.data.logs, ..app.data },
                log_scroll: if app.log_follow {
                    u16::MAX
                } else {
                    app.log_scroll
                },
                ..app
            }
            &&& new.data.logs.items@ == crate::model::resource::pushed(
                app.data.logs.items@,
                app.data.logs.capacity as nat,
                line,
            )
            &&& new.data.logs.capacity == app.data.logs.capacity
        },
        RuntimeEvent::LogsEnded(message) => new == App { notice: Some(message), ..app },
        RuntimeEvent::ActionFinished { action, name } => {
            &&& new == App { pending_action: false, notice: new.notice, ..app }
            &&& new.notice is Some
            &&& new.notice->0@ == action_label(action) + " completed for "@ + name@
        },
        RuntimeEvent::Error(message) => new == App {
            pending_action: false,
            notice: Some(message),
            ..app
        },
    }
}

// ---------------------------------------------------------------------------
// Executable state machine
// ---------------------------------------------------------------------------

/// `String::pop`.
#[verifier::external_body]
fn string_pop(s: &mut String) -> (r: Option<char>)
    ensures
        old(s)@.len() > 0 ==> final(s)@ == old(s)@.drop_last() && r == Some(old(s)@.last()),
        old(s)@.len() == 0 ==> final(s)@ == old(s)@ && r is None,
{
    s.pop()
}

fn edit_string(s: &mut String, erase: bool, c: char)
    ensures
        final(s)@ == (if erase {
            erase_last()(old(s)@)
        } else {
            append_char(c)(old(s)@)
        }),
{
    if erase {
        string_pop(s);
    } else {
        push_char(s, c);
    }
}

impl App {
    pub fn new(config: Config, config_path: String) -> (app: Self)
        ensures
            app.config == config,
            app.config_path == config_path,
            app.screen == Screen::Home,
            app.connection == ConnectionState::Connecting,
            app.selected_container == 0,
            app.home_selection == 0,
            app.settings_selection == 0,
            app.filter@.len() == 0,
            !app.filter_mode,
            app.event_filter@.len() == 0,
            app.log_filter@.len() == 0,
            app.log_follow == config.follow_logs,
            app.log_scroll == 0,
            app.notice is None,
            app.confirm is None,
            !app.pending_action,
            !app.should_quit,
            app.data.containers@.len() == 0,
            app.data.events.items@.len() == 0,
            app.data.logs.items@.len() == 0,
    {
        let log_follow = config.follow_logs;
        App {
            config,
            config_path,
            data: AppData::new(),
            screen: Screen::Home,
            connection: ConnectionState::Connecting,
            selected_container: 0,
            home_selection: 0,
            settings_selection: 0,
            filter: String::new(),
            filter_mode: false,
            event_filter: String::new(),
            log_filter: String::new(),
            log_follow,
            log_scroll: 0,
            notice: None,
            confirm: None,
            pending_action: false,
            should_quit: false,
        }
    }

    fn is_shown(&self, c: &ContainerRow) -> (r: bool)
        ensures
            r == shown(*c, self.config.show_stopped, self.filter@),
    {
        let state = chars_of(c.state.as_str());
        (self.config.show_stopped || chars_eq_str(&state, "running") || chars_eq_str(
            &state,
            "paused",
        )) && (self.filter.as_str().is_empty() || c.matches(self.filter.as_str()))
    }

    fn row_sort_key(c: &ContainerRow, sort: SortOrder) -> (k: SortKey)
        ensures
            key_of(k) == row_key(*c, sort),
    {
        match sort {
            SortOrder::Name => SortKey {
                rank: 0,
                tie: 0,
                text: to_lower(&chars_of(c.name.as_str())),
            },
            SortOrder::Cpu => SortKey {
                rank: u64::MAX - float_rank(c.metrics.cpu_percent_bits),
                tie: 0,
                text: Vec::new(),
            },
            SortOrder::Memory => SortKey {
                rank: u64::MAX - c.metrics.memory_bytes,
                tie: 0,
                text: Vec::new(),
            },
            SortOrder::Uptime => {
                let wide: i128 = (i64::MAX as i128) - (c.started as i128);
                SortKey { rank: wide as u64, tie: 0, text: Vec::new() }
            },
            SortOrder::Status => SortKey { rank: 0, tie: 0, text: chars_of(c.state.as_str()) },
        }
    }

    /// Indices of the listed containers, in display order: stopped rows only
    /// when shown, the filter applied, sorted by the configured order.
    pub fn visible_indices(&self) -> (r: Vec<usize>)
        ensures
            r@ == app_visible(*self),
    {
        let cs = &self.data.containers;
        let ghost cv = cs@;
        let mut vis: Vec<usize> = Vec::new();
        let mut i: usize = 0;
        while i < cs.len()
            invariant
                cv == cs@,
                i <= cs.len(),
                vis@ == shown_positions(cv.take(i as int), self.config.show_stopped, self.filter@),
                forall|k: int| 0 <= k < vis@.len() ==> (#[trigger] vis@[k]) < i,
            decreases cs.len() - i,
        {
            assert(cv.take(i + 1).drop_last() == cv.take(i as int));
            assert(cv.take(i + 1).last() == cv[i as int]);
            if self.is_shown(&cs[i]) {
                vis.push(i);
            }
            i += 1;
        }
        assert(cv.take(cs.len() as int) == cv);
        let mut keys: Vec<SortKey> = Vec::new();
        let mut j: usize = 0;
        while j < vis.len()
            invariant
                cv == cs@,
                forall|k: int| 0 <= k < vis@.len() ==> (#[trigger] vis@[k]) < cs.len(),
                j <= vis.len(),
                keys_view(keys@) == shown_keys(cv, vis@, self.config.sort).take(j as int),
            decreases vis.len() - j,
        {
            let k = App::row_sort_key(&cs[vis[j]], self.config.sort);
            let ghost before = keys_view(keys@);
            keys.push(k);
            proof {
                assert(keys_view(keys@) =~= before.push(key_of(k)));
                assert(shown_keys(cv, vis@, self.config.sort).take(j + 1) =~= shown_keys(
                    cv,
                    vis@,
                    self.config.sort,
                ).take(j as int).push(row_key(cv[vis@[j as int] as int], self.config.sort)));
            }
            j += 1;
        }
        assert(shown_keys(cv, vis@, self.config.sort).take(vis.len() as int) == shown_keys(
            cv,
            vis@,
            self.config.sort,
        ));
        let order = stable_order(&keys);
        let mut out: Vec<usize> = Vec::new();
        let mut m: usize = 0;
        while m < order.len()
            invariant
                forall|a: int| 0 <= a < order@.len() ==> (#[trigger] order@[a]) < vis@.len(),
                m <= order.len(),
                out@ == order@.take(m as int).map_values(|x: usize| vis@[x as int]),
            decreases order.len() - m,
        {
            let x = order[m];
            out.push(vis[x]);
            assert(order@.take(m + 1).map_values(|x: usize| vis@[x as int]) =~= order@.take(
                m as int,
            ).map_values(|x: usize| vis@[x as int]).push(vis@[x as int]));
            m += 1;
        }
        assert(order@.take(order.len() as int) == order@);
        out
    }

    /// (running, stopped, paused) container counts; anything neither running
    /// nor paused counts as stopped.
    pub fn counts(&self) -> (r: (usize, usize, usize))
        ensures
            r.0 == count_state(self.data.containers@, "running"@),
            r.2 == count_state(self.data.containers@, "paused"@),
            r.0 + r.1 + r.2 == self.data.containers@.len(),
    {
        let cs = &self.data.containers;
        let mut running: usize = 0;
        let mut stopped: usize = 0;
        let mut paused: usize = 0;
        let mut i: usize = 0;
        while i < cs.len()
            invariant
                i <= cs.len(),
                running == count_state(cs@.take(i as int), "running"@),
                paused == count_state(cs@.take(i as int), "paused"@),
                running + stopped + paused == i,
            decreases cs.len() - i,
        {
            assert(cs@.take(i + 1).drop_last() == cs@.take(i as int));
            let state = chars_of(cs[i].state.as_str());
            let is_running = chars_eq_str(&state, "running");
            let is_paused = chars_eq_str(&state, "paused");
            proof {
                reveal_strlit("running");
                reveal_strlit("paused");
                assert("running"@.len() != "paused"@.len());
                if is_running {
                    assert(!is_paused);
                }
            }
            if is_running {
                running += 1;
            } else if is_paused {
                paused += 1;
            } else {
                stopped += 1;
            }
            i += 1;
        }
        assert(cs@.take(cs.len() as int) == cs@);
        (running, stopped, paused)
    }

    /// Memory used by all containers, and the largest memory limit among
    /// them.
    pub fn memory_summary(&self) -> (r: (u64, u64))
        ensures
            r.0 == memory_used(self.data.containers@),
            r.1 == memory_limit_max(self.data.containers@),
    {
        let cs = &self.data.containers;
        let mut used: u64 = 0;
        let mut limit: u64 = 0;
        let mut i: usize = 0;
        while i < cs.len()
            invariant
                i <= cs.len(),
                used == memory_used(cs@.take(i as int)),
                limit == memory_limit_max(cs@.take(i as int)),
            decreases cs.len() - i,
        {
            assert(cs@.take(i + 1).drop_last() == cs@.take(i as int));
            used = used.wrapping_add(cs[i].metrics.memory_bytes);
            if cs[i].metrics.memory_limit > limit {
                limit = cs[i].metrics.memory_limit;
            }
            i += 1;
        }
        assert(cs@.take(cs.len() as int) == cs@);
        (used, limit)
    }

    fn selected_id(&self) -> (r: Option<String>)
        ensures
            match selected_row(*self) {
                Some(row) => r is Some && r->0@ == row.id@,
                None => r is None,
            },
    {
        if self.selected_container < self.data.containers.len() {
            Some(string_from(self.data.containers[self.selected_container].id.as_str()))
        } else {
            None
        }
    }

    fn set_notice(&mut self, text: &str)
        ensures
            noticed(*old(self), *final(self), text@),
    {
        self.notice = Some(string_from(text));
    }

    fn execute_action(&mut self, action: ContainerAction) -> (eff: Option<Effect>)
        ensures
            execute_spec(*old(self), action, *final(self), eff),
    {
        match self.selected_id() {
            Some(id) => {
                self.pending_action = true;
                Some(Effect::Send(RuntimeCommand::Action { id, action }))
            },
            None => None,
        }
    }

    fn subscribe_logs(&self) -> (eff: Option<Effect>)
        ensures
            subscribe_spec(*self, eff),
    {
        match self.selected_id() {
            Some(id) => Some(Effect::Send(RuntimeCommand::SubscribeLogs { id, follow: self.log_follow })),
            None => None,
        }
    }

    fn open_details(&mut self) -> (eff: Option<Effect>)
        ensures
            open_details_spec(*old(self), *final(self), eff),
    {
        match self.selected_id() {
            Some(id) => {
                self.screen = Screen::Details;
                Some(Effect::Send(RuntimeCommand::Inspect(id)))
            },
            None => {
                self.set_notice("select a container first");
                None
            },
        }
    }

    fn open_logs(&mut self) -> (eff: Option<Effect>)
        ensures
            open_logs_spec(*old(self), *final(self), eff),
    {
        if self.selected_container < self.data.containers.len() {
            self.screen = Screen::Logs;
            self.log_scroll = 0;
            self.data.logs.clear();
            self.subscribe_logs()
        } else {
            self.set_notice("select a container first");
            None
        }
    }

    fn request_action(&mut self, action: ContainerAction) -> (eff: Option<Effect>)
        ensures
            request_spec(*old(self), action, *final(self), eff),
    {
        if self.pending_action {
            return None;
        }
        if self.selected_container >= self.data.containers.len() {
            self.set_notice("select a container first");
            return None;
        }
        let idx = self.selected_container;
        if !action.available_for(&self.data.containers[idx]) {
            let mut text = chars_of(action.label());
            push_str(&mut text, " is not available for ");
            push_str(&mut text, self.data.containers[idx].name.as_str());
            self.notice = Some(string_of(&text));
            return None;
        }
        if action.requires_confirmation() {
            let name = string_from(self.data.containers[idx].name.as_str());
            self.confirm = Some((action, name));
            None
        } else {
            self.execute_action(action)
        }
    }

    fn move_up(&mut self)
        ensures
            move_up_spec(*old(self), *final(self)),
    {
        match self.screen {
            Screen::Home => {
                self.home_selection = self.home_selection.saturating_sub(1);
            },
            Screen::Settings => {
                self.settings_selection = self.settings_selection.saturating_sub(1);
            },
            Screen::Containers => {
                let visible = self.visible_indices();
                match position(&visible, self.selected_container) {
                    Some(p) => {
                        if p > 0 {
                            self.selected_container = visible[p - 1];
                        }
                    },
                    None => {},
                }
            },
            _ => {
                self.log_scroll = self.log_scroll.saturating_sub(1);
            },
        }
    }

    fn move_down(&mut self)
        ensures
            move_down_spec(*old(self), *final(self)),
    {
        match self.screen {
            Screen::Home => {
                self.home_selection = if self.home_selection < HOME_LAST {
                    self.home_selection + 1
                } else {
                    HOME_LAST
                };
            },
            Screen::Settings => {
                self.settings_selection = if self.settings_selection < SETTINGS_RESET {
                    self.settings_selection + 1
                } else {
                    SETTINGS_RESET
                };
            },
            Screen::Containers => {
                let visible = self.visible_indices();
                match position(&visible, self.selected_container) {
                    Some(p) => {
                        if p + 1 < visible.len() {
                            self.selected_container = visible[p + 1];
                        }
                    },
                    None => {
                        if visible.len() > 0 {
                            self.selected_container = visible[0];
                        }
                    },
                }
            },
            _ => {
                self.log_scroll = self.log_scroll.saturating_add(1);
            },
        }
    }

    fn change_setting(&mut self, right: bool)
        ensures
            *final(self) == (App {
                config: changed_config(old(self).config, old(self).settings_selection, right),
                ..*old(self)
            }),
    {
        let row = self.settings_selection;
        if row == 0 {
            self.config.mode = self.config.mode.toggle();
        } else if row == 1 {
            self.config.theme = if right {
                self.config.theme.next()
            } else {
                previous_theme(self.config.theme)
            };
        } else if row == 2 {
            self.config.sort = if right {
                self.config.sort.next()
            } else {
                previous_sort(self.config.sort)
            };
        } else if row == 3 {
            self.config.show_stopped = !self.config.show_stopped;
        } else if row == 4 {
            self.config.follow_logs = !self.config.follow_logs;
        } else if row == 5 {
            self.config.density = self.config.density.toggle();
        } else if row == 6 {
            self.config.show_hints = !self.config.show_hints;
        } else if row == 7 {
            self.config.show_gpu = !self.config.show_gpu;
        }
    }

    /// Enter on the current screen.
    pub fn enter(&mut self) -> (eff: Option<Effect>)
        ensures
            enter_spec(*old(self), *final(self), eff),
    {
        match self.screen {
            Screen::Home => {
                let primary = Screen::primary(self.config.mode);
                let row = if self.home_selection < HOME_LAST {
                    self.home_selection
                } else {
                    HOME_LAST
                };
                self.screen = primary[row];
                None
            },
            Screen::Containers => self.open_details(),
            Screen::Settings => {
                if self.settings_selection == SETTINGS_SAVE {
                    Some(Effect::SaveConfig)
                } else if self.settings_selection == SETTINGS_RESET {
                    self.config = Config::new();
                    self.set_notice("settings reset to defaults");
                    Some(
                        Effect::SendQuietly(
                            RuntimeCommand::UpdateSettings { show_stopped: self.config.show_stopped },
                        ),
                    )
                } else {
                    None
                }
            },
            _ => None,
        }
    }

    /// Record that the settings were written to the settings file.
    pub fn settings_saved(&mut self)
        ensures
            noticed(*old(self), *final(self), "saved "@ + old(self).config_path@),
    {
        let mut text = chars_of("saved ");
        push_str(&mut text, self.config_path.as_str());
        self.notice = Some(string_of(&text));
    }

    fn decide(&self, key: Key) -> (d: KeyDecision)
        ensures
            d == key_decision(*self, key),
    {
        let s = self.screen;
        if self.confirm.is_some() {
            return match key.code {
                KeyCode::Enter => KeyDecision::Confirm,
                KeyCode::Esc => KeyDecision::CancelConfirm,
                _ => KeyDecision::Nothing,
            };
        }
        if self.filter_mode {
            return match key.code {
                KeyCode::Enter | KeyCode::Esc => KeyDecision::EndFilter,
                KeyCode::Backspace => KeyDecision::EraseFilter,
                KeyCode::Char(c) => KeyDecision::TypeFilter(c),
                _ => KeyDecision::Nothing,
            };
        }
        match key.code {
            KeyCode::Char('q') if !key.other_modifiers => KeyDecision::Quit,
            KeyCode::Esc => KeyDecision::GoHome,
            KeyCode::Tab => KeyDecision::NextSection,
            KeyCode::Char('?') => KeyDecision::Help,
            KeyCode::F(1) => KeyDecision::Help,
            KeyCode::Up => KeyDecision::Up,
            KeyCode::Down => KeyDecision::Down,
            KeyCode::PageUp => KeyDecision::ScrollUp,
            KeyCode::PageDown => KeyDecision::ScrollDown,
            KeyCode::Enter => KeyDecision::Enter,
            KeyCode::Char('/') if s == Screen::Containers || s == Screen::Events || s
                == Screen::Logs => KeyDecision::StartFilter,
            KeyCode::Char('d') if s == Screen::Containers => KeyDecision::Details,
            KeyCode::Char('l') if s == Screen::Containers => KeyDecision::Logs,
            KeyCode::Char('s') if s == Screen::Containers => KeyDecision::Request(
                ContainerAction::Start,
            ),
            KeyCode::Char('x') if s == Screen::Containers => KeyDecision::Request(
                ContainerAction::Stop,
            ),
            KeyCode::Char('r') if s == Screen::Containers => KeyDecision::Request(
                ContainerAction::Restart,
            ),
            KeyCode::Char('p') if s == Screen::Containers => KeyDecision::Request(
                ContainerAction::Pause,
            ),
            KeyCode::Char('u') if s == Screen::Containers => KeyDecision::Request(
                ContainerAction::Unpause,
            ),
            KeyCode::Left if s == Screen::Settings => KeyDecision::ChangeSetting(false),
            KeyCode::Right if s == Screen::Settings => KeyDecision::ChangeSetting(true),
            KeyCode::Char(' ') if s == Screen::Logs => KeyDecision::ToggleFollow,
            KeyCode::Char('c') if s == Screen::Logs => KeyDecision::ClearLogs,
            KeyCode::Char('C') if s == Screen::Events => KeyDecision::ClearEvents,
            _ => KeyDecision::Nothing,
        }
    }

    fn edit_filter(&mut self, erase: bool, c: char)
        ensures
            filter_edited(
                *old(self),
                *final(self),
                if erase {
                    erase_last()
                } else {
                    append_char(c)
                },
            ),
    {
        match self.screen {
            Screen::Events => edit_string(&mut self.event_filter, erase, c),
            Screen::Logs => edit_string(&mut self.log_filter, erase, c),
            _ => edit_string(&mut self.filter, erase, c),
        }
    }

    /// Handle one key press: the state changes as `step_spec` says for the
    /// decision the bindings take, and the returned effect is left to the
    /// caller.
    pub fn handle_key(&mut self, key: Key) -> (eff: Option<Effect>)
        ensures
            step_spec(*old(self), key_decision(*old(self), key), *final(self), eff),
    {
        let d = self.decide(key);
        match d {
            KeyDecision::Confirm => {
                match self.confirm.take() {
                    Some((action, _)) => self.execute_action(action),
                    None => None,
                }
            },
            KeyDecision::CancelConfirm => {
                self.confirm = None;
                None
            },
            KeyDecision::EndFilter => {
                self.filter_mode = false;
                None
            },
            KeyDecision::EraseFilter => {
                self.edit_filter(true, ' ');
                None
            },
            KeyDecision::TypeFilter(c) => {
                self.edit_filter(false, c);
                None
            },
            KeyDecision::Quit => {
                self.should_quit = true;
                None
            },
            KeyDecision::GoHome => {
                self.screen = Screen::Home;
                Some(Effect::SendQuietly(RuntimeCommand::UnsubscribeLogs))
            },
            KeyDecision::NextSection => {
                self.screen = self.screen.next_primary(self.config.mode);
                None
            },
            KeyDecision::Help => {
                self.set_notice("Tab sections · Esc home · arrows select · Enter open · q quit");
                None
            },
            KeyDecision::Up => {
                self.move_up();
                None
            },
            KeyDecision::Down => {
                self.move_down();
                None
            },
            KeyDecision::ScrollUp => {
                self.log_scroll = self.log_scroll.saturating_sub(10);
                None
            },
            KeyDecision::ScrollDown => {
                self.log_scroll = self.log_scroll.saturating_add(10);
                None
            },
            KeyDecision::Enter => self.enter(),
            KeyDecision::StartFilter => {
                self.filter_mode = true;
                None
            },
            KeyDecision::Details => self.open_details(),
            KeyDecision::Logs => self.open_logs(),
            KeyDecision::Request(action) => self.request_action(action),
            KeyDecision::ChangeSetting(right) => {
                self.change_setting(right);
                None
            },
            KeyDecision::ToggleFollow => {
                self.log_follow = !self.log_follow;
                self.subscribe_logs()
            },
            KeyDecision::ClearLogs => {
                self.data.logs.clear();
                None
            },
            KeyDecision::ClearEvents => {
                self.data.events.clear();
                None
            },
            KeyDecision::Nothing => None,
        }
    }

    /// Apply one report of the supervisor.
    pub fn apply_runtime_event(&mut self, event: RuntimeEvent)
        ensures
            event_spec(*old(self), event, *final(self)),
    {
        match event {
            RuntimeEvent::Connection { state, message } => {
                self.connection = state;
                self.notice = Some(message);
            },
            RuntimeEvent::Snapshot { containers } => {
                self.data.containers = containers;
                let n = self.data.containers.len();
                if self.selected_container >= n {
                    self.selected_container = if n > 0 {
                        n - 1
                    } else {
                        0
                    };
                }
            },
            RuntimeEvent::Inventory { images, volumes, networks, host_memory, gpu } => {
                self.data.images = images;
                self.data.volumes = volumes;
                self.data.networks = networks;
                self.data.host_memory = host_memory;
                self.data.gpu = gpu;
            },
            RuntimeEvent::Details(details) => {
                self.data.details = Some(details);
            },
            RuntimeEvent::DockerEvent(e) => {
                self.data.events.push(e);
            },
            RuntimeEvent::Log(line) => {
                self.data.logs.push(line);
                if self.log_follow {
                    self.log_scroll = u16::MAX;
                }
            },
            RuntimeEvent::LogsEnded(message) => {
                self.notice = Some(message);
            },
            RuntimeEvent::ActionFinished { action, name } => {
                self.pending_action = false;
                let mut text = chars_of(action.label());
                push_str(&mut text, " completed for ");
                push_str(&mut text, name.as_str());
                self.notice = Some(string_of(&text));
            },
            RuntimeEvent::Error(message) => {
                self.pending_action = false;
                self.notice = Some(message);
            },
        }
    }
}

/// Position of the first `x` in `v`.
fn position(v: &Vec<usize>, x: usize) -> (r: Option<usize>)
    ensures
        match r {
            Some(i) => index_of(v@, x) == Some(i as int) && i < v@.len(),
            None => index_of(v@, x) is None,
        },
{
    let mut i: usize = 0;
    assert(v@.skip(0) == v@);
    while i < v.len()
        invariant
            i <= v.len(),
            index_of(v@, x) == (match index_of(v@.skip(i as int), x) {
                Some(k) => Some(k + i),
                None => None,
            }),
        decreases v.len() - i,
    {
        if v[i] == x {
            assert(v@.skip(i as int)[0] == x);
            return Some(i);
        }
        assert(v@.skip(i as int).drop_first() == v@.skip(i + 1));
        i += 1;
    }
    None
}

/// The rows `start..end` of a listing shown in a table of `viewport` rows:
/// the window ends at the selected row once that row is past the first
/// screen (a selection not listed counts as the first row), and holds at most
/// `viewport` rows.
pub open spec fn window_spec(visible: Seq<usize>, selected: usize, viewport: nat) -> (nat, nat) {
    let p: nat = match index_of(visible, selected) {
        Some(k) => k as nat,
        None => 0,
    };
    let start: nat = if p + 1 > viewport {
        (p + 1 - viewport) as nat
    } else {
        0
    };
    let end: nat = if start + viewport < visible.len() {
        start + viewport
    } else {
        visible.len()
    };
    (start, end)
}

/// The window of the container table that keeps the selected row in view.
pub fn scroll_window(visible: &Vec<usize>, selected: usize, viewport: usize) -> (r: (usize, usize))
    ensures
        (r.0 as nat, r.1 as nat) == window_spec(visible@, selected, viewport as nat),
        r.1 <= visible@.len(),
        viewport > 0 || visible@.len() > 0 ==> r.0 <= r.1,
{
    let len = visible.len();
    let found = position(visible, selected);
    let p: usize = match found {
        Some(k) => k,
        None => 0,
    };
    assert(p < len || p == 0);
    let start: usize = if p >= viewport {
        (p + 1) - viewport
    } else {
        0
    };
    let end: usize = if start < len && viewport < len - start {
        start + viewport
    } else {
        len
    };
    (start, end)
}

// ---------------------------------------------------------------------------
// Properties of the container listing
// ---------------------------------------------------------------------------

/// `vis` lists exactly the rows of `cs` that pass the stopped-row and filter
/// tests, each once.
pub open spec fn lists_exactly(
    cs: Seq<ContainerRow>,
    vis: Seq<usize>,
    show_stopped: bool,
    filter: Seq<char>,
) -> bool {
    &&& forall|a: int| 0 <= a < vis.len() ==> (#[trigger] vis[a]) < cs.len() && shown(
        cs[vis[a] as int],
        show_stopped,
        filter,
    )
    &&& forall|i: int| 0 <= i < cs.len() && #[trigger] shown(cs[i], show_stopped, filter)
        ==> vis.contains(i as usize)
    &&& forall|a: int, b: int| 0 <= a < b < vis.len() ==> #[trigger] vis[a] != #[trigger] vis[b]
}

/// The rows listed by `vis` come in key order; rows with equal keys keep
/// the order they have in `cs`.
pub open spec fn in_key_order(cs: Seq<ContainerRow>, vis: Seq<usize>, sort: SortOrder) -> bool {
    forall|a: int, b: int|
        0 <= a < b < vis.len() ==> {
            let ka = row_key(cs[#[trigger] vis[a] as int], sort);
            let kb = row_key(cs[#[trigger] vis[b] as int], sort);
            key_lt(ka, kb) || (ka == kb && vis[a] < vis[b])
        }
}

proof fn lemma_shown_positions(cs: Seq<ContainerRow>, show_stopped: bool, filter: Seq<char>)
    requires
        cs.len() <= usize::MAX,
    ensures
        shown_positions(cs, show_stopped, filter).len() <= cs.len(),
        forall|a: int|
            0 <= a < shown_positions(cs, show_stopped, filter).len() ==> {
                let i = #[trigger] shown_positions(cs, show_stopped, filter)[a];
                i < cs.len() && shown(cs[i as int], show_stopped, filter)
            },
        forall|a: int, b: int|
            0 <= a < b < shown_positions(cs, show_stopped, filter).len() ==> #[trigger] shown_positions(
                cs,
                show_stopped,
                filter,
            )[a] < #[trigger] shown_positions(cs, show_stopped, filter)[b],
        forall|i: int|
            0 <= i < cs.len() && #[trigger] shown(cs[i], show_stopped, filter) ==> shown_positions(
                cs,
                show_stopped,
                filter,
            ).contains(i as usize),
    decreases cs.len(),
{
    if cs.len() > 0 {
        let prev = cs.drop_last();
        lemma_shown_positions(prev, show_stopped, filter);
        let sp = shown_positions(cs, show_stopped, filter);
        let pp = shown_positions(prev, show_stopped, filter);
        let last = (cs.len() - 1) as usize;
        let keep = shown(cs.last(), show_stopped, filter);
        assert(keep ==> sp == pp.push(last));
        assert(!keep ==> sp == pp);
        assert forall|a: int| 0 <= a < sp.len() implies {
            let i = #[trigger] sp[a];
            i < cs.len() && shown(cs[i as int], show_stopped, filter)
        } by {
            if a < pp.len() {
                let i = pp[a];
                assert(sp[a] == i);
                assert(i < prev.len() && shown(prev[i as int], show_stopped, filter));
                assert(prev[i as int] == cs[i as int]);
            } else {
                assert(keep && sp[a] == last);
            }
        }
        assert forall|a: int, b: int| 0 <= a < b < sp.len() implies #[trigger] sp[a] < #[trigger] sp[b] by {
            if b < pp.len() {
                assert(sp[a] == pp[a] && sp[b] == pp[b]);
            } else {
                assert(sp[a] == pp[a] && pp[a] < prev.len());
            }
        }
        assert forall|i: int| 0 <= i < cs.len() && #[trigger] shown(cs[i], show_stopped, filter) implies sp.contains(
            i as usize,
        ) by {
            if i < cs.len() - 1 {
                assert(prev[i] == cs[i]);
                assert(shown(prev[i], show_stopped, filter));
                assert(pp.contains(i as usize));
                let w = choose|w: int| 0 <= w < pp.len() && pp[w] == i as usize;
                assert(sp[w] == pp[w]);
            } else {
                assert(keep);
                assert(sp[sp.len() - 1] == i as usize);
            }
        }
    }
}

/// The container listing is a sorted selection: it holds every row that
/// passes the stopped-row and filter tests and nothing else, each row once,
/// ordered by the sort key with ties left in the order the rows arrived in.
pub proof fn lemma_listing_is_sorted_selection(
    cs: Seq<ContainerRow>,
    sort: SortOrder,
    show_stopped: bool,
    filter: Seq<char>,
)
    requires
        cs.len() <= usize::MAX,
    ensures
        lists_exactly(cs, visible_spec(cs, sort, show_stopped, filter), show_stopped, filter),
        in_key_order(cs, visible_spec(cs, sort, show_stopped, filter), sort),
{
    let sp = shown_positions(cs, show_stopped, filter);
    lemma_shown_positions(cs, show_stopped, filter);
    let keys = shown_keys(cs, sp, sort);
    assert(keys.len() == sp.len());
    lemma_stable_order_exists(keys);
    let p = sorted_positions(keys);
    let vis = visible_spec(cs, sort, show_stopped, filter);
    assert(vis == p.map_values(|j: usize| sp[j as int]));
    assert forall|a: int| 0 <= a < vis.len() implies (#[trigger] vis[a]) < cs.len() && shown(
        cs[vis[a] as int],
        show_stopped,
        filter,
    ) by {
        assert(p[a] < sp.len());
        assert(vis[a] == sp[p[a] as int]);
    }
    assert forall|i: int| 0 <= i < cs.len() && #[trigger] shown(cs[i], show_stopped, filter) implies vis.contains(
        i as usize,
    ) by {
        let j = choose|j: int| 0 <= j < sp.len() && sp[j] == i as usize;
        assert((j as usize) < keys.len());
        assert(p.contains(j as usize));
        let a = choose|a: int| 0 <= a < p.len() && p[a] == j as usize;
        assert(vis[a] == i as usize);
    }
    assert forall|a: int, b: int| 0 <= a < b < vis.len() implies #[trigger] vis[a] != #[trigger] vis[b] by {
        assert(before(keys, p[a] as int, p[b] as int));
        if p[a] == p[b] {
            lemma_before_irreflexive(keys, p[a] as int);
        }
        if sp[p[a] as int] == sp[p[b] as int] {
            if p[a] < p[b] {
                assert(sp[p[a] as int] < sp[p[b] as int]);
            } else {
                assert(sp[p[b] as int] < sp[p[a] as int]);
            }
        }
    }
    assert forall|a: int, b: int| 0 <= a < b < vis.len() implies {
        let ka = row_key(cs[#[trigger] vis[a] as int], sort);
        let kb = row_key(cs[#[trigger] vis[b] as int], sort);
        key_lt(ka, kb) || (ka == kb && vis[a] < vis[b])
    } by {
        assert(before(keys, p[a] as int, p[b] as int));
        assert(keys[p[a] as int] == row_key(cs[vis[a] as int], sort));
        assert(keys[p[b] as int] == row_key(cs[vis[b] as int], sort));
        if p[a] < p[b] {
            assert(sp[p[a] as int] < sp[p[b] as int]);
        }
    }
}

/// Listed rows `vis` are in the order the sort `sort` asks for: by name
/// (ASCII case ignored) or by state ascending, by CPU share (in the order
/// `f64::total_cmp` gives), by memory or by start time (newest first)
/// descending; rows that compare equal stay in the order they arrived in.
pub open spec fn sorted_as_chosen(cs: Seq<ContainerRow>, vis: Seq<usize>, sort: SortOrder) -> bool {
    forall|a: int, b: int|
        0 <= a < b < vis.len() ==> {
            let x = cs[#[trigger] vis[a] as int];
            let y = cs[#[trigger] vis[b] as int];
            &&& sort is Memory ==> x.metrics.memory_bytes > y.metrics.memory_bytes || (
            x.metrics.memory_bytes == y.metrics.memory_bytes && vis[a] < vis[b])
            &&& sort is Uptime ==> x.started > y.started || (x.started == y.started && vis[a]
                < vis[b])
            &&& sort is Cpu ==> float_order(x.metrics.cpu_percent_bits) > float_order(
                y.metrics.cpu_percent_bits,
            ) || (float_order(x.metrics.cpu_percent_bits) == float_order(
                y.metrics.cpu_percent_bits,
            ) && vis[a] < vis[b])
            &&& sort is Name ==> text_lt(lower(x.name@), lower(y.name@)) || (lower(x.name@)
                == lower(y.name@) && vis[a] < vis[b])
            &&& sort is Status ==> text_lt(x.state@, y.state@) || (x.state@ == y.state@ && vis[a]
                < vis[b])
        }
}

/// The listing follows the chosen sort (see `sorted_as_chosen`).
pub proof fn lemma_listing_follows_sort(
    cs: Seq<ContainerRow>,
    sort: SortOrder,
    show_stopped: bool,
    filter: Seq<char>,
)
    requires
        cs.len() <= usize::MAX,
    ensures
        sorted_as_chosen(cs, visible_spec(cs, sort, show_stopped, filter), sort),
{
    lemma_listing_is_sorted_selection(cs, sort, show_stopped, filter);
    let vis = visible_spec(cs, sort, show_stopped, filter);
    assert forall|a: int, b: int| 0 <= a < b < vis.len() implies {
        let x = cs[#[trigger] vis[a] as int];
        let y = cs[#[trigger] vis[b] as int];
        &&& sort is Memory ==> x.metrics.memory_bytes > y.metrics.memory_bytes || (
        x.metrics.memory_bytes == y.metrics.memory_bytes && vis[a] < vis[b])
        &&& sort is Uptime ==> x.started > y.started || (x.started == y.started && vis[a] < vis[b])
        &&& sort is Cpu ==> float_order(x.metrics.cpu_percent_bits) > float_order(
            y.metrics.cpu_percent_bits,
        ) || (float_order(x.metrics.cpu_percent_bits) == float_order(y.metrics.cpu_percent_bits)
            && vis[a] < vis[b])
        &&& sort is Name ==> text_lt(lower(x.name@), lower(y.name@)) || (lower(x.name@) == lower(
            y.name@,
        ) && vis[a] < vis[b])
        &&& sort is Status ==> text_lt(x.state@, y.state@) || (x.state@ == y.state@ && vis[a]
            < vis[b])
    } by {
        let x = cs[vis[a] as int];
        let y = cs[vis[b] as int];
        let ka = row_key(x, sort);
        let kb = row_key(y, sort);
        assert(key_lt(ka, kb) || (ka == kb && vis[a] < vis[b]));
        assert(!text_lt(Seq::<char>::empty(), Seq::<char>::empty()));
    }
}

/// Hiding stopped containers, or typing a filter, only removes rows from
/// the listing: a row listed under the narrower view is listed under the
/// wider one.
pub proof fn lemma_narrower_view_lists_fewer(
    cs: Seq<ContainerRow>,
    sort: SortOrder,
    show_stopped: bool,
    filter: Seq<char>,
)
    requires
        cs.len() <= usize::MAX,
    ensures
        forall|a: int|
            0 <= a < visible_spec(cs, sort, false, filter).len() ==> visible_spec(
                cs,
                sort,
                true,
                filter,
            ).contains(#[trigger] visible_spec(cs, sort, false, filter)[a]),
        forall|a: int|
            0 <= a < visible_spec(cs, sort, show_stopped, filter).len() ==> visible_spec(
                cs,
                sort,
                show_stopped,
                Seq::empty(),
            ).contains(#[trigger] visible_spec(cs, sort, show_stopped, filter)[a]),
{
    lemma_listing_is_sorted_selection(cs, sort, false, filter);
    lemma_listing_is_sorted_selection(cs, sort, true, filter);
    lemma_listing_is_sorted_selection(cs, sort, show_stopped, filter);
    lemma_listing_is_sorted_selection(cs, sort, show_stopped, Seq::empty());
    let narrow = visible_spec(cs, sort, false, filter);
    assert forall|a: int| 0 <= a < narrow.len() implies visible_spec(cs, sort, true, filter).contains(
        #[trigger] narrow[a],
    ) by {
        let i = narrow[a] as int;
        assert(shown(cs[i], true, filter));
    }
    let filtered = visible_spec(cs, sort, show_stopped, filter);
    assert forall|a: int| 0 <= a < filtered.len() implies visible_spec(
        cs,
        sort,
        show_stopped,
        Seq::empty(),
    ).contains(#[trigger] filtered[a]) by {
        let i = filtered[a] as int;
        assert(shown(cs[i], show_stopped, Seq::empty()));
    }
}

// ---------------------------------------------------------------------------
// Properties of the key bindings
// ---------------------------------------------------------------------------

/// Stop, restart and pause are never sent on the key that requests them: an
/// action of these kinds goes to the supervisor only on Enter, and only the
/// action of the confirmation that was pending.
pub proof fn lemma_disruptive_actions_need_confirmation(
    app: App,
    key: Key,
    new: App,
    eff: Option<Effect>,
)
    requires
        step_spec(app, key_decision(app, key), new, eff),
    ensures
        eff matches Some(Effect::Send(RuntimeCommand::Action { action, .. })) ==> (
        action is Stop || action is Restart || action is Pause) ==> {
            &&& key.code == KeyCode::Enter
            &&& app.confirm matches Some((pending, _))
            &&& pending == action
        },
{
}

/// A refused or confirmed request never leaves two actions in flight: while
/// an action is pending, requesting another changes nothing and sends
/// nothing.
pub proof fn lemma_one_action_at_a_time(app: App, action: ContainerAction, new: App, eff: Option<Effect>)
    requires
        app.pending_action,
        request_spec(app, action, new, eff),
    ensures
        new == app,
        eff is None,
{
}

/// Changing a setting with Right and then with Left (or Left, then Right)
/// gives back the settings one started from.
pub proof fn lemma_setting_change_undone(c: Config, row: usize, right: bool)
    ensures
        changed_config(changed_config(c, row, right), row, !right) == c,
{
    if row == 1 {
        crate::config::lemma_theme_cycle_inverse(c.theme);
    } else if row == 2 {
        crate::config::lemma_sort_cycle_inverse(c.sort);
    }
}

/// Typing a character into a filter and erasing it gives back the filter.
pub proof fn lemma_erase_undoes_typing(
    app: App,
    c: char,
    mid: App,
    new: App,
    e1: Option<Effect>,
    e2: Option<Effect>,
)
    requires
        step_spec(app, KeyDecision::TypeFilter(c), mid, e1),
        step_spec(mid, KeyDecision::EraseFilter, new, e2),
    ensures
        new.filter@ == app.filter@,
        new.event_filter@ == app.event_filter@,
        new.log_filter@ == app.log_filter@,
        new == (App {
            filter: new.filter,
            event_filter: new.event_filter,
            log_filter: new.log_filter,
            ..app
        }),
        (e1 is None) && (e2 is None),
{
    assert(app.filter@.push(c).drop_last() == app.filter@);
    assert(app.event_filter@.push(c).drop_last() == app.event_filter@);
    assert(app.log_filter@.push(c).drop_last() == app.log_filter@);
}

proof fn lemma_index_of(s: Seq<usize>, x: usize)
    ensures
        (match index_of(s, x) {
            Some(k) => 0 <= k < s.len() && s[k] == x,
            None => !s.contains(x),
        }),
    decreases s.len(),
{
    if s.len() > 0 && s[0] != x {
        lemma_index_of(s.drop_first(), x);
        if index_of(s.drop_first(), x) is None {
            assert forall|a: int| 0 <= a < s.len() implies s[a] != x by {
                if a > 0 {
                    assert(s[a] == s.drop_first()[a - 1]);
                }
            }
        }
    }
}

/// Down on the container list puts the cursor on a listed row whenever the
/// list is not empty, and Up keeps a cursor that is on a listed row on one.
pub proof fn lemma_cursor_stays_on_listing(app: App, new: App)
    requires
        app.screen == Screen::Containers,
    ensures
        move_down_spec(app, new) && app_visible(app).len() > 0 ==> app_visible(new).contains(
            new.selected_container,
        ),
        move_up_spec(app, new) && app_visible(app).contains(app.selected_container)
            ==> app_visible(new).contains(new.selected_container),
{
    let vis = app_visible(app);
    lemma_index_of(vis, app.selected_container);
    if move_down_spec(app, new) && vis.len() > 0 {
        assert(app_visible(new) == vis);
        match index_of(vis, app.selected_container) {
            Some(k) => {
                if k + 1 < vis.len() {
                    assert(vis[k + 1] == new.selected_container);
                } else {
                    assert(vis[k] == new.selected_container);
                }
            },
            None => {
                assert(vis[0] == new.selected_container);
            },
        }
    }
    if move_up_spec(app, new) && vis.contains(app.selected_container) {
        assert(app_visible(new) == vis);
        match index_of(vis, app.selected_container) {
            Some(k) => {
                if k > 0 {
                    assert(vis[k - 1] == new.selected_container);
                } else {
                    assert(vis[k] == new.selected_container);
                }
            },
            None => {},
        }
    }
}

/// After a container snapshot the cursor is on one of its rows (or at 0 when
/// the snapshot is empty), and a cursor already on a row stays put.
pub proof fn lemma_snapshot_keeps_cursor_in_range(app: App, containers: Vec<ContainerRow>, new: App)
    requires
        event_spec(app, RuntimeEvent::Snapshot { containers }, new),
    ensures
        containers@.len() > 0 ==> new.selected_container < containers@.len(),
        containers@.len() == 0 ==> new.selected_container == 0,
        app.selected_container < containers@.len() ==> new.selected_container
            == app.selected_container,
{
}

} // verus!
