//! User settings: the display choices, their cycling order, validation, and
//! where the settings file lives. Reading and writing the file is left to the
//! caller.
use vstd::prelude::*;

use crate::error::DtopError;
use crate::text::{
    chars_of, has_prefix, opt_string, push_str, starts_with_str, string_from, string_of,
};

verus! {

/// Docker socket used when none is configured.
pub const DEFAULT_SOCKET: &'static str = "/var/run/docker.sock";

/// Stats sampling interval in milliseconds; fixed, not a setting.
pub const REFRESH_MS: u64 = 500;

/// `docker` shows containers and Docker resources; `all` is the host system
/// monitor.
#[derive(Clone, Copy, Debug, Eq, PartialEq, Structural)]
pub enum Mode {
    Docker,
    All,
}

#[derive(Clone, Copy, Debug, Eq, PartialEq, Structural)]
pub enum ThemeName {
    Default,
    Midnight,
    Amber,
    Mono,
}

#[derive(Clone, Copy, Debug, Eq, PartialEq, Structural)]
pub enum SortOrder {
    Name,
    Cpu,
    Memory,
    Uptime,
    Status,
}

#[derive(Clone, Copy, Debug, Eq, PartialEq, Structural)]
pub enum Density {
    Comfortable,
    Compact,
}

/// `true`, the default of settings added after the first release.
pub fn default_true() -> (b: bool)
    ensures
        b,
{
    true
}

// ---------------------------------------------------------------------------
// Cycling orders
// ---------------------------------------------------------------------------

/// Position of a theme in the cycle default → midnight → amber → mono.
pub open spec fn theme_index(t: ThemeName) -> int {
    match t {
        ThemeName::Default => 0,
        ThemeName::Midnight => 1,
        ThemeName::Amber => 2,
        ThemeName::Mono => 3,
    }
}

pub open spec fn theme_at(i: int) -> ThemeName {
    if i == 0 {
        ThemeName::Default
    } else if i == 1 {
        ThemeName::Midnight
    } else if i == 2 {
        ThemeName::Amber
    } else {
        ThemeName::Mono
    }
}

/// Position of a sort order in the cycle cpu → memory → uptime → name →
/// status.
pub open spec fn sort_index(s: SortOrder) -> int {
    match s {
        SortOrder::Cpu => 0,
        SortOrder::Memory => 1,
        SortOrder::Uptime => 2,
        SortOrder::Name => 3,
        SortOrder::Status => 4,
    }
}

pub open spec fn sort_at(i: int) -> SortOrder {
    if i == 0 {
        SortOrder::Cpu
    } else if i == 1 {
        SortOrder::Memory
    } else if i == 2 {
        SortOrder::Uptime
    } else if i == 3 {
        SortOrder::Name
    } else {
        SortOrder::Status
    }
}

pub open spec fn theme_label(t: ThemeName) -> Seq<char> {
    match t {
        ThemeName::Default => "default"@,
        ThemeName::Midnight => "midnight"@,
        ThemeName::Amber => "amber"@,
        ThemeName::Mono => "mono"@,
    }
}

pub open spec fn sort_label(s: SortOrder) -> Seq<char> {
    match s {
        SortOrder::Name => "name"@,
        SortOrder::Cpu => "cpu"@,
        SortOrder::Memory => "memory"@,
        SortOrder::Uptime => "uptime"@,
        SortOrder::Status => "status"@,
    }
}

impl ThemeName {
    pub fn label(self) -> (r: &'static str)
        ensures
            r@ == theme_label(self),
    {
        match self {
            ThemeName::Default => "default",
            ThemeName::Midnight => "midnight",
            ThemeName::Amber => "amber",
            ThemeName::Mono => "mono",
        }
    }

    /// The theme after this one in the cycle, wrapping around.
    pub fn next(self) -> (r: Self)
        ensures
            r == theme_at((theme_index(self) + 1) % 4),
    {
        match self {
            ThemeName::Default => ThemeName::Midnight,
            ThemeName::Midnight => ThemeName::Amber,
            ThemeName::Amber => ThemeName::Mono,
            ThemeName::Mono => ThemeName::Default,
        }
    }
}

/// The theme before `value` in the cycle, wrapping around.
pub fn previous_theme(value: ThemeName) -> (r: ThemeName)
    ensures
        r == theme_at((theme_index(value) + 3) % 4),
{
    match value {
        ThemeName::Default => ThemeName::Mono,
        ThemeName::Midnight => ThemeName::Default,
        ThemeName::Amber => ThemeName::Midnight,
        ThemeName::Mono => ThemeName::Amber,
    }
}

impl SortOrder {
    pub fn label(self) -> (r: &'static str)
        ensures
            r@ == sort_label(self),
    {
        match self {
            SortOrder::Name => "name",
            SortOrder::Cpu => "cpu",
            SortOrder::Memory => "memory",
            SortOrder::Uptime => "uptime",
            SortOrder::Status => "status",
        }
    }

    /// The sort order after this one in the cycle, wrapping around.
    pub fn next(self) -> (r: Self)
        ensures
            r == sort_at((sort_index(self) + 1) % 5),
    {
        match self {
            SortOrder::Cpu => SortOrder::Memory,
            SortOrder::Memory => SortOrder::Uptime,
            SortOrder::Uptime => SortOrder::Name,
            SortOrder::Name => SortOrder::Status,
            SortOrder::Status => SortOrder::Cpu,
        }
    }
}

/// The sort order before `value` in the cycle, wrapping around.
pub fn previous_sort(value: SortOrder) -> (r: SortOrder)
    ensures
        r == sort_at((sort_index(value) + 4) % 5),
{
    match value {
        SortOrder::Cpu => SortOrder::Status,
        SortOrder::Memory => SortOrder::Cpu,
        SortOrder::Uptime => SortOrder::Memory,
        SortOrder::Name => SortOrder::Uptime,
        SortOrder::Status => SortOrder::Name,
    }
}

impl Density {
    pub fn label(self) -> (r: &'static str)
        ensures
            r@ == (match self {
                Density::Comfortable => "comfortable"@,
                Density::Compact => "compact"@,
            }),
    {
        match self {
            Density::Comfortable => "comfortable",
            Density::Compact => "compact",
        }
    }

    pub fn toggle(self) -> (r: Self)
        ensures
            r != self,
    {
        match self {
            Density::Comfortable => Density::Compact,
            Density::Compact => Density::Comfortable,
        }
    }
}

impl Mode {
    pub fn label(self) -> (r: &'static str)
        ensures
            r@ == (match self {
                Mode::Docker => "docker"@,
                Mode::All => "all"@,
            }),
    {
        match self {
            Mode::Docker => "docker",
            Mode::All => "all",
        }
    }

    pub fn toggle(self) -> (r: Self)
        ensures
            r != self,
    {
        match self {
            Mode::Docker => Mode::All,
            Mode::All => Mode::Docker,
        }
    }
}

/// Stepping forward then back through the theme cycle returns to the start,
/// and so does stepping back then forward.
pub proof fn lemma_theme_cycle_inverse(t: ThemeName)
    ensures
        theme_at((theme_index(theme_at((theme_index(t) + 1) % 4)) + 3) % 4) == t,
        theme_at((theme_index(theme_at((theme_index(t) + 3) % 4)) + 1) % 4) == t,
{
}

/// Stepping forward then back through the sort cycle returns to the start,
/// and so does stepping back then forward.
pub proof fn lemma_sort_cycle_inverse(s: SortOrder)
    ensures
        sort_at((sort_index(sort_at((sort_index(s) + 1) % 5)) + 4) % 5) == s,
        sort_at((sort_index(sort_at((sort_index(s) + 4) % 5)) + 1) % 5) == s,
{
}

/// Every theme is reached by stepping forward from the default one, so the
/// cycle visits all four themes.
pub proof fn lemma_theme_cycle_visits_all(t: ThemeName)
    ensures
        theme_at(theme_index(t)) == t,
        0 <= theme_index(t) < 4,
{
}

/// Every sort order is reached in the cycle, which has five positions.
pub proof fn lemma_sort_cycle_visits_all(s: SortOrder)
    ensures
        sort_at(sort_index(s)) == s,
        0 <= sort_index(s) < 5,
{
}

// ---------------------------------------------------------------------------
// Settings
// ---------------------------------------------------------------------------

#[derive(Clone, Debug)]
pub struct Config {
    pub docker_socket: String,
    pub mode: Mode,
    pub theme: ThemeName,
    pub sort: SortOrder,
    pub show_stopped: bool,
    pub follow_logs: bool,
    pub density: Density,
    pub show_hints: bool,
    pub show_gpu: bool,
}

/// The default settings, apart from the socket path.
pub open spec fn is_default_choices(c: Config) -> bool {
    &&& c.mode == Mode::Docker
    &&& c.theme == ThemeName::Default
    &&& c.sort == SortOrder::Cpu
    &&& c.show_stopped
    &&& c.follow_logs
    &&& c.density == Density::Comfortable
    &&& c.show_hints
    &&& c.show_gpu
}

/// The settings a fresh installation starts with.
pub open spec fn is_default_config(c: Config) -> bool {
    &&& c.docker_socket@ == DEFAULT_SOCKET@
    &&& is_default_choices(c)
}

/// A socket path is accepted when it is absolute: it starts at the root.
pub open spec fn valid_socket(socket: Seq<char>) -> bool {
    has_prefix(socket, "/"@)
}

impl Config {
    pub fn new() -> (c: Self)
        ensures
            is_default_config(c),
    {
        Config {
            docker_socket: string_from(DEFAULT_SOCKET),
            mode: Mode::Docker,
            theme: ThemeName::Default,
            sort: SortOrder::Cpu,
            show_stopped: true,
            follow_logs: true,
            density: Density::Comfortable,
            show_hints: true,
            show_gpu: true,
        }
    }

    /// The settings, provided the Docker socket is an absolute path (the
    /// monitor only talks to a local Unix socket).
    pub fn validate(self) -> (r: Result<Self, DtopError>)
        ensures
            valid_socket(self.docker_socket@) ==> r == Ok::<Config, DtopError>(self),
            !valid_socket(self.docker_socket@) ==> (r matches Err(DtopError::InvalidSocket(s))
                && s@ == self.docker_socket@),
    {
        if starts_with_str(&chars_of(self.docker_socket.as_str()), "/") {
            Ok(self)
        } else {
            let socket = string_from(self.docker_socket.as_str());
            Err(DtopError::InvalidSocket(socket))
        }
    }
}

impl Default for Config {
    fn default() -> (c: Self)
        ensures
            is_default_config(c),
    {
        Config::new()
    }
}

/// Why no settings file could be located.
#[derive(Debug, Eq, PartialEq, Structural)]
pub enum PathError {
    HomeNotSet,
}

/// `PathBuf::from(base).join(rel)` for a relative `rel`: the two joined by a
/// `/` unless `base` is empty or already ends with one.
pub open spec fn join_path(base: Seq<char>, rel: Seq<char>) -> Seq<char> {
    if base.len() == 0 {
        rel
    } else if base.last() == '/' {
        base + rel
    } else {
        base + "/"@ + rel
    }
}

/// Where the settings file lives: the path given on the command line; else
/// `dtop/config.toml` under `$XDG_CONFIG_HOME`; else `.config/dtop/config.toml`
/// under `$HOME`.
pub open spec fn config_path_spec(
    arg: Option<Seq<char>>,
    xdg_config_home: Option<Seq<char>>,
    home: Option<Seq<char>>,
) -> Option<Seq<char>> {
    match arg {
        Some(p) => Some(p),
        None => match xdg_config_home {
            Some(base) => Some(join_path(base, "dtop/config.toml"@)),
            None => match home {
                Some(h) => Some(join_path(h, ".config/dtop/config.toml"@)),
                None => None,
            },
        },
    }
}

fn join_path_exec(base: &str, rel: &str) -> (r: String)
    ensures
        r@ == join_path(base@, rel@),
{
    let mut v = chars_of(base);
    if v.len() > 0 && v[v.len() - 1] != '/' {
        v.push('/');
    }
    push_str(&mut v, rel);
    proof {
        reveal_strlit("/");
    }
    string_of(&v)
}

/// The settings file path, from the `--config` argument and the
/// `XDG_CONFIG_HOME` and `HOME` environment variables.
pub fn config_path(arg: Option<String>, xdg_config_home: Option<String>, home: Option<String>) -> (r:
    Result<String, PathError>)
    ensures
        match r {
            Ok(p) => config_path_spec(
                opt_string(arg),
                opt_string(xdg_config_home),
                opt_string(home),
            ) == Some(p@),
            Err(_) => config_path_spec(
                opt_string(arg),
                opt_string(xdg_config_home),
                opt_string(home),
            ) is None,
        },
{
    match arg {
        Some(p) => Ok(p),
        None => match xdg_config_home {
            Some(base) => Ok(join_path_exec(base.as_str(), "dtop/config.toml")),
            None => match home {
                Some(h) => Ok(join_path_exec(h.as_str(), ".config/dtop/config.toml")),
                None => Err(PathError::HomeNotSet),
            },
        },
    }
}

} // verus!
