//! Screens of the monitor, the connection state and the data on display.
use vstd::prelude::*;

use crate::config::Mode;
use crate::docker::{GpuInfo, HostMemory};
use crate::model::{
    BoundedLines, ContainerDetails, ContainerRow, DockerEvent, ImageRow, LogLine, NetworkRow,
    VolumeRow,
};

verus! {

#[derive(Clone, Copy, Debug, Eq, PartialEq, Structural)]
pub enum Screen {
    Home,
    // Docker mode
    Overview,
    Containers,
    Details,
    Logs,
    Events,
    Images,
    Volumes,
    Networks,
    // All mode
    System,
    Cpu,
    Memory,
    Disk,
    Network,
    Processes,
    // Shared
    Settings,
}

/// The sections the Tab key cycles through, in order, for each mode.
pub open spec fn primary_screens(mode: Mode) -> Seq<Screen> {
    match mode {
        Mode::Docker => seq![
            Screen::Overview,
            Screen::Containers,
            Screen::Events,
            Screen::Images,
            Screen::Volumes,
            Screen::Networks,
            Screen::Settings,
        ],
        Mode::All => seq![
            Screen::System,
            Screen::Cpu,
            Screen::Memory,
            Screen::Disk,
            Screen::Network,
            Screen::Processes,
            Screen::Settings,
        ],
    }
}

/// Position of `s` among the primary screens of `mode`, 0 when it is not one
/// of them.
pub open spec fn primary_position(mode: Mode, s: Screen) -> int {
    let p = primary_screens(mode);
    if p[0] == s {
        0
    } else if p[1] == s {
        1
    } else if p[2] == s {
        2
    } else if p[3] == s {
        3
    } else if p[4] == s {
        4
    } else if p[5] == s {
        5
    } else if p[6] == s {
        6
    } else {
        0
    }
}

/// The section Tab leads to from `s`.
pub open spec fn next_primary_spec(mode: Mode, s: Screen) -> Screen {
    primary_screens(mode)[(primary_position(mode, s) + 1) % 7]
}

pub open spec fn screen_label(s: Screen) -> Seq<char> {
    match s {
        Screen::Home => "Home"@,
        Screen::Overview => "Overview"@,
        Screen::Containers => "Containers"@,
        Screen::Details => "Details"@,
        Screen::Logs => "Logs"@,
        Screen::Events => "Events"@,
        Screen::Images => "Images"@,
        Screen::Volumes => "Volumes"@,
        Screen::Networks => "Networks"@,
        Screen::System => "System"@,
        Screen::Cpu => "CPU"@,
        Screen::Memory => "Memory"@,
        Screen::Disk => "Disk"@,
        Screen::Network => "Network"@,
        Screen::Processes => "Processes"@,
        Screen::Settings => "Settings"@,
    }
}

impl Screen {
    pub fn label(self) -> (r: &'static str)
        ensures
            r@ == screen_label(self),
    {
        match self {
            Screen::Home => "Home",
            Screen::Overview => "Overview",
            Screen::Containers => "Containers",
            Screen::Details => "Details",
            Screen::Logs => "Logs",
            Screen::Events => "Events",
            Screen::Images => "Images",
            Screen::Volumes => "Volumes",
            Screen::Networks => "Networks",
            Screen::System => "System",
            Screen::Cpu => "CPU",
            Screen::Memory => "Memory",
            Screen::Disk => "Disk",
            Screen::Network => "Network",
            Screen::Processes => "Processes",
            Screen::Settings => "Settings",
        }
    }

    /// The Tab cycle of `mode`: Docker sections, or btop-style host screens,
    /// each followed by Settings.
    pub fn primary(mode: Mode) -> (r: [Screen; 7])
        ensures
            r@ == primary_screens(mode),
    {
        match mode {
            Mode::Docker => {
                let r = [
                    Screen::Overview,
                    Screen::Containers,
                    Screen::Events,
                    Screen::Images,
                    Screen::Volumes,
                    Screen::Networks,
                    Screen::Settings,
                ];
                assert(r@ =~= primary_screens(mode));
                r
            },
            Mode::All => {
                let r = [
                    Screen::System,
                    Screen::Cpu,
                    Screen::Memory,
                    Screen::Disk,
                    Screen::Network,
                    Screen::Processes,
                    Screen::Settings,
                ];
                assert(r@ =~= primary_screens(mode));
                r
            },
        }
    }

    /// The section after this one in the Tab cycle of `mode`; from a screen
    /// outside the cycle, the second section.
    pub fn next_primary(self, mode: Mode) -> (r: Self)
        ensures
            r == next_primary_spec(mode, self),
    {
        let primary = Screen::primary(mode);
        let current: usize = if primary[0] == self {
            0
        } else if primary[1] == self {
            1
        } else if primary[2] == self {
            2
        } else if primary[3] == self {
            3
        } else if primary[4] == self {
            4
        } else if primary[5] == self {
            5
        } else if primary[6] == self {
            6
        } else {
            0
        };
        primary[(current + 1) % 7]
    }
}

/// Seven presses of Tab from a section of the cycle come back to it, after
/// visiting every section of the cycle once.
pub proof fn lemma_tab_cycle(mode: Mode, k: int)
    requires
        0 <= k < 7,
    ensures
        primary_position(mode, primary_screens(mode)[k]) == k,
        next_primary_spec(mode, primary_screens(mode)[k]) == primary_screens(mode)[(k + 1) % 7],
{
}

#[derive(Clone, Copy, Debug, Eq, PartialEq, Structural)]
pub enum ConnectionState {
    Connecting,
    Connected,
    Unavailable,
    PermissionDenied,
    Error,
}

impl ConnectionState {
    pub fn label(self) -> (r: &'static str)
        ensures
            r@ == (match self {
                ConnectionState::Connecting => "connecting"@,
                ConnectionState::Connected => "connected"@,
                ConnectionState::Unavailable => "daemon unavailable"@,
                ConnectionState::PermissionDenied => "permission denied"@,
                ConnectionState::Error => "error"@,
            }),
    {
        match self {
            ConnectionState::Connecting => "connecting",
            ConnectionState::Connected => "connected",
            ConnectionState::Unavailable => "daemon unavailable",
            ConnectionState::PermissionDenied => "permission denied",
            ConnectionState::Error => "error",
        }
    }
}

impl Default for ConnectionState {
    fn default() -> (r: Self)
        ensures
            r == ConnectionState::Connecting,
    {
        ConnectionState::Connecting
    }
}

/// Capacity of the Docker event buffer.
pub const EVENT_BUFFER: usize = 200;

/// Capacity of the log buffer.
pub const LOG_BUFFER: usize = 5000;

/// What the Docker screens display.
#[derive(Debug)]
pub struct AppData {
    pub containers: Vec<ContainerRow>,
    pub details: Option<ContainerDetails>,
    pub images: Vec<ImageRow>,
    pub volumes: Vec<VolumeRow>,
    pub networks: Vec<NetworkRow>,
    pub events: BoundedLines<DockerEvent>,
    pub logs: BoundedLines<LogLine>,
    pub host_memory: HostMemory,
    pub gpu: GpuInfo,
}

impl AppData {
    /// Nothing loaded yet: empty lists, empty buffers for 200 events and
    /// 5000 log lines, no GPU.
    pub fn new() -> (d: Self)
        ensures
            d.containers@.len() == 0,
            d.details is None,
            d.images@.len() == 0,
            d.volumes@.len() == 0,
            d.networks@.len() == 0,
            d.events.items@.len() == 0,
            d.events.capacity == EVENT_BUFFER,
            d.logs.items@.len() == 0,
            d.logs.capacity == LOG_BUFFER,
            d.host_memory == HostMemory::zero(),
            !d.gpu.present,
    {
        AppData {
            containers: Vec::new(),
            details: None,
            images: Vec::new(),
            volumes: Vec::new(),
            networks: Vec::new(),
            events: BoundedLines::new(EVENT_BUFFER),
            logs: BoundedLines::new(LOG_BUFFER),
            host_memory: HostMemory::new(),
            gpu: GpuInfo::none(),
        }
    }
}

} // verus!
