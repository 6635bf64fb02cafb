pub mod app_state;
pub mod container;
pub mod event;
pub mod host;
pub mod resource;

pub use app_state::{AppData, ConnectionState, Screen};
pub use container::{
    format_duration, ContainerMeta, ContainerRow, Metrics, ResourceDelta,
};
pub use event::{DockerEvent, LogLine, LogStream};
pub use host::FsRow;
pub use resource::{BoundedLines, ContainerDetails, ImageRow, NetworkRow, VolumeRow};
