pub mod adapter;
pub mod gpu;
pub mod host;
pub mod stats;

pub use adapter::{
    clamp_to_epoch, container_meta, container_row, details, event, format_attributes, format_ports, image,
    log_lines, network, parse_timestamp, volume, EventFields, HostBinding, ImageFields,
    InspectConfig, InspectFields, InspectNetwork, InspectState, MountFields, NetworkFields,
    PortBindings, PortSpec, SummaryFields, VolumeFields,
};
pub use gpu::{detect_gpus, parse_mb, parse_nvidia_smi, parse_rocm_smi, GpuDevice, GpuInfo};
pub use host::{host_memory_from, parse_kb, HostMemory};
pub use stats::{raw_stats, sum_metrics, RawStats, StatsFields};
