use dtop::docker::{
    container_meta, container_row, detect_gpus, details, event, format_attributes, format_ports,
    host_memory_from, image, log_lines, network, parse_kb, parse_mb, parse_nvidia_smi,
    parse_rocm_smi, parse_timestamp, clamp_to_epoch, raw_stats, sum_metrics, volume, EventFields, GpuInfo, HostBinding,
    ImageFields, InspectConfig, InspectFields, InspectNetwork, InspectState, MountFields,
    NetworkFields, PortBindings, PortSpec, StatsFields, SummaryFields, VolumeFields,
};
use dtop::model::{ContainerMeta, LogStream, Metrics, ResourceDelta};

fn empty_summary() -> SummaryFields {
    SummaryFields {
        id: None,
        names: None,
        image: None,
        state: None,
        status: None,
        created: None,
        ports: None,
    }
}

#[test]
fn none_when_no_gpu() {
    let info = GpuInfo::none();
    assert!(!info.is_present());
    assert_eq!(info.memory_summary(), "—");
}

#[test]
fn parse_kb_handles_meminfo_line() {
    assert_eq!(parse_kb("MemTotal:       16261224 kB"), 16_261_224);
    assert_eq!(parse_kb("garbage"), 0);
}

#[test]
fn parses_rfc3339_timestamp() {
    assert_eq!(parse_timestamp("2020-01-01T00:00:00Z"), Some(1_577_836_800));
    assert_eq!(parse_timestamp("2020-01-01T00:00:00.123456789Z"), Some(1_577_836_800));
}

#[test]
fn parses_unknown_timestamp_without_panicking() {
    assert_eq!(parse_timestamp("not-a-time"), None);
}

#[test]
fn timestamps_before_the_epoch_clamp_to_zero() {
    assert_eq!(parse_timestamp("1969-12-31T23:59:00Z"), Some(0));
}

#[test]
fn metrics_are_safe_for_missing_stats() {
    let row = container_row(&empty_summary(), None, None);
    assert_eq!(f64::from_bits(row.metrics.cpu_percent_bits), 0.0);
    assert_eq!(row.state, "unknown");
    assert_eq!(row.health, "none");
}

#[test]
fn container_row_uses_names_state_and_meta() {
    let summary = SummaryFields {
        id: Some("0123456789abcdef".into()),
        names: Some(vec!["//web".into()]),
        image: Some("nginx".into()),
        state: Some("Running".into()),
        status: Some("Up 2 hours".into()),
        created: Some(7),
        ports: Some(vec![
            PortSpec { private_port: 80, public_port: Some(8080), kind: Some("Tcp".into()) },
            PortSpec { private_port: 53, public_port: None, kind: Some("Udp".into()) },
        ]),
    };
    let meta = ContainerMeta { started: 100, restart_count: 2, health: "healthy".into() };
    let metrics = Metrics { cpu_percent_bits: 12.5f64.to_bits(), memory_bytes: 5, ..Metrics::default() };
    let row = container_row(&summary, Some((metrics, ResourceDelta::default())), Some(&meta));
    assert_eq!(row.name, "web");
    assert_eq!(row.state, "running");
    assert_eq!(row.ports, "8080:80/tcp, -:53/udp");
    assert_eq!(row.restart_count, 2);
    assert_eq!(row.started, 100);
    assert_eq!(row.created, 7);
    assert_eq!(f64::from_bits(row.metrics.cpu_percent_bits), 12.5);
    let unnamed = SummaryFields { id: Some("0123456789abcdef".into()), ..empty_summary() };
    assert_eq!(container_row(&unnamed, None, None).name, "0123456789ab");
}

#[test]
fn container_meta_reads_inspect_fields() {
    let meta = container_meta(Some("2020-01-01T00:00:00Z"), Some(3), Some("Healthy"));
    assert_eq!(meta.started, 1_577_836_800);
    assert_eq!(meta.restart_count, 3);
    assert_eq!(meta.health, "healthy");
    let bare = container_meta(Some("soon"), None, None);
    assert_eq!(bare.started, 0);
    assert_eq!(bare.health, "none");
}

#[test]
fn format_ports_without_ports_is_empty() {
    assert_eq!(format_ports(&None), "");
    assert_eq!(format_ports(&Some(Vec::new())), "");
}

#[test]
fn format_attributes_takes_three() {
    let attrs = vec![
        ("a".to_string(), "1".to_string()),
        ("b".to_string(), "2".to_string()),
        ("c".to_string(), "3".to_string()),
        ("d".to_string(), "4".to_string()),
    ];
    assert_eq!(format_attributes(&attrs), "a=1 b=2 c=3");
    assert_eq!(format_attributes(&Vec::new()), "");
}

#[test]
fn log_output_splits_lines_and_caps_length() {
    let mut output = log_lines(LogStream::Stdout, "hello\r\nworld\n");
    assert_eq!(output.len(), 2);
    assert_eq!(output.remove(0).text, "hello");
    assert_eq!(output.remove(0).text, "world");
}

#[test]
fn log_lines_cap_long_lines() {
    let long = "x".repeat(5000);
    let lines = log_lines(LogStream::Stderr, &long);
    assert_eq!(lines.len(), 1);
    assert_eq!(lines[0].text.chars().count(), 4096);
    assert_eq!(lines[0].stream, LogStream::Stderr);
    assert!(log_lines(LogStream::Console, "").is_empty());
}

#[test]
fn host_memory_from_meminfo_and_swaps() {
    let meminfo = "MemTotal:       1000 kB\nMemFree: 1 kB\nMemAvailable:    400 kB\n";
    let swaps = "Filename Type Size Used Priority\n/dev/zram0 partition 100 10 100\n/swapfile file 200 20 -2\n";
    let m = host_memory_from(Some(meminfo), Some(swaps));
    assert_eq!(m.ram_total, 1000 * 1024);
    assert_eq!(m.ram_used, 600 * 1024);
    assert_eq!(m.zram_total, 100 * 1024);
    assert_eq!(m.zram_used, 10 * 1024);
    assert_eq!(m.swapfile_total, 200 * 1024);
    assert_eq!(m.swapfile_used, 20 * 1024);
    assert_eq!(m.total(), 1300 * 1024);
    assert_eq!(m.used(), 630 * 1024);
    let none = host_memory_from(None, None);
    assert_eq!(none.total(), 0);
}

#[test]
fn parses_nvidia_smi_csv() {
    let text = "0, NVIDIA GeForce RTX 3080, 35, 2048, 10240\n\n1, Tesla T4, 0, 0, 15360\nbad line\n";
    let info = parse_nvidia_smi(text).unwrap();
    assert!(info.is_present());
    assert_eq!(info.vendor, "NVIDIA");
    assert_eq!(info.gpus.len(), 2);
    assert_eq!(info.gpus[0].name, "NVIDIA GeForce RTX 3080");
    assert_eq!(info.gpus[0].utilization, 35);
    assert_eq!(info.gpus[1].index, 1);
    assert_eq!(info.memory_summary(), "2048 MiB / 25600 MiB");
    assert!(parse_nvidia_smi("").is_none());
}

#[test]
fn parses_rocm_smi_output() {
    let text = "\
======================= ROCm System Management Interface =======================
GPU[0]\t\t: card series
GPU[0]\t\t: GPU use (%): 12%
GPU[0]\t\t: vram Total Memory (B): 999
";
    let info = parse_rocm_smi(text).unwrap();
    assert_eq!(info.vendor, "AMD");
    assert_eq!(info.gpus.len(), 3);
    assert_eq!(info.gpus[0].index, 0);
    assert_eq!(info.gpus[1].index, 1);
    assert_eq!(info.gpus[1].utilization, 0);
    assert!(parse_rocm_smi("no gpus here\n").is_none());
    let simple = parse_rocm_smi("GPU[ ] Radeon \n GPU use: 55%%\nvram Used 7\nvram 300 Used\nvram 4096 Total\n").unwrap();
    assert_eq!(simple.gpus.len(), 1);
    assert_eq!(simple.gpus[0].name, "Radeon");
    assert_eq!(simple.gpus[0].utilization, 55);
    // The second whitespace-separated field is the number; the last
    // matching line wins.
    assert_eq!(simple.gpus[0].memory_used_mb, 300);
    assert_eq!(simple.gpus[0].memory_total_mb, 4096);
    assert_eq!(parse_mb("vram 4096 Total"), 4096);
    assert_eq!(parse_mb("vram Total 4096"), 0);
}

#[test]
fn detect_gpus_prefers_nvidia() {
    let nvidia = parse_nvidia_smi("0, A, 1, 2, 3\n");
    let amd = parse_rocm_smi("GPU[0] B\n");
    assert_eq!(detect_gpus(nvidia, amd.clone()).vendor, "NVIDIA");
    assert_eq!(detect_gpus(None, amd).vendor, "AMD");
    assert!(!detect_gpus(None, None).is_present());
}

fn empty_stats() -> StatsFields {
    StatsFields {
        cpu_total: None,
        system_cpu: None,
        online_cpus: None,
        memory_usage: None,
        memory_limit: None,
        networks: None,
        block_io: None,
        pids: None,
    }
}

#[test]
fn raw_stats_defaults_when_fields_are_missing() {
    let raw = raw_stats(&empty_stats());
    assert_eq!(raw.cpu_total, 0);
    assert_eq!(raw.online_cpus, 1);
    assert_eq!(raw.network_rx, 0);
    assert_eq!(raw.block_write, 0);
    assert_eq!(raw.pids, 0);
}

#[test]
fn raw_stats_sums_networks_and_block_io() {
    let fields = StatsFields {
        cpu_total: Some(500),
        system_cpu: Some(9000),
        online_cpus: Some(4),
        memory_usage: Some(1024),
        memory_limit: Some(4096),
        networks: Some(vec![(Some(10), Some(20)), (None, Some(5)), (Some(7), None)]),
        block_io: Some(vec![
            (Some("Read".into()), Some(100)),
            (Some("write".into()), Some(40)),
            (Some("sync".into()), Some(999)),
            (Some("READ".into()), Some(1)),
            (None, Some(3)),
            (Some("write".into()), None),
        ]),
        pids: Some(12),
    };
    let raw = raw_stats(&fields);
    assert_eq!(raw.cpu_total, 500);
    assert_eq!(raw.system_cpu, 9000);
    assert_eq!(raw.online_cpus, 4);
    assert_eq!(raw.memory, 1024);
    assert_eq!(raw.memory_limit, 4096);
    assert_eq!((raw.network_rx, raw.network_tx), (17, 25));
    assert_eq!((raw.block_read, raw.block_write), (101, 40));
    assert_eq!(raw.pids, 12);
}

#[test]
fn raw_stats_sums_wrap_around() {
    let mut fields = empty_stats();
    fields.networks = Some(vec![(Some(u64::MAX), Some(0)), (Some(2), Some(0))]);
    assert_eq!(raw_stats(&fields).network_rx, 1);
}

#[test]
fn details_from_inspect_fields() {
    let fields = InspectFields {
        id: Some("abc".into()),
        name: Some("//web".into()),
        created: Some("2024-01-01T00:00:00Z".into()),
        restart_count: Some(2),
        config: Some(InspectConfig {
            image: Some("nginx:latest".into()),
            cmd: Some(vec!["nginx".into(), "-g".into(), "daemon off;".into()]),
            env: Some(vec!["DB_PASS=hunter2".into()]),
        }),
        state: Some(InspectState {
            started_at: Some("2024-01-02T00:00:00Z".into()),
            status: Some("RUNNING".into()),
            health: None,
        }),
        network: Some(InspectNetwork {
            ports: Some(vec![
                PortBindings {
                    container_port: "80/tcp".into(),
                    bindings: Some(vec![
                        HostBinding { host_ip: Some("0.0.0.0".into()), host_port: Some("8080".into()) },
                        HostBinding { host_ip: None, host_port: Some("8081".into()) },
                    ]),
                },
                PortBindings { container_port: "443/tcp".into(), bindings: None },
            ]),
            networks: Some(vec!["bridge".into()]),
        }),
        mounts: Some(vec![MountFields { source: Some("/data".into()), destination: None }]),
    };
    let d = details(&fields);
    let shown = [&d.id, &d.name, &d.image, &d.command, &d.created, &d.started, &d.status, &d.health];
    assert!(shown.iter().all(|text| !text.contains("DB_PASS") && !text.contains("hunter2")));
    assert!(d.ports.iter().chain(&d.mounts).chain(&d.networks).all(|t| !t.contains("hunter2")));
    assert_eq!(d.id, "abc");
    assert_eq!(d.name, "web");
    assert_eq!(d.image, "nginx:latest");
    assert_eq!(d.command, "nginx -g daemon off;");
    assert_eq!(d.started, "2024-01-02T00:00:00Z");
    assert_eq!(d.status, "RUNNING");
    assert_eq!(d.health, "none");
    assert_eq!(d.restart_count, 2);
    assert_eq!(d.ports, vec!["80/tcp -> 0.0.0.0:8080".to_string(), "80/tcp -> :8081".to_string()]);
    assert_eq!(d.mounts, vec!["/data -> ".to_string()]);
    assert_eq!(d.networks, vec!["bridge".to_string()]);
}

#[test]
fn details_without_config_lists_no_ports() {
    let fields = InspectFields {
        id: None,
        name: None,
        created: None,
        restart_count: None,
        config: None,
        state: None,
        network: Some(InspectNetwork {
            ports: Some(vec![PortBindings {
                container_port: "80/tcp".into(),
                bindings: Some(vec![HostBinding { host_ip: None, host_port: None }]),
            }]),
            networks: None,
        }),
        mounts: None,
    };
    let d = details(&fields);
    assert!(d.ports.is_empty());
    assert_eq!(d.health, "none");
    assert_eq!(d.command, "");
    assert!(d.networks.is_empty());
}

#[test]
fn image_volume_network_rows() {
    let row = image(ImageFields {
        id: "sha256:1".into(),
        repo_tags: vec!["app:1".into()],
        size: -5,
        created: 7,
    });
    assert_eq!(row.size_bytes, 0);
    assert_eq!(row.tags, vec!["app:1".to_string()]);
    let vol = volume(VolumeFields {
        name: "data".into(),
        driver: "local".into(),
        mountpoint: "/var/lib/docker/volumes/data".into(),
        scope: None,
    });
    assert_eq!(vol.scope, "");
    assert_eq!(vol.driver, "local");
    let net = network(NetworkFields {
        id: Some("n1".into()),
        name: Some("bridge".into()),
        driver: None,
        scope: Some("local".into()),
    });
    assert_eq!(net.name, "bridge");
    assert_eq!(net.driver, "");
    assert_eq!(net.containers, 0);
}

#[test]
fn event_row_formats_attributes() {
    let e = event(&EventFields {
        time: Some(42),
        kind: Some("Container".into()),
        action: Some("start".into()),
        actor_id: Some("abc".into()),
        attributes: Some(vec![
            ("image".into(), "nginx".into()),
            ("name".into(), "web".into()),
            ("a".into(), "1".into()),
            ("b".into(), "2".into()),
        ]),
    });
    assert_eq!(e.timestamp, 42);
    assert_eq!(e.kind, "Container");
    assert_eq!(e.attributes, "image=nginx name=web a=1");
    let empty = event(&EventFields { time: None, kind: None, action: None, actor_id: None, attributes: None });
    assert_eq!(empty.timestamp, 0);
    assert_eq!(empty.attributes, "");
}

fn usage(memory: u64, limit: u64, rx: u64, tx: u64, read: u64, write: u64, pids: u64) -> Metrics {
    Metrics {
        cpu_percent_bits: 7.5_f64.to_bits(),
        memory_bytes: memory,
        memory_limit: limit,
        network_rx_bytes: rx,
        network_tx_bytes: tx,
        block_read_bytes: read,
        block_write_bytes: write,
        pids,
    }
}

#[test]
fn sum_metrics_adds_every_counter() {
    let all = vec![usage(100, 1000, 1, 2, 3, 4, 5), usage(50, 500, 10, 20, 30, 40, 6)];
    let total = sum_metrics(&all, 12.25_f64.to_bits());
    assert_eq!(f64::from_bits(total.cpu_percent_bits), 12.25);
    assert_eq!(total.memory_bytes, 150);
    assert_eq!(total.memory_limit, 1500);
    assert_eq!(total.network_rx_bytes, 11);
    assert_eq!(total.network_tx_bytes, 22);
    assert_eq!(total.block_read_bytes, 33);
    assert_eq!(total.block_write_bytes, 44);
    assert_eq!(total.pids, 11);
}

#[test]
fn sum_metrics_of_nothing_is_zero_and_wraps_on_overflow() {
    let none = sum_metrics(&Vec::new(), 0);
    assert_eq!(none.memory_bytes, 0);
    assert_eq!(none.pids, 0);
    let big = vec![usage(u64::MAX, 0, 0, 0, 0, 0, 0), usage(2, 0, 0, 0, 0, 0, 0)];
    assert_eq!(sum_metrics(&big, 0).memory_bytes, 1);
}

#[test]
fn clamp_to_epoch_keeps_later_times_and_clamps_earlier_ones() {
    assert_eq!(clamp_to_epoch(Some(1_577_836_800)), Some(1_577_836_800));
    assert_eq!(clamp_to_epoch(Some(-60)), Some(0));
    assert_eq!(clamp_to_epoch(None), None);
}
