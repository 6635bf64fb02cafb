use dtop::docker::RawStats;
use dtop::host::delta::{
    busiest_disks, busiest_nets, core_deltas, disk_deltas, net_deltas, proc_deltas, refresh_due,
    stats_delta, tick_delta, top_processes, MAX_PROCESSES,
};
use dtop::host::proc::{CoreRaw, DiskRaw, NetRaw, ProcRaw};

fn disk(name: &str, read: u64, written: u64) -> DiskRaw {
    DiskRaw { name: name.into(), sectors_read: read, sectors_written: written, ..Default::default() }
}

fn net(name: &str, rx: u64, tx: u64) -> NetRaw {
    NetRaw { name: name.into(), rx_bytes: rx, tx_bytes: tx, ..Default::default() }
}

fn proc_raw(pid: i32, utime: u64, stime: u64, rss_pages: u64) -> ProcRaw {
    ProcRaw { pid, name: format!("p{pid}"), state: 'S', utime, stime, rss_pages, threads: 1 }
}

#[test]
fn tick_delta_counts_busy_ticks() {
    let d = tick_delta(CoreRaw { total: 1000, idle: 800 }, CoreRaw { total: 2000, idle: 1200 });
    assert_eq!((d.total, d.busy), (1000, 600));
    let same = tick_delta(CoreRaw { total: 100, idle: 80 }, CoreRaw { total: 100, idle: 80 });
    assert_eq!((same.total, same.busy), (0, 0));
    // A counter that went backwards counts as no progress.
    let back = tick_delta(CoreRaw { total: 500, idle: 10 }, CoreRaw { total: 400, idle: 5 });
    assert_eq!((back.total, back.busy), (0, 0));
}

#[test]
fn core_deltas_pair_cores_by_position() {
    let previous = vec![CoreRaw { total: 10, idle: 5 }, CoreRaw { total: 20, idle: 10 }];
    let current = vec![
        CoreRaw { total: 20, idle: 6 },
        CoreRaw { total: 40, idle: 20 },
        CoreRaw { total: 99, idle: 1 },
    ];
    let d = core_deltas(&current, &previous);
    assert_eq!(d.len(), 2);
    assert_eq!((d[0].total, d[0].busy), (10, 9));
    assert_eq!((d[1].total, d[1].busy), (20, 10));
}

#[test]
fn disk_deltas_use_sectors_times_512() {
    let previous = vec![disk("sda", 100, 50), disk("sda", 200, 60)];
    let current = vec![disk("sda", 300, 150), disk("nvme0n1", 10, 20)];
    let d = disk_deltas(&current, &previous);
    assert_eq!(d.len(), 2);
    assert_eq!(d[0].name, "sda");
    assert_eq!((d[0].read_bytes, d[0].write_bytes), (153_600, 76_800));
    // The later sample of a repeated name is the one compared against.
    assert_eq!((d[0].read_sectors, d[0].write_sectors), (100, 90));
    assert_eq!((d[1].read_sectors, d[1].write_sectors), (10, 20));
}

#[test]
fn net_deltas_from_two_samples() {
    let previous = vec![net("eth0", 1000, 2000)];
    let current = vec![net("eth0", 3000, 1500), net("wlan0", 5, 6)];
    let d = net_deltas(&current, &previous);
    assert_eq!((d[0].rx_bytes, d[0].rx_delta, d[0].tx_delta), (3000, 2000, 0));
    assert_eq!((d[1].rx_delta, d[1].tx_delta), (5, 6));
}

#[test]
fn proc_deltas_by_pid() {
    let previous = vec![proc_raw(1, 100, 50, 10)];
    let current = vec![proc_raw(1, 200, 60, 1024), proc_raw(2, 15, 0, u64::MAX)];
    let d = proc_deltas(&current, &previous);
    assert_eq!(d[0].ticks, 110);
    assert_eq!(d[0].rss_bytes, 1024 * 4096);
    assert_eq!(d[1].ticks, 15);
    assert_eq!(d[1].rss_bytes, u64::MAX);
    assert_eq!(d[1].name, "p2");
}

#[test]
fn stats_delta_needs_a_previous_sample() {
    let raw = RawStats {
        cpu_total: 2000,
        system_cpu: 20_000,
        online_cpus: 0,
        network_rx: 500,
        ..Default::default()
    };
    let first = stats_delta(&raw, None);
    assert!(first.cpu.is_none());
    assert_eq!(first.cpus, 1);
    assert_eq!(first.network_rx, 0);
    let before = RawStats { cpu_total: 1000, system_cpu: 10_000, network_rx: 700, ..Default::default() };
    let d = stats_delta(&raw, Some(&before));
    assert_eq!(d.cpu, Some((1000, 10_000)));
    assert_eq!(d.network_rx, 0);
    let idle = RawStats { system_cpu: 20_000, cpu_total: 2000, ..Default::default() };
    assert!(stats_delta(&raw, Some(&idle)).cpu.is_none());
}

#[test]
fn top_processes_rank_by_cpu_then_memory() {
    let ranks = vec![
        (1.0f64.to_bits(), 10),
        (5.0f64.to_bits(), 1),
        (1.0f64.to_bits(), 30),
        (0.0f64.to_bits(), 99),
        (5.0f64.to_bits(), 1),
    ];
    assert_eq!(top_processes(&ranks), vec![1, 4, 2, 0, 3]);
}

#[test]
fn top_processes_keep_at_most_max() {
    let ranks: Vec<(u64, u64)> = (0..100u64).map(|i| ((i as f64).to_bits(), 0)).collect();
    let top = top_processes(&ranks);
    assert_eq!(top.len(), MAX_PROCESSES);
    assert_eq!(top[0], 99);
    assert_eq!(top[63], 36);
}

#[test]
fn periodic_reads_fall_due() {
    assert!(refresh_due(None, 2000));
    assert!(!refresh_due(Some(1999), 2000));
    assert!(refresh_due(Some(2000), 2000));
}

#[test]
fn interfaces_are_listed_busiest_first() {
    // With no previous sample, everything counted so far has moved.
    let quiet_then_busy = net_deltas(&vec![net("lo0", 10, 0), net("eth0", 600, 400)], &vec![]);
    assert_eq!(busiest_nets(&quiet_then_busy), vec![1, 0]);
    // Against a previous sample: eth0 moved 300, wlan0 500, tun0 300 (ties keep order).
    let previous = vec![net("eth0", 1000, 1000), net("wlan0", 0, 0), net("tun0", 50, 50)];
    let current = vec![net("eth0", 1100, 1200), net("wlan0", 250, 250), net("tun0", 350, 50)];
    assert_eq!(busiest_nets(&net_deltas(&current, &previous)), vec![1, 0, 2]);
    // Sums beyond u64::MAX still rank above smaller ones.
    let huge = net_deltas(&vec![net("a", 5, 5), net("b", u64::MAX, u64::MAX)], &vec![]);
    assert_eq!(busiest_nets(&huge), vec![1, 0]);
    assert!(busiest_nets(&Vec::new()).is_empty());
}

#[test]
fn disks_are_listed_busiest_first() {
    let previous = vec![disk("sda", 100, 50), disk("sdb", 0, 0), disk("nvme0n1", 10, 10)];
    let current = vec![disk("sda", 300, 150), disk("sdb", 1, 1), disk("nvme0n1", 1010, 10)];
    // Moved: sda 300 sectors, sdb 2, nvme0n1 1000.
    assert_eq!(busiest_disks(&disk_deltas(&current, &previous)), vec![2, 0, 1]);
}

#[test]
fn busy_ticks_saturate_when_idle_outgrows_total() {
    let prev = CoreRaw { total: 1000, idle: 100 };
    let current = CoreRaw { total: 1100, idle: 400 };
    let d = tick_delta(prev, current);
    assert_eq!((d.total, d.busy), (100, 0));
}
