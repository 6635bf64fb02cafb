use dtop::host::proc::{
    is_ignored_virtual, is_physical_whole, is_real_fstype, is_virtual_whole, parse_diskstats,
    parse_mounts, parse_net_dev, parse_partitions, parse_pid, parse_proc_stat_line, parse_stat,
    parse_tgid, process_from, unescape_mount, Capacities,
};

fn capacities() -> Capacities {
    Capacities::new()
}

#[test]
fn parse_stat_aggregate_and_cores() {
    let contents = "\
cpu  100 0 50 800 100 0 10 0 0 0
cpu0 50 0 20 400 50 0 5 0 0 0
cpu1 50 0 30 400 50 0 5 0 0 0
intr 12345
ctxt 67890
";
    let (agg, cores) = parse_stat(contents);
    // total = user+nice+system+idle+iowait+irq+softirq+steal
    assert_eq!(agg.total, 100 + 50 + 800 + 100 + 10);
    assert_eq!(agg.idle, 800 + 100); // idle + iowait
    assert_eq!(cores.len(), 2);
    assert_eq!(cores[0].total, 50 + 20 + 400 + 50 + 5);
    assert_eq!(cores[1].idle, 400 + 50);
}

#[test]
fn parse_stat_handles_short_lines() {
    let (agg, cores) = parse_stat("cpu  100 0 50 800\ncpu0 1 2 3 4\n");
    assert_eq!(agg.total, 950);
    assert_eq!(cores.len(), 1);
}

#[test]
fn parse_stat_ignores_guest_and_non_core_lines() {
    let (agg, cores) = parse_stat("cpu 1 1 1 1 1 1 1 1 7 9\ncpufreq 5 5 5\ncpu3x 1 1 1\n");
    assert_eq!(agg.total, 8);
    assert_eq!(agg.idle, 2);
    assert!(cores.is_empty());
}

#[test]
fn parse_stat_sums_wrap_instead_of_panicking() {
    let (agg, _) = parse_stat("cpu 18446744073709551615 2 0 0\n");
    assert_eq!(agg.total, 1);
}

#[test]
fn parse_diskstats_filters_partitions_and_virtual() {
    let contents = "\
   8       0 sda 100 2 3000 40 50 3 6000 60 0 100 0 100
   8       1 sda1 100 0 3000 40 0 0 0 0 0 0 0 0 0
 253       0 dm-0 0 0 0 0 0 0 0 0 0 0 0 0 0
   7       0 loop0 0 0 0 0 0 0 0 0 0 0 0 0 0
 259       0 nvme0n1 200 0 4000 10 20 0 8000 20 0 0 0 0
 259       1 nvme0n1p1 200 0 4000 10 0 0 0 0 0 0 0 0 0
";
    let disks = parse_diskstats(contents, &capacities());
    assert_eq!(disks.len(), 2);
    assert_eq!(disks[0].name, "sda");
    assert_eq!(disks[0].sectors_read, 3000);
    assert_eq!(disks[0].sectors_written, 6000);
    assert_eq!(disks[1].name, "nvme0n1");
}

#[test]
fn parse_diskstats_full_counters() {
    let contents = "   8       0 sda 100 2 3000 40 50 3 6000 60 1 700 800\n";
    let disks = parse_diskstats(contents, &capacities());
    assert_eq!(disks.len(), 1);
    let d = &disks[0];
    assert_eq!(d.reads_completed, 100);
    assert_eq!(d.writes_completed, 50);
    assert_eq!(d.time_read_ms, 40);
    assert_eq!(d.time_write_ms, 60);
    assert_eq!(d.ios_in_progress, 1);
    assert_eq!(d.io_time_ms, 700);
    assert_eq!(d.weighted_ms, 800);
}

#[test]
fn parse_diskstats_falls_back_to_dm_when_no_physical() {
    let contents = "\
 253       0 dm-0 100 0 3000 40 50 0 6000 60 0 100 200 300
   7       0 loop0 0 0 0 0 0 0 0 0 0 0 0 0 0
";
    let disks = parse_diskstats(contents, &capacities());
    assert_eq!(disks.len(), 1);
    assert_eq!(disks[0].name, "dm-0");
}

#[test]
fn parse_diskstats_falls_back_to_busiest_when_only_partitions() {
    let contents = "\
   8       1 sda1 100 0 3000 40 0 0 0 0 0 0 0 0 0
   8       2 sda2 10 0 100 4 0 0 0 0 0 0 0 0 0
";
    let disks = parse_diskstats(contents, &capacities());
    // No whole disk and no dm/md: busiest entries so the panel stays alive.
    assert_eq!(disks.len(), 2);
    assert_eq!(disks[0].name, "sda1");
}

#[test]
fn parse_diskstats_busiest_tier_keeps_eight_in_stable_order() {
    let mut contents = String::new();
    for i in 1..=10 {
        let busy = if i % 2 == 0 { 500 } else { 100 };
        contents.push_str(&format!("   8 {i} sda{i} 1 0 {busy} 0 0 0 0 0 0 0 0 0\n"));
    }
    let disks = parse_diskstats(&contents, &capacities());
    let names: Vec<&str> = disks.iter().map(|d| d.name.as_str()).collect();
    assert_eq!(names, vec!["sda2", "sda4", "sda6", "sda8", "sda10", "sda1", "sda3", "sda5"]);
}

#[test]
fn parse_diskstats_attaches_capacity() {
    let contents = "   8       0 sda 100 2 3000 40 50 3 6000 60 0 100 0 100\n";
    let mut caps = Capacities::new();
    caps.insert("sda".to_owned(), 150 * 1024 * 1024 * 1024);
    let disks = parse_diskstats(contents, &caps);
    assert_eq!(disks[0].capacity_bytes, 150 * 1024 * 1024 * 1024);
}

#[test]
fn parse_net_dev_skips_lo_and_headers() {
    let contents = "\
Inter-|   Receive                                                |  Transmit
 face |bytes    packets errs drop fifo frame compressed multicast|bytes    packets errs drop fifo colls carrier compressed
    lo: 1000 10 0 0 0 0 0 0 1000 10 0 0 0 0 0 0
  eth0: 5000 20 0 0 0 0 0 0 8000 30 0 0 0 0 0 0
 docker0: 111 1 0 0 0 0 0 0 222 2 0 0 0 0 0 0
";
    let nets = parse_net_dev(contents);
    assert_eq!(nets.len(), 2);
    assert_eq!(nets[0].name, "eth0");
    assert_eq!(nets[0].rx_bytes, 5000);
    assert_eq!(nets[0].tx_bytes, 8000);
    assert_eq!(nets[1].name, "docker0");
    assert_eq!(nets[1].rx_bytes, 111);
    assert_eq!(nets[1].tx_bytes, 222);
}

#[test]
fn parse_net_dev_full_counters() {
    let contents = " eth0: 5000 20 1 2 0 0 0 0 8000 30 3 4 0 0 0 0\n";
    let nets = parse_net_dev(contents);
    assert_eq!(nets.len(), 1);
    let n = &nets[0];
    assert_eq!((n.rx_packets, n.tx_packets), (20, 30));
    assert_eq!((n.rx_errs, n.rx_drop), (1, 2));
    assert_eq!((n.tx_errs, n.tx_drop), (3, 4));
}

#[test]
fn parse_net_dev_skips_short_counter_lines() {
    let nets = parse_net_dev("eth1: 1 2 3\nwlan0: 9 8 7 6 5 4 3 2 1 0 0 0 0 0 0 x\n");
    assert_eq!(nets.len(), 1);
    assert_eq!(nets[0].name, "wlan0");
    assert_eq!(nets[0].tx_bytes, 1);
    assert_eq!(nets[0].tx_drop, 0);
}

#[test]
fn parse_proc_stat_line_comm_with_spaces_and_parens() {
    // comm "(some) weird (name)" — must split at the last ')'
    let line = "1234 (some) weird (name) S 100 200 300 400 500 600 700 800 900 1000 1100 1200 \
         1300 1400 1500 1600 1700 1800 1900 2000 2100 2200 2300 2400 2500";
    let raw = parse_proc_stat_line(line).unwrap();
    assert_eq!(raw.name, "some) weird (name");
    assert_eq!(raw.state, 'S');
    assert_eq!(raw.utime, 1100);
    assert_eq!(raw.stime, 1200);
    assert_eq!(raw.threads, 1700);
    assert_eq!(raw.rss_pages, 2100);
}

#[test]
fn parse_proc_stat_line_rejects_missing_parens() {
    assert!(parse_proc_stat_line("1234 bash S 1 2 3").is_none());
    assert!(parse_proc_stat_line("1234 )bash( S 1 2 3").is_none());
    let raw = parse_proc_stat_line("7 (x)").unwrap();
    assert_eq!(raw.state, '?');
    assert_eq!(raw.utime, 0);
}

#[test]
fn parse_tgid_reads_first_tgid_line() {
    assert_eq!(parse_tgid("Name:\tbash\nTgid:\t42\nPid:\t43\n"), 42);
    assert_eq!(parse_tgid("Name:\tbash\n"), -1);
    assert_eq!(parse_tgid("Tgid:\tabc\nTgid:\t5\n"), -1);
    assert_eq!(parse_tgid("Tgid: -7\n"), -7);
}

#[test]
fn process_from_skips_threads() {
    let stat = "42 (worker) R 1 2 3 4 5 6 7 8 9 10 11 12 13 14 15 16 17 18 19 20 21 22";
    let leader = process_from(42, stat, "Tgid:\t42\n").unwrap();
    assert_eq!(leader.pid, 42);
    assert_eq!(leader.name, "worker");
    assert_eq!(leader.utime, 11);
    assert!(process_from(43, stat, "Tgid:\t42\n").is_none());
    assert_eq!(parse_pid("1234"), Some(1234));
    assert_eq!(parse_pid("self"), None);
}

#[test]
fn is_whole_disk_heuristics() {
    assert!(is_physical_whole("sda"));
    assert!(is_physical_whole("vda"));
    assert!(is_physical_whole("nvme0n1"));
    assert!(is_physical_whole("mmcblk0"));
    assert!(is_physical_whole("nbd0"));
    assert!(is_physical_whole("dasda"));
    assert!(!is_physical_whole("sda1"));
    assert!(!is_physical_whole("vda2"));
    assert!(!is_physical_whole("nvme0n1p1"));
    assert!(!is_physical_whole("mmcblk0p2"));
    assert!(!is_physical_whole("nbd0p1"));
    assert!(!is_physical_whole("dasda1"));
    assert!(!is_physical_whole("dm-0"));
    assert!(!is_physical_whole("md0"));
    assert!(!is_physical_whole("mmcblk0boot0"));
    assert!(is_virtual_whole("dm-0"));
    assert!(is_virtual_whole("md0"));
    assert!(is_virtual_whole("md127"));
    assert!(!is_virtual_whole("sda"));
    assert!(is_ignored_virtual("loop0"));
    assert!(is_ignored_virtual("zram0"));
    assert!(is_ignored_virtual("sr0"));
    assert!(is_ignored_virtual("ram0"));
    assert!(!is_ignored_virtual("sda"));
}

#[test]
fn whole_disk_edge_names() {
    assert!(!is_physical_whole("nvme0n1p"));
    assert!(!is_physical_whole("mmcblk0rpmb"));
    assert!(is_physical_whole("md"));
    assert!(!is_virtual_whole("dm-"));
    assert!(!is_virtual_whole("mdx"));
    assert!(is_ignored_virtual("nullb0"));
    assert!(is_ignored_virtual("fd0"));
}

#[test]
fn parse_mounts_keeps_block_filesystems_only() {
    let contents = "\
/dev/sda3 / btrfs rw,noatime 0 0
/dev/sda2 /efi vfat rw 0 0
proc /proc proc rw 0 0
tmpfs /tmp tmpfs rw 0 0
overlay /var/lib/docker/overlay overlay rw 0 0
/dev/sda3 / btrfs rw,noatime 0 0
";
    let mut caps = Capacities::new();
    caps.insert("sda3".to_owned(), 100 * 1024 * 1024 * 1024);
    let mounts = parse_mounts(contents, &caps);
    // Duplicate (device, mountpoint) pair collapses; pseudo-fs skipped.
    assert_eq!(mounts.len(), 2);
    assert_eq!(mounts[0].mountpoint, "/");
    assert_eq!(mounts[0].size_bytes, 100 * 1024 * 1024 * 1024);
    assert_eq!(mounts[1].mountpoint, "/efi");
}

#[test]
fn parse_mounts_unescapes_and_sorts() {
    let contents = "/dev/sdb1 /mnt/my\\040disk ext4 rw 0 0\n/dev/sda1 /boot ext4 rw 0 0\n";
    let mounts = parse_mounts(contents, &Capacities::new());
    assert_eq!(mounts.len(), 2);
    assert_eq!(mounts[0].mountpoint, "/boot");
    assert_eq!(mounts[1].mountpoint, "/mnt/my disk");
    assert_eq!(mounts[1].device, "/dev/sdb1");
    assert_eq!(unescape_mount("a\\011b\\012c\\\\d"), "a\tb\nc\\d");
    assert!(is_real_fstype("xfs"));
    assert!(!is_real_fstype("tmpfs"));
}

#[test]
fn parse_partitions_blocks_to_bytes() {
    let contents = "major minor  #blocks  name\n\n   8        0  157286400 sda\n   8        3  156977135 sda3\n";
    let map = parse_partitions(contents);
    assert_eq!(map.get("sda"), Some(157286400 * 1024));
    assert_eq!(map.get("sda3"), Some(156977135 * 1024));
}

#[test]
fn parse_partitions_later_line_wins_and_saturates() {
    let map = parse_partitions("8 0 10 sda\n8 0 20 sda\n8 1 18446744073709551615 big\n");
    assert_eq!(map.get("sda"), Some(20 * 1024));
    assert_eq!(map.get("big"), Some(u64::MAX));
    assert_eq!(map.get("sdb"), None);
}
