use ktop::procs::{ProcInfo, SortBy};
use ktop::stats::{
    best_network, first_big_disk, is_loopback, pct, top_processes, CpuSample, DiskSample,
    NetSample, ProcSample, Sample, SystemStats,
};

fn cpu(usage: f32, frequency: u64, brand: &str) -> CpuSample {
    CpuSample { usage_bits: usage.to_bits(), frequency, brand: brand.to_string() }
}

fn disk(name: &str, total_space: u64, available_space: u64) -> DiskSample {
    DiskSample { name: name.to_string(), total_space, available_space }
}

fn net(name: &str, received: u64, transmitted: u64, total_received: u64, total_transmitted: u64) -> NetSample {
    NetSample { name: name.to_string(), received, transmitted, total_received, total_transmitted }
}

fn proc_sample(pid: u32, name: &str, cpu: f32, memory: u64) -> ProcSample {
    ProcSample { pid, name: name.to_string(), cpu_bits: cpu.to_bits(), memory }
}

fn row(pid: u32, name: &str, cpu: f32, mem_mb: u64) -> ProcInfo {
    ProcInfo { pid, name: name.to_string(), cpu_bits: cpu.to_bits(), mem_mb }
}

fn cpu_of(p: &ProcInfo) -> f32 {
    f32::from_bits(p.cpu_bits)
}

fn pids(v: &[ProcInfo]) -> Vec<u32> {
    v.iter().map(|p| p.pid).collect()
}

fn empty_sample() -> Sample {
    Sample {
        cpu_total_bits: 0,
        cpus: vec![],
        total_memory: 0,
        used_memory: 0,
        total_swap: 0,
        used_swap: 0,
        disks: vec![],
        networks: vec![],
        processes: vec![],
    }
}

#[test]
fn pct_is_integer_share() {
    assert_eq!(pct(50, 200), 25);
    assert_eq!(pct(1, 3), 33);
    assert_eq!(pct(2, 3), 66);
    assert_eq!(pct(10, 10), 100);
}

#[test]
fn pct_of_zero_total_is_zero() {
    assert_eq!(pct(0, 0), 0);
    assert_eq!(pct(7, 0), 0);
}

#[test]
fn pct_over_total_exceeds_hundred() {
    assert_eq!(pct(3, 2), 150);
}

#[test]
fn loopback_is_only_lo() {
    assert!(is_loopback(&"lo".to_string()));
    assert!(!is_loopback(&"lo0".to_string()));
    assert!(!is_loopback(&"eth0".to_string()));
    assert!(!is_loopback(&"".to_string()));
    assert!(!is_loopback(&"l".to_string()));
}

#[test]
fn first_big_disk_skips_small_ones() {
    let disks = vec![disk("tmpfs", 500_000_000, 0), disk("exact", 1_000_000_000, 0), disk("sda1", 2_000_000_000, 0), disk("sdb1", 9_000_000_000, 0)];
    assert_eq!(first_big_disk(&disks), Some(2));
    assert_eq!(first_big_disk(&vec![disk("tmpfs", 10, 0)]), None);
    assert_eq!(first_big_disk(&vec![]), None);
}

#[test]
fn best_network_skips_loopback_and_keeps_first_of_ties() {
    let nets = vec![
        net("lo", 1, 1, 900, 900),
        net("eth0", 1, 1, 100, 5),
        net("wlan0", 1, 1, 300, 5),
        net("eth1", 1, 1, 300, 5),
    ];
    assert_eq!(best_network(&nets), Some(2));
    assert_eq!(best_network(&vec![net("lo", 1, 1, 5, 5), net("eth0", 9, 9, 0, 0)]), None);
}

#[test]
fn top_processes_keeps_ten_busiest_in_order() {
    let mut rows = Vec::new();
    for i in 0..15u32 {
        rows.push(row(i, "p", (i % 5) as f32, 1));
    }
    let top = top_processes(rows);
    assert_eq!(top.len(), 10);
    // usages 4 (pids 4, 9, 14), then 3 (3, 8, 13), then 2 (2, 7, 12), then 1 (1)
    assert_eq!(pids(&top), vec![4, 9, 14, 3, 8, 13, 2, 7, 12, 1]);
}

#[test]
fn top_processes_with_few_keeps_all() {
    let top = top_processes(vec![row(1, "a", 0.5, 1), row(2, "b", 2.5, 1)]);
    assert_eq!(pids(&top), vec![2, 1]);
    assert_eq!(cpu_of(&top[0]), 2.5);
}

#[test]
fn from_sample_fills_every_panel() {
    let sample = Sample {
        cpu_total_bits: 37.5f32.to_bits(),
        cpus: vec![cpu(10.0, 2400, "Ryzen"), cpu(65.0, 2300, "other")],
        total_memory: 16 * 1024 * 1024,
        used_memory: 4 * 1024 * 1024,
        total_swap: 2048,
        used_swap: 1024,
        disks: vec![disk("tmpfs", 1000, 10), disk("/dev/sda1", 4_000_000_000, 1_000_000_000)],
        networks: vec![net("lo", 9999, 9999, 99_999_999, 99_999_999), net("eth0", 4096, 2048, 3 * 1024 * 1024, 5 * 1024 * 1024)],
        processes: vec![proc_sample(10, "idle", 0.0, 2048), proc_sample(20, "busy", 80.0, 4096)],
    };
    let s = SystemStats::from_sample(&sample);
    assert_eq!(f32::from_bits(s.cpu_total_bits), 37.5);
    assert_eq!(s.cpu_core_bits, vec![10.0f32.to_bits(), 65.0f32.to_bits()]);
    assert_eq!(s.cpu_freq, 2400);
    assert_eq!(s.cpu_name, "Ryzen");
    assert_eq!(s.mem_total, 16 * 1024);
    assert_eq!(s.mem_used, 4 * 1024);
    assert_eq!(s.mem_percent, 25);
    assert_eq!(s.swap_total, 2);
    assert_eq!(s.swap_used, 1);
    assert_eq!(s.swap_percent, 50);
    assert_eq!(s.disk_name, "/dev/sda1");
    assert_eq!(s.disk_total_bytes, 4_000_000_000);
    assert_eq!(s.disk_used_bytes, 3_000_000_000);
    assert_eq!(s.disk_percent, 75);
    assert_eq!(s.net_iface, "eth0");
    assert_eq!(s.net_rx_kbs, 4);
    assert_eq!(s.net_tx_kbs, 2);
    assert_eq!(s.net_rx_total_mb, 3);
    assert_eq!(s.net_tx_total_mb, 5);
    assert_eq!(pids(&s.processes), vec![20, 10]);
    assert_eq!(s.processes[0].name, "busy");
    assert_eq!(s.processes[0].mem_mb, 4);
    assert_eq!(cpu_of(&s.processes[0]), 80.0);
    assert!(s.disk_dirs.is_empty());
}

#[test]
fn from_empty_sample_leaves_defaults() {
    let s = SystemStats::from_sample(&empty_sample());
    assert_eq!(s.cpu_freq, 0);
    assert_eq!(s.cpu_name, "");
    assert!(s.cpu_core_bits.is_empty());
    assert_eq!(s.mem_percent, 0);
    assert_eq!(s.disk_name, "");
    assert_eq!(s.disk_percent, 0);
    assert_eq!(s.net_iface, "");
    assert_eq!(s.net_rx_kbs, 0);
    assert!(s.processes.is_empty());
}

#[test]
fn disk_fully_available_is_zero_percent() {
    let mut sample = empty_sample();
    sample.disks = vec![disk("sda", 2_000_000_000, 3_000_000_000)];
    let s = SystemStats::from_sample(&sample);
    assert_eq!(s.disk_used_bytes, 0);
    assert_eq!(s.disk_percent, 0);
}

#[test]
fn default_stats_are_empty() {
    let s = SystemStats::default();
    assert_eq!(s.mem_total, 0);
    assert_eq!(s.net_iface, "");
    assert!(s.processes.is_empty());
}

fn table() -> SystemStats {
    let mut s = SystemStats::default();
    s.processes = vec![
        row(30, "zsh", 1.5, 300),
        row(10, "bash", 7.0, 100),
        row(20, "Xorg", 1.5, 300),
        row(40, "apt", 0.0, 50),
    ];
    s
}

#[test]
fn sort_processes_by_each_order() {
    let mut s = table();
    s.sort_processes(SortBy::CpuDesc);
    assert_eq!(pids(&s.processes), vec![10, 30, 20, 40]);
    s.sort_processes(SortBy::CpuAsc);
    assert_eq!(pids(&s.processes), vec![40, 30, 20, 10]);
    s = table();
    s.sort_processes(SortBy::MemDesc);
    assert_eq!(pids(&s.processes), vec![30, 20, 10, 40]);
    s = table();
    s.sort_processes(SortBy::MemAsc);
    assert_eq!(pids(&s.processes), vec![40, 10, 30, 20]);
    s.sort_processes(SortBy::Pid);
    assert_eq!(pids(&s.processes), vec![10, 20, 30, 40]);
    s.sort_processes(SortBy::Name);
    // byte order: upper case before lower case
    assert_eq!(pids(&s.processes), vec![20, 40, 10, 30]);
}

#[test]
fn sort_processes_is_stable_and_idempotent() {
    let mut s = table();
    s.sort_processes(SortBy::MemDesc);
    let once = pids(&s.processes);
    s.sort_processes(SortBy::MemDesc);
    assert_eq!(pids(&s.processes), once);
    // the two rows with 300 MB keep their input order
    assert_eq!(&once[..2], &[30, 20]);
}

#[test]
fn sort_processes_leaves_other_fields() {
    let mut s = table();
    s.mem_total = 77;
    s.net_iface = "eth0".to_string();
    s.sort_processes(SortBy::Pid);
    assert_eq!(s.mem_total, 77);
    assert_eq!(s.net_iface, "eth0");
    assert_eq!(s.processes.len(), 4);
}

#[test]
fn sort_names_by_bytes_and_prefixes() {
    let mut s = SystemStats::default();
    s.processes = vec![row(1, "ab", 0.0, 0), row(2, "a", 0.0, 0), row(3, "", 0.0, 0), row(4, "é", 0.0, 0), row(5, "b", 0.0, 0)];
    s.sort_processes(SortBy::Name);
    assert_eq!(pids(&s.processes), vec![3, 2, 1, 5, 4]);
}
