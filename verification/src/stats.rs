//! Turning one raw sample of the machine into the figures the dashboard shows.
use vstd::prelude::*;

use crate::dirs::DirInfo;
use crate::procs::{bytes_lt, cpu_key, name_bytes, spec_cpu_key, ProcInfo, SortBy};
use crate::sorting::{
    is_stable_sort, is_top, lemma_top_item_from_input, lemma_top_keeps_leaders, stable_arrangement, stable_sort,
};

verus! {

/// Disks at most this large (in bytes) are not taken for the disk panel
/// (tmpfs, devtmpfs and the like).
pub const MIN_DISK_BYTES: u64 = 1_000_000_000;

/// Number of rows the process table keeps.
pub const TOP_PROCESSES: usize = 10;

/// One logical CPU as sampled: its usage (the bits of an `f32` percentage),
/// frequency in MHz and brand string.
pub struct CpuSample {
    pub usage_bits: u32,
    pub frequency: u64,
    pub brand: String,
}

/// One mounted disk as sampled, sizes in bytes.
pub struct DiskSample {
    pub name: String,
    pub total_space: u64,
    pub available_space: u64,
}

/// One network interface as sampled: bytes since the previous refresh and
/// since boot.
pub struct NetSample {
    pub name: String,
    pub received: u64,
    pub transmitted: u64,
    pub total_received: u64,
    pub total_transmitted: u64,
}

/// One process as sampled: CPU usage as the bits of an `f32`, memory in the
/// unit the sampler reports (divided by 1024 for display).
pub struct ProcSample {
    pub pid: u32,
    pub name: String,
    pub cpu_bits: u32,
    pub memory: u64,
}

/// Everything read from the machine in one refresh, as plain values.
pub struct Sample {
    /// Average usage over all CPUs, as the bits of an `f32` percentage.
    pub cpu_total_bits: u32,
    pub cpus: Vec<CpuSample>,
    pub total_memory: u64,
    pub used_memory: u64,
    pub total_swap: u64,
    pub used_swap: u64,
    pub disks: Vec<DiskSample>,
    pub networks: Vec<NetSample>,
    pub processes: Vec<ProcSample>,
}

/// The figures of one dashboard refresh.
///
/// CPU usages are kept as the bit patterns of the `f32` percentages the
/// sampler gave; disk sizes in bytes.
pub struct SystemStats {
    pub cpu_total_bits: u32,
    pub cpu_core_bits: Vec<u32>,
    pub cpu_freq: u64,
    pub cpu_name: String,
    pub mem_used: u64,
    pub mem_total: u64,
    pub mem_percent: u32,
    pub swap_used: u64,
    pub swap_total: u64,
    pub swap_percent: u32,
    pub disk_name: String,
    pub disk_used_bytes: u64,
    pub disk_total_bytes: u64,
    pub disk_percent: u32,
    pub net_iface: String,
    pub net_rx_kbs: u64,
    pub net_tx_kbs: u64,
    pub net_rx_total_mb: u64,
    pub net_tx_total_mb: u64,
    pub processes: Vec<ProcInfo>,
    pub disk_dirs: Vec<DirInfo>,
}

/// The share `used` is of `total`, in whole percent, truncated to `u32`;
/// zero when `total` is zero.
pub open spec fn percent_of(used: u64, total: u64) -> u32 {
    if total == 0 {
        0
    } else {
        ((used * 100) / (total as int)) as u32
    }
}

/// Integer percentage of `used` over `total` (0 when `total` is 0).
pub fn pct(used: u64, total: u64) -> (r: u32)
    requires
        used * 100 <= u64::MAX,
    ensures
        r == percent_of(used, total),
        used <= total ==> r <= 100,
{
    if total == 0 {
        0
    } else {
        let q: u64 = used * 100 / total;
        proof {
            if used <= total {
                let a: int = used * 100;
                let t: int = total as int;
                assert(a / t <= 100) by (nonlinear_arith)
                    requires
                        a <= t * 100,
                        t > 0,
                ;
            }
        }
        q as u32
    }
}

/// Bytes in use on a disk: total minus available, floored at zero.
pub open spec fn used_space(d: DiskSample) -> u64 {
    if d.available_space <= d.total_space {
        (d.total_space - d.available_space) as u64
    } else {
        0
    }
}

/// `i` is the first disk larger than [`MIN_DISK_BYTES`].
pub open spec fn is_first_big_disk(disks: Seq<DiskSample>, i: int) -> bool {
    &&& 0 <= i < disks.len()
    &&& disks[i].total_space > MIN_DISK_BYTES
    &&& forall|j: int| 0 <= j < i ==> #[trigger] disks[j].total_space <= MIN_DISK_BYTES
}

/// No disk is larger than [`MIN_DISK_BYTES`].
pub open spec fn no_big_disk(disks: Seq<DiskSample>) -> bool {
    forall|j: int| 0 <= j < disks.len() ==> #[trigger] disks[j].total_space <= MIN_DISK_BYTES
}

/// The usage figure of the chosen disk does not overflow: the percentage is
/// computed as `used * 100 / total` in `u64`.
pub open spec fn disk_percent_fits(disks: Seq<DiskSample>) -> bool {
    forall|i: int| is_first_big_disk(disks, i) ==> used_space(#[trigger] disks[i]) * 100 <= u64::MAX
}

/// The loopback interface's name.
pub open spec fn is_loopback_name(name: Seq<char>) -> bool {
    name == seq!['l', 'o']
}

/// `i` is the interface shown: not loopback, the most bytes received since
/// boot (more than zero), and the first such in the list.
pub open spec fn is_best_net(nets: Seq<NetSample>, i: int) -> bool {
    &&& 0 <= i < nets.len()
    &&& !is_loopback_name(nets[i].name@)
    &&& nets[i].total_received > 0
    &&& forall|j: int|
        0 <= j < i && !is_loopback_name(nets[j].name@) ==> #[trigger] nets[j].total_received
            < nets[i].total_received
    &&& forall|j: int|
        i < j < nets.len() && !is_loopback_name(nets[j].name@) ==> #[trigger] nets[j].total_received
            <= nets[i].total_received
}

/// No interface other than loopback has received anything since boot.
pub open spec fn no_active_net(nets: Seq<NetSample>) -> bool {
    forall|j: int|
        0 <= j < nets.len() && !is_loopback_name(nets[j].name@) ==> #[trigger] nets[j].total_received
            == 0
}

/// The table row of a sampled process.
pub open spec fn proc_row(p: ProcSample) -> ProcInfo {
    ProcInfo { pid: p.pid, name: p.name, cpu_bits: p.cpu_bits, mem_mb: p.memory / 1024 }
}

/// `top` holds the first [`TOP_PROCESSES`] rows of the rows sorted by CPU,
/// most first (all of them when there are fewer).
pub open spec fn is_top_by_cpu(rows: Seq<ProcInfo>, top: Seq<ProcInfo>) -> bool {
    is_top(rows, top, SortBy::CpuDesc, TOP_PROCESSES)
}

/// Whether an interface name is the loopback's, `"lo"`.
pub fn is_loopback(name: &String) -> (r: bool)
    ensures
        r == is_loopback_name(name@),
{
    let s = name.as_str();
    if s.unicode_len() != 2 {
        return false;
    }
    let a = s.get_char(0);
    let b = s.get_char(1);
    proof {
        if a == 'l' && b == 'o' {
            assert(name@ =~= seq!['l', 'o']);
        }
    }
    a == 'l' && b == 'o'
}

/// Index of the first disk larger than [`MIN_DISK_BYTES`], if any.
pub fn first_big_disk(disks: &Vec<DiskSample>) -> (r: Option<usize>)
    ensures
        match r {
            Some(i) => is_first_big_disk(disks@, i as int),
            None => no_big_disk(disks@),
        },
{
    let mut i: usize = 0;
    while i < disks.len()
        invariant
            i <= disks@.len(),
            forall|j: int| 0 <= j < i ==> #[trigger] disks@[j].total_space <= MIN_DISK_BYTES,
        decreases disks@.len() - i,
    {
        if disks[i].total_space > MIN_DISK_BYTES {
            return Some(i);
        }
        i = i + 1;
    }
    None
}

/// Index of the interface to show, if any: see [`is_best_net`].
pub fn best_network(nets: &Vec<NetSample>) -> (r: Option<usize>)
    ensures
        match r {
            Some(i) => is_best_net(nets@, i as int),
            None => no_active_net(nets@),
        },
{
    let mut best: u64 = 0;
    let mut pick: Option<usize> = None;
    let mut i: usize = 0;
    while i < nets.len()
        invariant
            i <= nets@.len(),
            match pick {
                Some(p) => {
                    &&& p < i
                    &&& best == nets@[p as int].total_received
                    &&& is_best_net(nets@.take(i as int), p as int)
                },
                None => best == 0 && no_active_net(nets@.take(i as int)),
            },
        decreases nets@.len() - i,
    {
        let ghost prev = nets@.take(i as int);
        let ghost cur = nets@.take(i + 1);
        assert(cur =~= prev.push(nets@[i as int]));
        if !is_loopback(&nets[i].name) && nets[i].total_received > best {
            best = nets[i].total_received;
            pick = Some(i);
        }
        proof {
            match pick {
                Some(p) => {
                    assert forall|j: int|
                        0 <= j < p && !is_loopback_name(cur[j].name@) implies #[trigger] cur[j].total_received
                        < cur[p as int].total_received by {
                        assert(cur[j] == prev[j]);
                    }
                    assert forall|j: int|
                        p < j < cur.len() && !is_loopback_name(cur[j].name@) implies #[trigger] cur[j].total_received
                        <= cur[p as int].total_received by {
                        if j < i {
                            assert(cur[j] == prev[j]);
                        }
                    }
                },
                None => {
                    assert forall|j: int|
                        0 <= j < cur.len() && !is_loopback_name(
                            cur[j].name@,
                        ) implies #[trigger] cur[j].total_received == 0 by {
                        if j < i {
                            assert(cur[j] == prev[j]);
                        }
                    }
                },
            }
        }
        i = i + 1;
    }
    assert(nets@.take(nets@.len() as int) =~= nets@);
    pick
}

/// The [`TOP_PROCESSES`] rows with the most CPU, most first; ties keep the
/// sampled order.
pub fn top_processes(rows: Vec<ProcInfo>) -> (top: Vec<ProcInfo>)
    ensures
        is_top_by_cpu(rows@, top@),
{
    let mut sorted = stable_sort(rows, SortBy::CpuDesc);
    let ghost full = sorted@;
    sorted.truncate(TOP_PROCESSES);
    assert(is_stable_sort(rows@, full, SortBy::CpuDesc));
    assert(sorted@ =~= full.take(
        if full.len() < TOP_PROCESSES {
            full.len() as int
        } else {
            TOP_PROCESSES as int
        },
    ));
    sorted
}

/// The table rows of the sampled processes, in sampled order.
pub fn process_rows(procs: &Vec<ProcSample>) -> (rows: Vec<ProcInfo>)
    ensures
        rows@ == procs@.map_values(|p: ProcSample| proc_row(p)),
{
    let mut rows: Vec<ProcInfo> = Vec::new();
    let mut i: usize = 0;
    while i < procs.len()
        invariant
            i <= procs@.len(),
            rows@ =~= procs@.take(i as int).map_values(|p: ProcSample| proc_row(p)),
        decreases procs@.len() - i,
    {
        let p = &procs[i];
        let row = ProcInfo {
            pid: p.pid,
            name: p.name.clone(),
            cpu_bits: p.cpu_bits,
            mem_mb: p.memory / 1024,
        };
        rows.push(row);
        assert(procs@.take(i + 1) =~= procs@.take(i as int).push(procs@[i as int]));
        i = i + 1;
    }
    assert(procs@.take(procs@.len() as int) =~= procs@);
    rows
}


impl Default for SystemStats {
    fn default() -> (s: SystemStats)
        ensures
            s.cpu_total_bits == 0,
            s.cpu_core_bits@.len() == 0,
            s.cpu_freq == 0,
            s.cpu_name@.len() == 0,
            s.mem_used == 0 && s.mem_total == 0 && s.mem_percent == 0,
            s.swap_used == 0 && s.swap_total == 0 && s.swap_percent == 0,
            s.disk_name@.len() == 0,
            s.disk_used_bytes == 0 && s.disk_total_bytes == 0 && s.disk_percent == 0,
            s.net_iface@.len() == 0,
            s.net_rx_kbs == 0 && s.net_tx_kbs == 0,
            s.net_rx_total_mb == 0 && s.net_tx_total_mb == 0,
            s.processes@.len() == 0,
            s.disk_dirs@.len() == 0,
    {
        SystemStats {
            cpu_total_bits: 0,
            cpu_core_bits: Vec::new(),
            cpu_freq: 0,
            cpu_name: String::new(),
            mem_used: 0,
            mem_total: 0,
            mem_percent: 0,
            swap_used: 0,
            swap_total: 0,
            swap_percent: 0,
            disk_name: String::new(),
            disk_used_bytes: 0,
            disk_total_bytes: 0,
            disk_percent: 0,
            net_iface: String::new(),
            net_rx_kbs: 0,
            net_tx_kbs: 0,
            net_rx_total_mb: 0,
            net_tx_total_mb: 0,
            processes: Vec::new(),
            disk_dirs: Vec::new(),
        }
    }
}

impl SystemStats {
    /// The dashboard figures of one sample: CPU usages as sampled, the first
    /// CPU's frequency and brand, memory and swap in MiB with their
    /// percentages, the first disk over [`MIN_DISK_BYTES`], the busiest
    /// non-loopback interface, and the [`TOP_PROCESSES`] processes with the
    /// most CPU. Directory sizes are measured separately and start empty.
    pub fn from_sample(sample: &Sample) -> (s: SystemStats)
        requires
            disk_percent_fits(sample.disks@),
        ensures
            s.cpu_total_bits == sample.cpu_total_bits,
            s.cpu_core_bits@ == sample.cpus@.map_values(|c: CpuSample| c.usage_bits),
            sample.cpus@.len() > 0 ==> s.cpu_freq == sample.cpus@[0].frequency && s.cpu_name@
                == sample.cpus@[0].brand@,
            sample.cpus@.len() == 0 ==> s.cpu_freq == 0 && s.cpu_name@.len() == 0,
            s.mem_total == sample.total_memory / 1024,
            s.mem_used == sample.used_memory / 1024,
            s.mem_percent == percent_of(s.mem_used, s.mem_total),
            sample.used_memory <= sample.total_memory ==> s.mem_percent <= 100,
            s.swap_total == sample.total_swap / 1024,
            s.swap_used == sample.used_swap / 1024,
            s.swap_percent == percent_of(s.swap_used, s.swap_total),
            sample.used_swap <= sample.total_swap ==> s.swap_percent <= 100,
            forall|i: int|
                is_first_big_disk(sample.disks@, i) ==> {
                    &&& s.disk_name@ == (#[trigger] sample.disks@[i]).name@
                    &&& s.disk_total_bytes == sample.disks@[i].total_space
                    &&& s.disk_used_bytes == used_space(sample.disks@[i])
                    &&& s.disk_percent == percent_of(
                        used_space(sample.disks@[i]),
                        sample.disks@[i].total_space,
                    )
                },
            no_big_disk(sample.disks@) ==> s.disk_name@.len() == 0 && s.disk_total_bytes == 0
                && s.disk_used_bytes == 0 && s.disk_percent == 0,
            s.disk_used_bytes <= s.disk_total_bytes,
            s.disk_percent <= 100,
            forall|i: int|
                is_best_net(sample.networks@, i) ==> {
                    &&& s.net_iface@ == (#[trigger] sample.networks@[i]).name@
                    &&& s.net_rx_kbs == sample.networks@[i].received / 1024
                    &&& s.net_tx_kbs == sample.networks@[i].transmitted / 1024
                    &&& s.net_rx_total_mb == sample.networks@[i].total_received / 1024 / 1024
                    &&& s.net_tx_total_mb == sample.networks@[i].total_transmitted / 1024 / 1024
                },
            no_active_net(sample.networks@) ==> s.net_iface@.len() == 0 && s.net_rx_kbs == 0
                && s.net_tx_kbs == 0 && s.net_rx_total_mb == 0 && s.net_tx_total_mb == 0,
            is_top_by_cpu(sample.processes@.map_values(|p: ProcSample| proc_row(p)), s.processes@),
            forall|i: int| 0 <= i < s.processes@.len() ==> is_sampled(#[trigger] s.processes@[i], sample.processes@),
            s.disk_dirs@.len() == 0,
    {
        let mut s = SystemStats::default();
        s.cpu_total_bits = sample.cpu_total_bits;

        let mut cores: Vec<u32> = Vec::new();
        let mut i: usize = 0;
        while i < sample.cpus.len()
            invariant
                i <= sample.cpus@.len(),
                cores@ =~= sample.cpus@.take(i as int).map_values(|c: CpuSample| c.usage_bits),
            decreases sample.cpus@.len() - i,
        {
            cores.push(sample.cpus[i].usage_bits);
            assert(sample.cpus@.take(i + 1) =~= sample.cpus@.take(i as int).push(
                sample.cpus@[i as int],
            ));
            i = i + 1;
        }
        assert(sample.cpus@.take(sample.cpus@.len() as int) =~= sample.cpus@);
        s.cpu_core_bits = cores;
        if sample.cpus.len() > 0 {
            s.cpu_freq = sample.cpus[0].frequency;
            s.cpu_name = sample.cpus[0].brand.clone();
        }

        s.mem_total = sample.total_memory / 1024;
        s.mem_used = sample.used_memory / 1024;
        s.mem_percent = pct(s.mem_used, s.mem_total);
        s.swap_total = sample.total_swap / 1024;
        s.swap_used = sample.used_swap / 1024;
        s.swap_percent = pct(s.swap_used, s.swap_total);

        match first_big_disk(&sample.disks) {
            Some(d) => {
                let disk = &sample.disks[d];
                let total = disk.total_space;
                let used: u64 = if disk.available_space <= total {
                    total - disk.available_space
                } else {
                    0
                };
                assert(used == used_space(sample.disks@[d as int]));
                s.disk_name = disk.name.clone();
                s.disk_total_bytes = total;
                s.disk_used_bytes = used;
                s.disk_percent = pct(used, total);
            },
            None => {},
        }

        match best_network(&sample.networks) {
            Some(n) => {
                let net = &sample.networks[n];
                s.net_iface = net.name.clone();
                s.net_rx_kbs = net.received / 1024;
                s.net_tx_kbs = net.transmitted / 1024;
                s.net_rx_total_mb = net.total_received / 1024 / 1024;
                s.net_tx_total_mb = net.total_transmitted / 1024 / 1024;
            },
            None => {},
        }

        s.processes = top_processes(process_rows(&sample.processes));
        proof {
            lemma_table_rows_are_sampled(sample.processes@, s.processes@);
            assert forall|i: int| 0 <= i < s.processes@.len() implies is_sampled(
                #[trigger] s.processes@[i],
                sample.processes@,
            ) by {
                let m = choose|m: int|
                    0 <= m < sample.processes@.len() && s.processes@[i].pid == sample.processes@[m].pid
                        && s.processes@[i].name == sample.processes@[m].name && s.processes@[i].cpu_bits
                        == sample.processes@[m].cpu_bits && s.processes@[i].mem_mb == sample.processes@[m].memory
                        / 1024;
                assert(0 <= m < sample.processes@.len() && s.processes@[i].pid == sample.processes@[m].pid);
            }
        }
        s
    }

    /// Reorders the process rows by `sort` with a stable sort; nothing else
    /// changes.
    pub fn sort_processes(&mut self, sort: SortBy)
        ensures
            is_stable_sort(old(self).processes@, final(self).processes@, sort),
            sort == SortBy::Pid ==> forall|i: int, j: int|
                0 <= i < j < final(self).processes@.len() ==> (#[trigger] final(self).processes@[i]).pid
                    <= (#[trigger] final(self).processes@[j]).pid,
            sort == SortBy::MemDesc ==> forall|i: int, j: int|
                0 <= i < j < final(self).processes@.len() ==> (#[trigger] final(self).processes@[i]).mem_mb
                    >= (#[trigger] final(self).processes@[j]).mem_mb,
            sort == SortBy::MemAsc ==> forall|i: int, j: int|
                0 <= i < j < final(self).processes@.len() ==> (#[trigger] final(self).processes@[i]).mem_mb
                    <= (#[trigger] final(self).processes@[j]).mem_mb,
            final(self).cpu_total_bits == old(self).cpu_total_bits,
            final(self).cpu_core_bits == old(self).cpu_core_bits,
            final(self).cpu_freq == old(self).cpu_freq,
            final(self).cpu_name == old(self).cpu_name,
            final(self).mem_used == old(self).mem_used,
            final(self).mem_total == old(self).mem_total,
            final(self).mem_percent == old(self).mem_percent,
            final(self).swap_used == old(self).swap_used,
            final(self).swap_total == old(self).swap_total,
            final(self).swap_percent == old(self).swap_percent,
            final(self).disk_name == old(self).disk_name,
            final(self).disk_used_bytes == old(self).disk_used_bytes,
            final(self).disk_total_bytes == old(self).disk_total_bytes,
            final(self).disk_percent == old(self).disk_percent,
            final(self).net_iface == old(self).net_iface,
            final(self).net_rx_kbs == old(self).net_rx_kbs,
            final(self).net_tx_kbs == old(self).net_tx_kbs,
            final(self).net_rx_total_mb == old(self).net_rx_total_mb,
            final(self).net_tx_total_mb == old(self).net_tx_total_mb,
            final(self).disk_dirs == old(self).disk_dirs,
    {
        let mut procs: Vec<ProcInfo> = Vec::new();
        std::mem::swap(&mut procs, &mut self.processes);
        self.processes = stable_sort(procs, sort);
        proof {
            assert forall|i: int, j: int| 0 <= i < j < self.processes@.len() implies {
                &&& (sort == SortBy::Pid ==> self.processes@[i].pid <= self.processes@[j].pid)
                &&& (sort == SortBy::MemDesc ==> self.processes@[i].mem_mb >= self.processes@[j].mem_mb)
                &&& (sort == SortBy::MemAsc ==> self.processes@[i].mem_mb <= self.processes@[j].mem_mb)
            } by {
                lemma_sorted_rows_in_order(old(self).processes@, self.processes@, sort, i, j);
            }
        }
    }
}

/// The process table shows the busiest processes, busiest first: its rows
/// are in decreasing CPU order, and any sampled process busier than the
/// last row shown is shown.
pub proof fn lemma_top_are_busiest(rows: Seq<ProcInfo>, top: Seq<ProcInfo>, m: int)
    requires
        is_top_by_cpu(rows, top),
        0 <= m < rows.len(),
    ensures
        forall|i: int, j: int| 0 <= i < j < top.len() ==> cpu_key(top[i]) >= cpu_key(top[j]),
        top.len() == (if rows.len() < TOP_PROCESSES {
            rows.len() as int
        } else {
            TOP_PROCESSES as int
        }),
        cpu_key(rows[m]) > cpu_key(top.last()) ==> top.contains(rows[m]),
{
    lemma_top_keeps_leaders(rows, top, SortBy::CpuDesc, TOP_PROCESSES, m);
    assert forall|i: int, j: int| 0 <= i < j < top.len() implies cpu_key(top[i]) >= cpu_key(top[j]) by {
        assert(!crate::procs::before(top[j], top[i], SortBy::CpuDesc));
    }
}

/// `r` shows a sampled process: its PID, name and CPU bits, and its memory
/// in MiB (the sampled KiB divided by 1024, rounded down).
pub open spec fn is_sampled(r: ProcInfo, procs: Seq<ProcSample>) -> bool {
    exists|m: int|
        0 <= m < procs.len() && r.pid == procs[m].pid && r.name == procs[m].name && r.cpu_bits == procs[m].cpu_bits
            && r.mem_mb == procs[m].memory / 1024
}

/// A process row carries its sample: the same PID, name and CPU bits, and
/// the memory in MiB (the sampled KiB divided by 1024, rounded down).
pub proof fn lemma_process_rows_copy_samples(procs: Seq<ProcSample>, rows: Seq<ProcInfo>)
    requires
        rows == procs.map_values(|p: ProcSample| proc_row(p)),
    ensures
        rows.len() == procs.len(),
        forall|i: int|
            0 <= i < rows.len() ==> {
                &&& (#[trigger] rows[i]).pid == procs[i].pid
                &&& rows[i].name == procs[i].name
                &&& rows[i].cpu_bits == procs[i].cpu_bits
                &&& rows[i].mem_mb == procs[i].memory / 1024
            },
{
}

/// Every row of the process table is a sampled process: its PID, name and
/// CPU bits, and its memory in MiB; the table holds [`TOP_PROCESSES`] rows,
/// or all processes when fewer were sampled.
pub proof fn lemma_table_rows_are_sampled(procs: Seq<ProcSample>, top: Seq<ProcInfo>)
    requires
        is_top_by_cpu(procs.map_values(|p: ProcSample| proc_row(p)), top),
    ensures
        top.len() == (if procs.len() < TOP_PROCESSES {
            procs.len() as int
        } else {
            TOP_PROCESSES as int
        }),
        forall|i: int|
            0 <= i < top.len() ==> exists|m: int|
                0 <= m < procs.len() && (#[trigger] top[i]).pid == procs[m].pid && top[i].name == procs[m].name
                    && top[i].cpu_bits == procs[m].cpu_bits && top[i].mem_mb == procs[m].memory / 1024,
{
    let rows = procs.map_values(|p: ProcSample| proc_row(p));
    lemma_process_rows_copy_samples(procs, rows);
    assert forall|i: int|
        0 <= i < top.len() implies exists|m: int|
            0 <= m < procs.len() && (#[trigger] top[i]).pid == procs[m].pid && top[i].name == procs[m].name
                && top[i].cpu_bits == procs[m].cpu_bits && top[i].mem_mb == procs[m].memory / 1024 by {
        let m = lemma_top_item_from_input(rows, top, SortBy::CpuDesc, TOP_PROCESSES, i);
        assert(rows[m].pid == procs[m].pid);
    }
    if procs.len() > 0 {
        lemma_top_keeps_leaders(rows, top, SortBy::CpuDesc, TOP_PROCESSES, 0);
    } else {
        let sorted = choose|sorted: Seq<ProcInfo>|
            #![trigger is_stable_sort(rows, sorted, SortBy::CpuDesc)]
            is_stable_sort(rows, sorted, SortBy::CpuDesc) && top == sorted.take(
                if sorted.len() < TOP_PROCESSES {
                    sorted.len() as int
                } else {
                    TOP_PROCESSES as int
                },
            );
        let perm = choose|perm: Seq<int>| stable_arrangement(rows, sorted, perm, SortBy::CpuDesc);
    }
}

/// Sorting the process table puts the rows in the chosen order: ascending
/// PID; decreasing or increasing memory; decreasing or increasing CPU
/// usage key; names in byte order.
pub proof fn lemma_sorted_rows_in_order(orig: Seq<ProcInfo>, out: Seq<ProcInfo>, sort: SortBy, i: int, j: int)
    requires
        is_stable_sort(orig, out, sort),
        0 <= i < j < out.len(),
    ensures
        sort == SortBy::Pid ==> out[i].pid <= out[j].pid,
        sort == SortBy::MemDesc ==> out[i].mem_mb >= out[j].mem_mb,
        sort == SortBy::MemAsc ==> out[i].mem_mb <= out[j].mem_mb,
        sort == SortBy::CpuDesc ==> spec_cpu_key(out[i].cpu_bits) >= spec_cpu_key(out[j].cpu_bits),
        sort == SortBy::CpuAsc ==> spec_cpu_key(out[i].cpu_bits) <= spec_cpu_key(out[j].cpu_bits),
        sort == SortBy::Name ==> !bytes_lt(name_bytes(out[j]), name_bytes(out[i])),
        out.len() == orig.len(),
{
    let perm = choose|perm: Seq<int>| stable_arrangement(orig, out, perm, sort);
    assert(!crate::procs::before(out[j], out[i], sort));
}

} // verus!
