//! Collection and derivation of machine metrics.
pub mod model;
pub mod procfs;
pub mod profile;
pub mod sysfs;

use vstd::prelude::*;
use crate::rank::{RankOrder, lemma_same_elements_contains, ranked, sort_ranked, stably_ranked};
use crate::text::{
    all_ascii_digits, all_digits, chars_of, copy_range, is_ascii_digit, is_digit, last_index,
    lemma_lex_total, lemma_lex_transitive, lex_le, lex_le_exec, rfind_char, starts_with_str,
};
use std::collections::HashMap;
use model::{
    CpuCounters, CpuMetrics, CpuShare, DiskIoEntry, MachineInfo, MemoryMetrics, NetworkIoEntry,
    ProcessEntry, ProcessKey, RawCpuSample, RawDiskSample, RawNetworkSample, RawProcessSample,
    RawSnapshot, RawSwapSample, SensorReading, SystemSnapshot, UsageMetric, views,
};
use profile::{BoardProfile, cpu_temperature, detected_profile, summary_of};

verus! {

/// Loopback, container, bridge and tunnel interfaces.
pub open spec fn hidden_network_device(name: Seq<char>) -> bool {
    ||| name == "lo"@
    ||| "veth"@.is_prefix_of(name)
    ||| "docker"@.is_prefix_of(name)
    ||| "br-"@.is_prefix_of(name)
    ||| "virbr"@.is_prefix_of(name)
    ||| "tun"@.is_prefix_of(name)
    ||| "tap"@.is_prefix_of(name)
}

/// Loop, RAM, device-mapper, zram and MTD devices, and partitions.
pub open spec fn hidden_disk_device(name: Seq<char>) -> bool {
    ||| "loop"@.is_prefix_of(name)
    ||| "ram"@.is_prefix_of(name)
    ||| "dm-"@.is_prefix_of(name)
    ||| "zram"@.is_prefix_of(name)
    ||| "mtdblock"@.is_prefix_of(name)
    ||| partition_device(name)
}

pub open spec fn partition_device(name: Seq<char>) -> bool {
    ||| letter_disk_partition(name, "sd"@)
    ||| letter_disk_partition(name, "vd"@)
    ||| letter_disk_partition(name, "xvd"@)
    ||| p_suffixed_partition(name, "nvme"@)
    ||| p_suffixed_partition(name, "mmcblk"@)
}

pub open spec fn is_lower(c: char) -> bool {
    'a' <= c && c <= 'z'
}

pub open spec fn is_alnum(c: char) -> bool {
    is_digit(c) || ('a' <= c && c <= 'z') || ('A' <= c && c <= 'Z')
}

/// The position of the first decimal digit.
pub open spec fn first_digit(s: Seq<char>) -> Option<int>
    decreases s.len(),
{
    if s.len() == 0 {
        None
    } else {
        match first_digit(s.drop_last()) {
            Some(i) => Some(i),
            None => if is_digit(s.last()) {
                Some(s.len() - 1)
            } else {
                None
            },
        }
    }
}

/// `prefix`, then lower-case letters, then digits (such as `sda1`).
pub open spec fn letter_disk_partition(name: Seq<char>, prefix: Seq<char>) -> bool {
    prefix.is_prefix_of(name) && {
        let rest = name.skip(prefix.len() as int);
        match first_digit(rest) {
            None => false,
            Some(k) => k > 0 && (forall|j: int| 0 <= j < k ==> is_lower(#[trigger] rest[j]))
                && all_digits(rest.skip(k)),
        }
    }
}

/// `prefix`, then letters and digits, then 'p' and digits (such as
/// `nvme0n1p2`); the last 'p' separates the partition number.
pub open spec fn p_suffixed_partition(name: Seq<char>, prefix: Seq<char>) -> bool {
    prefix.is_prefix_of(name) && {
        let rest = name.skip(prefix.len() as int);
        match last_index(rest, 'p') {
            None => false,
            Some(q) => q > 0 && q + 1 < rest.len() && (forall|j: int|
                0 <= j < q ==> is_alnum(#[trigger] rest[j])) && all_digits(rest.skip(q + 1)),
        }
    }
}

/// Whether an interface is left out of the traffic list.
pub fn should_hide_network_device(name: &str) -> (r: bool)
    ensures
        r == hidden_network_device(name@),
{
    let n = chars_of(name);
    let lo = chars_of("lo");
    crate::text::chars_eq(&n, &lo) || starts_with_str(&n, "veth") || starts_with_str(&n, "docker")
        || starts_with_str(&n, "br-") || starts_with_str(&n, "virbr") || starts_with_str(
        &n,
        "tun",
    ) || starts_with_str(&n, "tap")
}

/// Whether a block device is left out of the traffic list.
pub fn should_hide_disk_device(name: &str) -> (r: bool)
    ensures
        r == hidden_disk_device(name@),
{
    let n = chars_of(name);
    starts_with_str(&n, "loop") || starts_with_str(&n, "ram") || starts_with_str(&n, "dm-")
        || starts_with_str(&n, "zram") || starts_with_str(&n, "mtdblock") || is_partition_device(
        name,
    )
}

/// Whether a block device is a partition of a disk.
pub fn is_partition_device(name: &str) -> (r: bool)
    ensures
        r == partition_device(name@),
{
    is_letter_disk_partition(name, "sd") || is_letter_disk_partition(name, "vd")
        || is_letter_disk_partition(name, "xvd") || is_p_suffixed_partition(name, "nvme")
        || is_p_suffixed_partition(name, "mmcblk")
}

fn first_digit_exec(s: &[char]) -> (r: Option<usize>)
    ensures
        first_digit(s@) == match r {
            Some(i) => Some(i as int),
            None => None::<int>,
        },
        r matches Some(i) ==> i < s@.len(),
{
    let mut i: usize = 0;
    while i < s.len()
        invariant
            i <= s@.len(),
            first_digit(s@.take(i as int)) is None,
        decreases s@.len() - i,
    {
        assert(s@.take(i + 1).drop_last() =~= s@.take(i as int));
        if is_ascii_digit(s[i]) {
            proof {
                lemma_first_digit_stays(s@, i as int + 1);
            }
            return Some(i);
        }
        i = i + 1;
    }
    assert(s@.take(i as int) =~= s@);
    None
}

proof fn lemma_first_digit_stays(s: Seq<char>, i: int)
    requires
        0 <= i <= s.len(),
        first_digit(s.take(i)) is Some,
    ensures
        first_digit(s) == first_digit(s.take(i)),
    decreases s.len() - i,
{
    if i < s.len() {
        assert(s.take(i + 1).drop_last() =~= s.take(i));
        lemma_first_digit_stays(s, i + 1);
    } else {
        assert(s.take(i) =~= s);
    }
}

#[verifier::loop_isolation(false)]
pub fn is_letter_disk_partition(name: &str, prefix: &str) -> (r: bool)
    ensures
        r == letter_disk_partition(name@, prefix@),
{
    let n = chars_of(name);
    if !starts_with_str(&n, prefix) {
        return false;
    }
    let p = chars_of(prefix);
    let rest = copy_range(&n, p.len(), n.len());
    assert(rest@ =~= name@.skip(prefix@.len() as int));
    let k = match first_digit_exec(&rest) {
        Some(k) => k,
        None => {
            return false;
        },
    };
    if k == 0 {
        return false;
    }
    let mut j: usize = 0;
    while j < k
        invariant
            j <= k < rest@.len(),
            forall|t: int| 0 <= t < j ==> is_lower(#[trigger] rest@[t]),
        decreases k - j,
    {
        if !('a' <= rest[j] && rest[j] <= 'z') {
            return false;
        }
        j = j + 1;
    }
    let digits = copy_range(&rest, k, rest.len());
    assert(digits@ =~= rest@.skip(k as int));
    all_ascii_digits(&digits)
}

#[verifier::loop_isolation(false)]
pub fn is_p_suffixed_partition(name: &str, prefix: &str) -> (r: bool)
    ensures
        r == p_suffixed_partition(name@, prefix@),
{
    let n = chars_of(name);
    if !starts_with_str(&n, prefix) {
        return false;
    }
    let p = chars_of(prefix);
    let rest = copy_range(&n, p.len(), n.len());
    assert(rest@ =~= name@.skip(prefix@.len() as int));
    let q = match rfind_char(&rest, 'p') {
        Some(q) => q,
        None => {
            return false;
        },
    };
    if q == 0 || q + 1 >= rest.len() {
        return false;
    }
    let mut j: usize = 0;
    while j < q
        invariant
            j <= q < rest@.len(),
            forall|t: int| 0 <= t < j ==> is_alnum(#[trigger] rest@[t]),
        decreases q - j,
    {
        let c = rest[j];
        if !(is_ascii_digit(c) || ('a' <= c && c <= 'z') || ('A' <= c && c <= 'Z')) {
            return false;
        }
        j = j + 1;
    }
    let digits = copy_range(&rest, q + 1, rest.len());
    assert(digits@ =~= rest@.skip(q + 1));
    all_ascii_digits(&digits)
}


/// `u64::saturating_sub`.
pub open spec fn sat_sub(a: u64, b: u64) -> u64 {
    if a >= b {
        (a - b) as u64
    } else {
        0
    }
}

/// The busy share of the jiffies between two readings of the same counters;
/// counters that went backwards count as no time.
pub open spec fn spec_usage_share(previous: CpuCounters, current: CpuCounters) -> CpuShare {
    let total = sat_sub(current.total, previous.total);
    let idle = sat_sub(current.idle, previous.idle);
    if total == 0 {
        CpuShare { busy_ticks: 0, total_ticks: 0 }
    } else {
        CpuShare { busy_ticks: sat_sub(total, idle), total_ticks: total }
    }
}

/// The busy and total jiffies between two readings; the usage percentage
/// is `busy / total * 100`, zero when no time passed.
pub fn usage_share(previous: CpuCounters, current: CpuCounters) -> (r: CpuShare)
    ensures
        r == spec_usage_share(previous, current),
        r.busy_ticks <= r.total_ticks,
{
    let total_delta = current.total.saturating_sub(previous.total);
    let idle_delta = current.idle.saturating_sub(previous.idle);
    if total_delta == 0 {
        return CpuShare { busy_ticks: 0, total_ticks: 0 };
    }
    let busy_delta = total_delta.saturating_sub(idle_delta);
    CpuShare { busy_ticks: busy_delta, total_ticks: total_delta }
}

/// Size and use summed over the zram swap areas, each sum saturating.
pub open spec fn zram_totals(swaps: Seq<(Seq<char>, u64, u64)>) -> (u64, u64)
    decreases swaps.len(),
{
    if swaps.len() == 0 {
        (0, 0)
    } else {
        let prev = zram_totals(swaps.drop_last());
        let s = swaps.last();
        if "zram"@.is_prefix_of(s.0) {
            (sat_add(prev.0, s.1), sat_add(prev.1, s.2))
        } else {
            prev
        }
    }
}

/// `u64::saturating_add`.
pub open spec fn sat_add(a: u64, b: u64) -> u64 {
    if a + b <= u64::MAX {
        (a + b) as u64
    } else {
        u64::MAX
    }
}

pub open spec fn usage_of(total: u64, used: u64) -> UsageMetric {
    UsageMetric { total_bytes: total, used_bytes: if used <= total { used } else { total } }
}

/// RAM from total and available memory, swap from total and free swap,
/// zram from the zram swap areas.
pub open spec fn memory_metrics(
    total_mem: u64,
    available_mem: u64,
    swap_total: u64,
    swap_free: u64,
    swaps: Seq<(Seq<char>, u64, u64)>,
) -> MemoryMetrics {
    MemoryMetrics {
        ram: usage_of(total_mem, sat_sub(total_mem, available_mem)),
        swap: usage_of(swap_total, sat_sub(swap_total, swap_free)),
        zram: usage_of(zram_totals(swaps).0, zram_totals(swaps).1),
    }
}

/// The RAM, swap and zram rows of a sample.
pub fn derive_memory_metrics(
    total_mem_bytes: u64,
    available_mem_bytes: u64,
    swap_total_bytes: u64,
    swap_free_bytes: u64,
    swaps: &Vec<RawSwapSample>,
) -> (r: MemoryMetrics)
    ensures
        r == memory_metrics(
            total_mem_bytes,
            available_mem_bytes,
            swap_total_bytes,
            swap_free_bytes,
            model::views(swaps@),
        ),
{
    let ram = UsageMetric::from_total_and_available(total_mem_bytes, available_mem_bytes);
    let swap = UsageMetric::from_total_and_available(swap_total_bytes, swap_free_bytes);
    let mut total: u64 = 0;
    let mut used: u64 = 0;
    let mut i: usize = 0;
    while i < swaps.len()
        invariant
            i <= swaps@.len(),
            (total, used) == zram_totals(model::views(swaps@).take(i as int)),
        decreases swaps@.len() - i,
    {
        assert(model::views(swaps@).take(i + 1).drop_last() =~= model::views(swaps@).take(i as int));
        assert(model::views(swaps@).take(i + 1).last() == swaps@[i as int]@);
        let name = chars_of(swaps[i].name.as_str());
        if starts_with_str(&name, "zram") {
            total = total.saturating_add(swaps[i].size_bytes);
            used = used.saturating_add(swaps[i].used_bytes);
        }
        i = i + 1;
    }
    assert(model::views(swaps@).take(i as int) =~= model::views(swaps@));
    let zram = UsageMetric::from_total_and_used(total, used);
    MemoryMetrics { ram, swap, zram }
}

/// The order of the dashboard's lists: the busiest entry first.
pub struct BusiestFirst;

/// The ticks of the last earlier sample of the same process.
pub open spec fn previous_ticks(previous: Seq<RawProcessSample>, key: ProcessKey) -> Option<u64>
    decreases previous.len(),
{
    if previous.len() == 0 {
        None
    } else if previous.last().key == key {
        Some(previous.last().total_time_ticks)
    } else {
        previous_ticks(previous.drop_last(), key)
    }
}

/// The list entry of a process: its CPU ticks since the previous sample
/// (none for a new process) count when the interval's total is known, its
/// resident size counts toward the memory share when total memory is known.
pub open spec fn process_entry(
    p: RawProcessSample,
    previous: Seq<RawProcessSample>,
    total_mem_bytes: u64,
    cpu_count: usize,
    total_cpu_delta: u64,
) -> ProcessEntry {
    let before = match previous_ticks(previous, p.key) {
        Some(t) => t,
        None => p.total_time_ticks,
    };
    ProcessEntry {
        pid: p.key.pid,
        user: p.user,
        state: p.state,
        cpu_ticks: if total_cpu_delta == 0 || cpu_count == 0 {
            0
        } else {
            sat_sub(p.total_time_ticks, before)
        },
        mem_share_bytes: if total_mem_bytes == 0 {
            0
        } else {
            p.rss_bytes
        },
        rss_bytes: p.rss_bytes,
        command: p.command,
    }
}

impl RankOrder<BusiestFirst> for ProcessEntry {
    /// Higher CPU share first, then higher memory share, then lower pid.
    open spec fn ranks_before(&self, other: &Self) -> bool {
        ||| self.cpu_ticks > other.cpu_ticks
        ||| (self.cpu_ticks == other.cpu_ticks && self.mem_share_bytes > other.mem_share_bytes)
        ||| (self.cpu_ticks == other.cpu_ticks && self.mem_share_bytes == other.mem_share_bytes
            && self.pid <= other.pid)
    }

    proof fn lemma_rank_total(a: &Self, b: &Self) {
    }

    proof fn lemma_rank_transitive(a: &Self, b: &Self, c: &Self) {
    }

    fn ranks_before_exec(&self, other: &Self) -> (r: bool) {
        self.cpu_ticks > other.cpu_ticks || (self.cpu_ticks == other.cpu_ticks
            && self.mem_share_bytes > other.mem_share_bytes) || (self.cpu_ticks
            == other.cpu_ticks && self.mem_share_bytes == other.mem_share_bytes && self.pid
            <= other.pid)
    }
}

/// A process key as one number: the pid above the start time.
pub open spec fn key_number(key: ProcessKey) -> u128 {
    (key.pid as int * 0x1_0000_0000_0000_0000 + key.start_time_ticks as int) as u128
}

/// Two keys with the same number are the same key.
proof fn lemma_key_number_injective(a: ProcessKey, b: ProcessKey)
    ensures
        key_number(a) == key_number(b) ==> a == b,
{
    let (pa, sa, pb, sb) = (a.pid as int, a.start_time_ticks as int, b.pid as int, b.start_time_ticks as int);
    assert(pa * 0x1_0000_0000_0000_0000 + sa == pb * 0x1_0000_0000_0000_0000 + sb ==> pa == pb && sa == sb)
        by (nonlinear_arith)
        requires
            0 <= sa < 0x1_0000_0000_0000_0000,
            0 <= sb < 0x1_0000_0000_0000_0000,
            0 <= pa,
            0 <= pb,
    ;
}

fn key_number_exec(key: ProcessKey) -> (r: u128)
    ensures
        r == key_number(key),
{
    (key.pid as u128) * 0x1_0000_0000_0000_0000 + (key.start_time_ticks as u128)
}

/// The ticks of the earlier samples by key number, a later sample of a key
/// replacing an earlier one.
pub open spec fn ticks_by_key(previous: Seq<RawProcessSample>) -> Map<u128, u64>
    decreases previous.len(),
{
    if previous.len() == 0 {
        Map::empty()
    } else {
        ticks_by_key(previous.drop_last()).insert(
            key_number(previous.last().key),
            previous.last().total_time_ticks,
        )
    }
}

/// The map holds, under a key's number, the ticks of the last earlier
/// sample of that process.
proof fn lemma_ticks_by_key(previous: Seq<RawProcessSample>, key: ProcessKey)
    ensures
        ticks_by_key(previous).contains_key(key_number(key)) == previous_ticks(previous, key) is Some,
        previous_ticks(previous, key) is Some ==> ticks_by_key(previous)[key_number(key)] == previous_ticks(
            previous,
            key,
        )->0,
    decreases previous.len(),
{
    if previous.len() > 0 {
        lemma_ticks_by_key(previous.drop_last(), key);
        lemma_key_number_injective(previous.last().key, key);
    }
}

/// The ticks of the earlier samples, looked up by key number.
fn ticks_map(previous: &Vec<RawProcessSample>) -> (m: HashMap<u128, u64>)
    ensures
        m@ == ticks_by_key(previous@),
{
    broadcast use vstd::std_specs::hash::group_hash_axioms;

    let mut m: HashMap<u128, u64> = HashMap::new();
    let mut i: usize = 0;
    assert(m@ =~= ticks_by_key(previous@.take(0)));
    while i < previous.len()
        invariant
            i <= previous@.len(),
            m@ == ticks_by_key(previous@.take(i as int)),
        decreases previous@.len() - i,
    {
        assert(previous@.take(i + 1).drop_last() =~= previous@.take(i as int));
        m.insert(key_number_exec(previous[i].key), previous[i].total_time_ticks);
        i = i + 1;
    }
    assert(previous@.take(i as int) =~= previous@);
    m
}

/// The list entries of the current processes, in sample order.
pub open spec fn process_entries(
    current: Seq<RawProcessSample>,
    previous: Seq<RawProcessSample>,
    total_mem_bytes: u64,
    cpu_count: usize,
    total_cpu_delta: u64,
) -> Seq<ProcessEntry> {
    current.map_values(
        |p: RawProcessSample| process_entry(p, previous, total_mem_bytes, cpu_count, total_cpu_delta),
    )
}

/// The process list, busiest first: each current process with its CPU
/// ticks since `previous_processes` and its memory share, ordered by CPU
/// share, then memory share (both descending), then pid.
pub fn derive_process_list(
    current: &Vec<RawProcessSample>,
    previous_processes: &Vec<RawProcessSample>,
    total_mem_bytes: u64,
    cpu_count: usize,
    total_cpu_delta: u64,
) -> (r: Vec<ProcessEntry>)
    ensures
        stably_ranked::<BusiestFirst, _>(
            r@,
            process_entries(current@, previous_processes@, total_mem_bytes, cpu_count, total_cpu_delta),
        ),
        busiest_process_order(r@),
        forall|i: int|
            0 <= i < current@.len() ==> #[trigger] lists(
                r@,
                process_entry(current@[i], previous_processes@, total_mem_bytes, cpu_count, total_cpu_delta),
            ),
{
    let ghost f = |p: RawProcessSample|
        process_entry(p, previous_processes@, total_mem_bytes, cpu_count, total_cpu_delta);
    broadcast use vstd::std_specs::hash::group_hash_axioms;

    let ticks = ticks_map(previous_processes);
    let mut entries: Vec<ProcessEntry> = Vec::new();
    let mut i: usize = 0;
    while i < current.len()
        invariant
            i <= current@.len(),
            ticks@ == ticks_by_key(previous_processes@),
            f == (|p: RawProcessSample|
                process_entry(p, previous_processes@, total_mem_bytes, cpu_count, total_cpu_delta)),
            entries@ == current@.take(i as int).map_values(f),
        decreases current@.len() - i,
    {
        let p = &current[i];
        proof {
            lemma_ticks_by_key(previous_processes@, p.key);
        }
        let before = match ticks.get(&key_number_exec(p.key)) {
            Some(t) => *t,
            None => p.total_time_ticks,
        };
        let cpu_ticks = if total_cpu_delta == 0 || cpu_count == 0 {
            0
        } else {
            p.total_time_ticks.saturating_sub(before)
        };
        let mem_share_bytes = if total_mem_bytes == 0 {
            0
        } else {
            p.rss_bytes
        };
        let entry = ProcessEntry {
            pid: p.key.pid,
            user: p.user.clone(),
            state: p.state,
            cpu_ticks,
            mem_share_bytes,
            rss_bytes: p.rss_bytes,
            command: p.command.clone(),
        };
        assert(entry == f(current@[i as int]));
        entries.push(entry);
        assert(entries@ =~= current@.take(i + 1).map_values(f));
        i = i + 1;
    }
    assert(current@.take(i as int) =~= current@);
    assert(entries@ == process_entries(current@, previous_processes@, total_mem_bytes, cpu_count, total_cpu_delta));
    let ghost unsorted = entries@;
    let sorted = sort_ranked::<BusiestFirst, _>(entries);
    proof {
        lemma_process_list_busiest_first(sorted@);
        assert forall|i: int| 0 <= i < current@.len() implies #[trigger] lists(
            sorted@,
            process_entry(current@[i], previous_processes@, total_mem_bytes, cpu_count, total_cpu_delta),
        ) by {
            assert(unsorted[i] == f(current@[i]));
            lemma_same_elements_contains(unsorted, sorted@, i);
        }
    }
    sorted
}

/// The byte counts of the last earlier sample of the same interface.
pub open spec fn previous_counts(previous: Seq<(Seq<char>, u64, u64)>, name: Seq<char>) -> Option<(u64, u64)>
    decreases previous.len(),
{
    if previous.len() == 0 {
        None
    } else if previous.last().0 == name {
        Some((previous.last().1, previous.last().2))
    } else {
        previous_counts(previous.drop_last(), name)
    }
}

/// The bytes moved since the previous reading (none without one), counted
/// when time has passed.
pub open spec fn interval_bytes(
    current: (Seq<char>, u64, u64),
    previous: Option<Seq<(Seq<char>, u64, u64)>>,
    elapsed_nanos: u64,
) -> (u64, u64) {
    let before = match previous {
        Some(prev) => match previous_counts(prev, current.0) {
            Some(c) => c,
            None => (current.1, current.2),
        },
        None => (current.1, current.2),
    };
    if elapsed_nanos == 0 {
        (0, 0)
    } else {
        (sat_sub(current.1, before.0), sat_sub(current.2, before.1))
    }
}

pub open spec fn network_entry(
    s: RawNetworkSample,
    previous: Option<Seq<(Seq<char>, u64, u64)>>,
    elapsed_nanos: u64,
) -> Option<NetworkIoEntry> {
    if hidden_network_device(s.name@) {
        None
    } else {
        let b = interval_bytes(s@, previous, elapsed_nanos);
        Some(NetworkIoEntry { name: s.name, rx_bytes: b.0, tx_bytes: b.1 })
    }
}

pub open spec fn disk_entry(
    s: RawDiskSample,
    previous: Option<Seq<(Seq<char>, u64, u64)>>,
    elapsed_nanos: u64,
) -> Option<DiskIoEntry> {
    if hidden_disk_device(s.name@) {
        None
    } else {
        let b = interval_bytes(s@, previous, elapsed_nanos);
        Some(DiskIoEntry { name: s.name, read_bytes: b.0, write_bytes: b.1 })
    }
}

impl RankOrder<BusiestFirst> for NetworkIoEntry {
    /// More bytes in total first, then by name.
    open spec fn ranks_before(&self, other: &Self) -> bool {
        ||| self.rx_bytes + self.tx_bytes > other.rx_bytes + other.tx_bytes
        ||| (self.rx_bytes + self.tx_bytes == other.rx_bytes + other.tx_bytes && lex_le(
            self.name@,
            other.name@,
        ))
    }

    proof fn lemma_rank_total(a: &Self, b: &Self) {
        lemma_lex_total(a.name@, b.name@);
    }

    proof fn lemma_rank_transitive(a: &Self, b: &Self, c: &Self) {
        if a.rx_bytes + a.tx_bytes == b.rx_bytes + b.tx_bytes && b.rx_bytes + b.tx_bytes
            == c.rx_bytes + c.tx_bytes {
            lemma_lex_transitive(a.name@, b.name@, c.name@);
        }
    }

    fn ranks_before_exec(&self, other: &Self) -> (r: bool) {
        let a = self.rx_bytes as u128 + self.tx_bytes as u128;
        let b = other.rx_bytes as u128 + other.tx_bytes as u128;
        if a != b {
            return a > b;
        }
        let x = chars_of(self.name.as_str());
        let y = chars_of(other.name.as_str());
        lex_le_exec(&x, &y)
    }
}

impl RankOrder<BusiestFirst> for DiskIoEntry {
    /// More bytes in total first, then by name.
    open spec fn ranks_before(&self, other: &Self) -> bool {
        ||| self.read_bytes + self.write_bytes > other.read_bytes + other.write_bytes
        ||| (self.read_bytes + self.write_bytes == other.read_bytes + other.write_bytes && lex_le(
            self.name@,
            other.name@,
        ))
    }

    proof fn lemma_rank_total(a: &Self, b: &Self) {
        lemma_lex_total(a.name@, b.name@);
    }

    proof fn lemma_rank_transitive(a: &Self, b: &Self, c: &Self) {
        if a.read_bytes + a.write_bytes == b.read_bytes + b.write_bytes && b.read_bytes
            + b.write_bytes == c.read_bytes + c.write_bytes {
            lemma_lex_transitive(a.name@, b.name@, c.name@);
        }
    }

    fn ranks_before_exec(&self, other: &Self) -> (r: bool) {
        let a = self.read_bytes as u128 + self.write_bytes as u128;
        let b = other.read_bytes as u128 + other.write_bytes as u128;
        if a != b {
            return a > b;
        }
        let x = chars_of(self.name.as_str());
        let y = chars_of(other.name.as_str());
        lex_le_exec(&x, &y)
    }
}

fn find_previous_counts(previous: &Vec<RawNetworkSample>, name: &String) -> (r: Option<(u64, u64)>)
    ensures
        r == previous_counts(model::views(previous@), name@),
{
    let mut i: usize = previous.len();
    assert(model::views(previous@).take(i as int) =~= model::views(previous@));
    while i > 0
        invariant
            i <= previous@.len(),
            previous_counts(model::views(previous@), name@) == previous_counts(
                model::views(previous@).take(i as int),
                name@,
            ),
        decreases i,
    {
        assert(model::views(previous@).take(i as int).drop_last() =~= model::views(previous@).take(
            i - 1,
        ));
        assert(model::views(previous@).take(i as int).last() == previous@[i - 1]@);
        if previous[i - 1].name == *name {
            return Some((previous[i - 1].rx_bytes, previous[i - 1].tx_bytes));
        }
        i = i - 1;
    }
    None
}

fn find_previous_disk_counts(previous: &Vec<RawDiskSample>, name: &String) -> (r: Option<(u64, u64)>)
    ensures
        r == previous_counts(model::views(previous@), name@),
{
    let mut i: usize = previous.len();
    assert(model::views(previous@).take(i as int) =~= model::views(previous@));
    while i > 0
        invariant
            i <= previous@.len(),
            previous_counts(model::views(previous@), name@) == previous_counts(
                model::views(previous@).take(i as int),
                name@,
            ),
        decreases i,
    {
        assert(model::views(previous@).take(i as int).drop_last() =~= model::views(previous@).take(
            i - 1,
        ));
        assert(model::views(previous@).take(i as int).last() == previous@[i - 1]@);
        if previous[i - 1].name == *name {
            return Some((previous[i - 1].read_bytes, previous[i - 1].write_bytes));
        }
        i = i - 1;
    }
    None
}

/// The shown interfaces of the current sample with their traffic, in
/// sample order.
pub open spec fn network_entries(
    current: Seq<RawNetworkSample>,
    previous: Option<Seq<(Seq<char>, u64, u64)>>,
    elapsed_nanos: u64,
) -> Seq<NetworkIoEntry> {
    current.filter_map(|s: RawNetworkSample| network_entry(s, previous, elapsed_nanos))
}

/// The shown disks of the current sample with their traffic, in sample
/// order.
pub open spec fn disk_entries(
    current: Seq<RawDiskSample>,
    previous: Option<Seq<(Seq<char>, u64, u64)>>,
    elapsed_nanos: u64,
) -> Seq<DiskIoEntry> {
    current.filter_map(|s: RawDiskSample| disk_entry(s, previous, elapsed_nanos))
}

pub open spec fn previous_views<T: View>(previous: Option<&Vec<T>>) -> Option<Seq<T::V>> {
    match previous {
        Some(v) => Some(model::views(v@)),
        None => None,
    }
}

/// The interfaces that are shown, with the bytes they moved in the
/// interval, busiest first and then by name.
pub fn derive_network_io(
    current: &Vec<RawNetworkSample>,
    previous: Option<&Vec<RawNetworkSample>>,
    elapsed_nanos: u64,
) -> (r: Vec<NetworkIoEntry>)
    ensures
        stably_ranked::<BusiestFirst, _>(r@, network_entries(current@, previous_views(previous), elapsed_nanos)),
        forall|i: int| 0 <= i < r@.len() ==> !hidden_network_device(#[trigger] r@[i].name@),
        busiest_network_order(r@),
        forall|i: int, j: int|
            0 <= i < current@.len() && !hidden_network_device(#[trigger] current@[i].name@) && elapsed_nanos > 0
                && previous is Some && #[trigger] last_network_sample(previous->0@, j, current@[i].name@) ==> exists|k: int|
                0 <= k < r@.len() && r@[k].name == current@[i].name && r@[k].rx_bytes == counter_advance(
                    current@[i].rx_bytes,
                    previous->0@[j].rx_bytes,
                ) && r@[k].tx_bytes == counter_advance(current@[i].tx_bytes, previous->0@[j].tx_bytes),
        forall|i: int|
            0 <= i < current@.len() && !hidden_network_device(#[trigger] current@[i].name@) && (elapsed_nanos == 0
                || previous is None || forall|m: int|
                0 <= m < previous->0@.len() ==> (#[trigger] previous->0@[m]).name@ != current@[i].name@)
                ==> exists|k: int| 0 <= k < r@.len() && r@[k].name == current@[i].name && r@[k].rx_bytes == 0
                && r@[k].tx_bytes == 0,
{
    let ghost f = |s: RawNetworkSample| network_entry(s, previous_views(previous), elapsed_nanos);
    let mut entries: Vec<NetworkIoEntry> = Vec::new();
    let mut i: usize = 0;
    while i < current.len()
        invariant
            i <= current@.len(),
            f == (|s: RawNetworkSample| network_entry(s, previous_views(previous), elapsed_nanos)),
            entries@ == current@.take(i as int).filter_map(f),
            forall|j: int| 0 <= j < entries@.len() ==> !hidden_network_device(#[trigger] entries@[j].name@),
        decreases current@.len() - i,
    {
        assert(current@.take(i + 1).drop_last() =~= current@.take(i as int));
        let s = &current[i];
        if !should_hide_network_device(s.name.as_str()) {
            let before = match previous {
                Some(prev) => match find_previous_counts(prev, &s.name) {
                    Some(c) => c,
                    None => (s.rx_bytes, s.tx_bytes),
                },
                None => (s.rx_bytes, s.tx_bytes),
            };
            let (rx, tx) = if elapsed_nanos == 0 {
                (0, 0)
            } else {
                (s.rx_bytes.saturating_sub(before.0), s.tx_bytes.saturating_sub(before.1))
            };
            let entry = NetworkIoEntry { name: s.name.clone(), rx_bytes: rx, tx_bytes: tx };
            assert(f(current@[i as int]) == Some(entry));
            entries.push(entry);
        }
        assert(entries@ =~= current@.take(i + 1).filter_map(f));
        i = i + 1;
    }
    assert(current@.take(i as int) =~= current@);
    let ghost unsorted = entries@;
    let sorted = sort_ranked::<BusiestFirst, _>(entries);
    assert forall|i: int| 0 <= i < sorted@.len() implies !hidden_network_device(#[trigger] sorted@[i].name@) by {
        lemma_same_elements_contains(sorted@, unsorted, i);
    }
    proof {
        lemma_network_list_busiest_first(sorted@);
    }
    assert forall|i: int|
        0 <= i < current@.len() && !hidden_network_device(#[trigger] current@[i].name@) implies exists|k: int|
        0 <= k < sorted@.len() && sorted@[k] == f(current@[i])->0 by {
        assert(f(current@[i]) is Some);
        lemma_filter_map_has(current@, f, i, f(current@[i])->0);
        lemma_has_after_sort(sorted@, unsorted, f(current@[i])->0);
    }
    assert forall|i: int, j: int|
        0 <= i < current@.len() && !hidden_network_device(#[trigger] current@[i].name@) && elapsed_nanos > 0
            && previous is Some && #[trigger] last_network_sample(previous->0@, j, current@[i].name@) implies exists|k: int|
        0 <= k < sorted@.len() && sorted@[k].name == current@[i].name && sorted@[k].rx_bytes == counter_advance(
            current@[i].rx_bytes,
            previous->0@[j].rx_bytes,
        ) && sorted@[k].tx_bytes == counter_advance(current@[i].tx_bytes, previous->0@[j].tx_bytes) by {
        lemma_network_entry_traffic(current@[i], previous->0@, elapsed_nanos);
        assert(previous_views(previous) == Some(views(previous->0@)));
        let k = choose|k: int| 0 <= k < sorted@.len() && sorted@[k] == f(current@[i])->0;
        assert(sorted@[k] == f(current@[i])->0);
    }
    assert forall|i: int|
        0 <= i < current@.len() && !hidden_network_device(#[trigger] current@[i].name@) && (elapsed_nanos == 0
            || previous is None || forall|m: int|
            0 <= m < previous->0@.len() ==> (#[trigger] previous->0@[m]).name@ != current@[i].name@)
            implies exists|k: int| 0 <= k < sorted@.len() && sorted@[k].name == current@[i].name
            && sorted@[k].rx_bytes == 0 && sorted@[k].tx_bytes == 0 by {
        if previous is Some {
            lemma_network_entry_traffic(current@[i], previous->0@, elapsed_nanos);
            assert(previous_views(previous) == Some(views(previous->0@)));
        }
        let k = choose|k: int| 0 <= k < sorted@.len() && sorted@[k] == f(current@[i])->0;
        assert(sorted@[k] == f(current@[i])->0);
    }
    sorted
}

/// The block devices that are shown, with the bytes they moved in the
/// interval, busiest first and then by name.
pub fn derive_disk_io(
    current: &Vec<RawDiskSample>,
    previous: Option<&Vec<RawDiskSample>>,
    elapsed_nanos: u64,
) -> (r: Vec<DiskIoEntry>)
    ensures
        stably_ranked::<BusiestFirst, _>(r@, disk_entries(current@, previous_views(previous), elapsed_nanos)),
        forall|i: int| 0 <= i < r@.len() ==> !hidden_disk_device(#[trigger] r@[i].name@),
        busiest_disk_order(r@),
        forall|i: int, j: int|
            0 <= i < current@.len() && !hidden_disk_device(#[trigger] current@[i].name@) && elapsed_nanos > 0
                && previous is Some && #[trigger] last_disk_sample(previous->0@, j, current@[i].name@) ==> exists|k: int|
                0 <= k < r@.len() && r@[k].name == current@[i].name && r@[k].read_bytes == counter_advance(
                    current@[i].read_bytes,
                    previous->0@[j].read_bytes,
                ) && r@[k].write_bytes == counter_advance(current@[i].write_bytes, previous->0@[j].write_bytes),
        forall|i: int|
            0 <= i < current@.len() && !hidden_disk_device(#[trigger] current@[i].name@) && (elapsed_nanos == 0
                || previous is None || forall|m: int|
                0 <= m < previous->0@.len() ==> (#[trigger] previous->0@[m]).name@ != current@[i].name@)
                ==> exists|k: int| 0 <= k < r@.len() && r@[k].name == current@[i].name && r@[k].read_bytes == 0
                && r@[k].write_bytes == 0,
{
    let ghost f = |s: RawDiskSample| disk_entry(s, previous_views(previous), elapsed_nanos);
    let mut entries: Vec<DiskIoEntry> = Vec::new();
    let mut i: usize = 0;
    while i < current.len()
        invariant
            i <= current@.len(),
            f == (|s: RawDiskSample| disk_entry(s, previous_views(previous), elapsed_nanos)),
            entries@ == current@.take(i as int).filter_map(f),
            forall|j: int| 0 <= j < entries@.len() ==> !hidden_disk_device(#[trigger] entries@[j].name@),
        decreases current@.len() - i,
    {
        assert(current@.take(i + 1).drop_last() =~= current@.take(i as int));
        let s = &current[i];
        if !should_hide_disk_device(s.name.as_str()) {
            let before = match previous {
                Some(prev) => match find_previous_disk_counts(prev, &s.name) {
                    Some(c) => c,
                    None => (s.read_bytes, s.write_bytes),
                },
                None => (s.read_bytes, s.write_bytes),
            };
            let (rd, wr) = if elapsed_nanos == 0 {
                (0, 0)
            } else {
                (s.read_bytes.saturating_sub(before.0), s.write_bytes.saturating_sub(before.1))
            };
            let entry = DiskIoEntry { name: s.name.clone(), read_bytes: rd, write_bytes: wr };
            assert(f(current@[i as int]) == Some(entry));
            entries.push(entry);
        }
        assert(entries@ =~= current@.take(i + 1).filter_map(f));
        i = i + 1;
    }
    assert(current@.take(i as int) =~= current@);
    let ghost unsorted = entries@;
    let sorted = sort_ranked::<BusiestFirst, _>(entries);
    assert forall|i: int| 0 <= i < sorted@.len() implies !hidden_disk_device(#[trigger] sorted@[i].name@) by {
        lemma_same_elements_contains(sorted@, unsorted, i);
    }
    proof {
        lemma_disk_list_busiest_first(sorted@);
    }
    assert forall|i: int|
        0 <= i < current@.len() && !hidden_disk_device(#[trigger] current@[i].name@) implies exists|k: int|
        0 <= k < sorted@.len() && sorted@[k] == f(current@[i])->0 by {
        assert(f(current@[i]) is Some);
        lemma_filter_map_has(current@, f, i, f(current@[i])->0);
        lemma_has_after_sort(sorted@, unsorted, f(current@[i])->0);
    }
    assert forall|i: int, j: int|
        0 <= i < current@.len() && !hidden_disk_device(#[trigger] current@[i].name@) && elapsed_nanos > 0
            && previous is Some && #[trigger] last_disk_sample(previous->0@, j, current@[i].name@) implies exists|k: int|
        0 <= k < sorted@.len() && sorted@[k].name == current@[i].name && sorted@[k].read_bytes == counter_advance(
            current@[i].read_bytes,
            previous->0@[j].read_bytes,
        ) && sorted@[k].write_bytes == counter_advance(current@[i].write_bytes, previous->0@[j].write_bytes) by {
        lemma_disk_entry_traffic(current@[i], previous->0@, elapsed_nanos);
        assert(previous_views(previous) == Some(views(previous->0@)));
        let k = choose|k: int| 0 <= k < sorted@.len() && sorted@[k] == f(current@[i])->0;
        assert(sorted@[k] == f(current@[i])->0);
    }
    assert forall|i: int|
        0 <= i < current@.len() && !hidden_disk_device(#[trigger] current@[i].name@) && (elapsed_nanos == 0
            || previous is None || forall|m: int|
            0 <= m < previous->0@.len() ==> (#[trigger] previous->0@[m]).name@ != current@[i].name@)
            implies exists|k: int| 0 <= k < sorted@.len() && sorted@[k].name == current@[i].name
            && sorted@[k].read_bytes == 0 && sorted@[k].write_bytes == 0 by {
        if previous is Some {
            lemma_disk_entry_traffic(current@[i], previous->0@, elapsed_nanos);
            assert(previous_views(previous) == Some(views(previous->0@)));
        }
        let k = choose|k: int| 0 <= k < sorted@.len() && sorted@[k] == f(current@[i])->0;
        assert(sorted@[k] == f(current@[i])->0);
    }
    sorted
}

/// The samples of the CPUs of `/proc/stat`, numbered in order, each with
/// the frequency read for it (none where none was read).
pub fn cpu_samples(per_cpu: &Vec<CpuCounters>, frequencies: &HashMap<usize, Option<u64>>) -> (r: Vec<RawCpuSample>)
    ensures
        r@.len() == per_cpu@.len(),
        forall|i: int|
            0 <= i < r@.len() ==> #[trigger] r@[i] == (RawCpuSample {
                id: i as usize,
                counters: per_cpu@[i],
                frequency_khz: if frequencies@.contains_key(i as usize) {
                    frequencies@[i as usize]
                } else {
                    None
                },
            }),
{
    broadcast use vstd::std_specs::hash::group_hash_axioms;

    let mut r: Vec<RawCpuSample> = Vec::new();
    let mut i: usize = 0;
    while i < per_cpu.len()
        invariant
            i <= per_cpu@.len(),
            r@.len() == i,
            forall|j: int|
                0 <= j < i ==> #[trigger] r@[j] == (RawCpuSample {
                    id: j as usize,
                    counters: per_cpu@[j],
                    frequency_khz: if frequencies@.contains_key(j as usize) {
                        frequencies@[j as usize]
                    } else {
                        None
                    },
                }),
        decreases per_cpu@.len() - i,
    {
        let frequency_khz = match frequencies.get(&i) {
            Some(f) => *f,
            None => None,
        };
        r.push(RawCpuSample { id: i, counters: per_cpu[i], frequency_khz });
        i = i + 1;
    }
    r
}

/// Whether the per-CPU deltas start afresh: there is no earlier sample, or
/// the number of CPUs changed since it.
pub open spec fn resets_cpu_deltas(previous: Option<&RawSnapshot>, current: &RawSnapshot) -> bool {
    match previous {
        None => true,
        Some(p) => p.cpus@.len() != current.cpus@.len(),
    }
}

/// The processes that CPU deltas are counted from.
pub open spec fn delta_base_processes(previous: Option<&RawSnapshot>, current: &RawSnapshot) -> Seq<RawProcessSample> {
    match previous {
        Some(p) if !resets_cpu_deltas(previous, current) => p.processes@,
        _ => Seq::empty(),
    }
}

/// The jiffies of the interval over all CPUs (zero after a reset).
pub open spec fn total_cpu_delta(previous: Option<&RawSnapshot>, current: &RawSnapshot) -> u64 {
    match previous {
        Some(p) if !resets_cpu_deltas(previous, current) => sat_sub(current.overall_cpu.total, p.overall_cpu.total),
        _ => 0,
    }
}

/// The time between the samples (zero without an earlier one).
pub open spec fn elapsed_between(previous: Option<&RawSnapshot>, current: &RawSnapshot) -> u64 {
    match previous {
        Some(p) => sat_sub(current.captured_at_nanos, p.captured_at_nanos),
        None => 0,
    }
}

/// The share of the interval that the machine was busy (none after a
/// reset).
pub open spec fn overall_share(previous: Option<&RawSnapshot>, current: &RawSnapshot) -> CpuShare {
    match previous {
        Some(p) if !resets_cpu_deltas(previous, current) => spec_usage_share(p.overall_cpu, current.overall_cpu),
        _ => CpuShare { busy_ticks: 0, total_ticks: 0 },
    }
}

/// The row of the CPU at `index`: its busy share since the CPU at the same
/// index of the earlier sample, its frequency and its temperature.
pub open spec fn cpu_metrics_at(
    previous: Option<&RawSnapshot>,
    current: &RawSnapshot,
    profile: BoardProfile,
    index: int,
) -> CpuMetrics {
    let cpu = current.cpus@[index];
    CpuMetrics {
        id: cpu.id,
        usage: match previous {
            Some(p) if !resets_cpu_deltas(previous, current) => spec_usage_share(p.cpus@[index].counters, cpu.counters),
            _ => CpuShare { busy_ticks: 0, total_ticks: 0 },
        },
        frequency_khz: cpu.frequency_khz,
        temperature_millic: cpu_temperature(profile, cpu.id, current.sensors@),
    }
}

pub open spec fn network_of(previous: Option<&RawSnapshot>) -> Option<Seq<(Seq<char>, u64, u64)>> {
    match previous {
        Some(p) => Some(views(p.network@)),
        None => None,
    }
}

pub open spec fn disks_of(previous: Option<&RawSnapshot>) -> Option<Seq<(Seq<char>, u64, u64)>> {
    match previous {
        Some(p) => Some(views(p.disks@)),
        None => None,
    }
}

fn copy_machine(m: &MachineInfo) -> (r: MachineInfo)
    ensures
        r == *m,
{
    MachineInfo {
        machine_name: m.machine_name.clone(),
        kernel: m.kernel.clone(),
        arch: m.arch.clone(),
    }
}

fn copy_sensors(v: &Vec<SensorReading>) -> (r: Vec<SensorReading>)
    ensures
        r@ == v@,
{
    let mut r: Vec<SensorReading> = Vec::new();
    let mut i: usize = 0;
    while i < v.len()
        invariant
            i <= v@.len(),
            r@ == v@.take(i as int),
        decreases v@.len() - i,
    {
        let s = &v[i];
        r.push(
            SensorReading {
                source: s.source,
                device_name: s.device_name.clone(),
                label: s.label.clone(),
                kind: s.kind,
                temperature_millic: s.temperature_millic,
            },
        );
        assert(r@ =~= v@.take(i + 1));
        i = i + 1;
    }
    assert(v@.take(i as int) =~= v@);
    r
}

/// What the dashboard shows of the interval from `previous` to `current`.
///
/// Per-CPU and per-process CPU deltas start afresh when there is no
/// earlier sample or the number of CPUs changed; byte counts of interfaces
/// and disks are compared by name with the earlier sample.
#[verifier::loop_isolation(false)]
pub fn derive_snapshot(previous: Option<&RawSnapshot>, current: &RawSnapshot, profile: BoardProfile) -> (r: SystemSnapshot)
    ensures
        r.machine == current.machine,
        r.memory == memory_metrics(
            current.total_mem_bytes,
            current.available_mem_bytes,
            current.swap_total_bytes,
            current.swap_free_bytes,
            views(current.swaps@),
        ),
        r.overall_usage == overall_share(previous, current),
        r.cpus@.len() == current.cpus@.len(),
        forall|i: int| 0 <= i < r.cpus@.len() ==> #[trigger] r.cpus@[i] == cpu_metrics_at(previous, current, profile, i),
        stably_ranked::<BusiestFirst, _>(
            r.process_list@,
            process_entries(
                current.processes@,
                delta_base_processes(previous, current),
                current.total_mem_bytes,
                current.cpus@.len() as usize,
                total_cpu_delta(previous, current),
            ),
        ),
        stably_ranked::<BusiestFirst, _>(
            r.network_io@,
            network_entries(current.network@, network_of(previous), elapsed_between(previous, current)),
        ),
        stably_ranked::<BusiestFirst, _>(
            r.disk_io@,
            disk_entries(current.disks@, disks_of(previous), elapsed_between(previous, current)),
        ),
        forall|i: int| 0 <= i < r.network_io@.len() ==> !hidden_network_device(#[trigger] r.network_io@[i].name@),
        busiest_process_order(r.process_list@),
        busiest_network_order(r.network_io@),
        busiest_disk_order(r.disk_io@),
        forall|i: int| 0 <= i < r.disk_io@.len() ==> !hidden_disk_device(#[trigger] r.disk_io@[i].name@),
        views(r.sensor_summary@) == summary_of(profile, current.sensors@),
        r.sensors@ == current.sensors@,
        r.total_cpu_ticks == total_cpu_delta(previous, current),
        r.cpu_count == current.cpus@.len(),
        r.total_mem_bytes == current.total_mem_bytes,
        r.elapsed_nanos == elapsed_between(previous, current),
{
    let reset = match previous {
        None => true,
        Some(p) => p.cpus.len() != current.cpus.len(),
    };
    let empty: Vec<RawProcessSample> = Vec::new();
    let base: &Vec<RawProcessSample> = match previous {
        Some(p) => if reset {
            &empty
        } else {
            &p.processes
        },
        None => &empty,
    };
    assert(base@ == delta_base_processes(previous, current));
    let total_delta: u64 = match previous {
        Some(p) => if reset {
            0
        } else {
            current.overall_cpu.total.saturating_sub(p.overall_cpu.total)
        },
        None => 0,
    };
    let elapsed: u64 = match previous {
        Some(p) => current.captured_at_nanos.saturating_sub(p.captured_at_nanos),
        None => 0,
    };
    let overall_usage = match previous {
        Some(p) => if reset {
            CpuShare { busy_ticks: 0, total_ticks: 0 }
        } else {
            usage_share(p.overall_cpu, current.overall_cpu)
        },
        None => CpuShare { busy_ticks: 0, total_ticks: 0 },
    };
    let sensor_summary = profile.sensor_summary(&current.sensors);
    let mut cpus: Vec<CpuMetrics> = Vec::new();
    let mut i: usize = 0;
    while i < current.cpus.len()
        invariant
            i <= current.cpus@.len(),
            cpus@.len() == i,
            forall|j: int| 0 <= j < i ==> #[trigger] cpus@[j] == cpu_metrics_at(previous, current, profile, j),
        decreases current.cpus@.len() - i,
    {
        let cpu = &current.cpus[i];
        let usage = match previous {
            Some(p) => if reset {
                CpuShare { busy_ticks: 0, total_ticks: 0 }
            } else {
                usage_share(p.cpus[i].counters, cpu.counters)
            },
            None => CpuShare { busy_ticks: 0, total_ticks: 0 },
        };
        let temperature_millic = profile.per_cpu_temperature(cpu.id, &current.sensors);
        cpus.push(
            CpuMetrics { id: cpu.id, usage, frequency_khz: cpu.frequency_khz, temperature_millic },
        );
        i = i + 1;
    }
    let memory = derive_memory_metrics(
        current.total_mem_bytes,
        current.available_mem_bytes,
        current.swap_total_bytes,
        current.swap_free_bytes,
        &current.swaps,
    );
    let previous_network: Option<&Vec<RawNetworkSample>> = match previous {
        Some(p) => Some(&p.network),
        None => None,
    };
    let previous_disks: Option<&Vec<RawDiskSample>> = match previous {
        Some(p) => Some(&p.disks),
        None => None,
    };
    assert(previous_views(previous_network) == network_of(previous));
    assert(previous_views(previous_disks) == disks_of(previous));
    let network_io = derive_network_io(&current.network, previous_network, elapsed);
    let disk_io = derive_disk_io(&current.disks, previous_disks, elapsed);
    let process_list = derive_process_list(
        &current.processes,
        base,
        current.total_mem_bytes,
        current.cpus.len(),
        total_delta,
    );
    SystemSnapshot {
        machine: copy_machine(&current.machine),
        memory,
        process_list,
        overall_usage,
        cpus,
        network_io,
        disk_io,
        sensor_summary,
        sensors: copy_sensors(&current.sensors),
        total_cpu_ticks: total_delta,
        cpu_count: current.cpus.len(),
        total_mem_bytes: current.total_mem_bytes,
        elapsed_nanos: elapsed,
    }
}

/// When the number of CPUs changes between two samples, no CPU usage is
/// derived from them: the machine, every CPU and every process show none.
pub proof fn lemma_topology_change_resets_usage(previous: &RawSnapshot, current: &RawSnapshot, profile: BoardProfile)
    requires
        previous.cpus@.len() != current.cpus@.len(),
    ensures
        overall_share(Some(previous), current) == (CpuShare { busy_ticks: 0, total_ticks: 0 }),
        total_cpu_delta(Some(previous), current) == 0,
        forall|i: int|
            0 <= i < current.cpus@.len() ==> (#[trigger] cpu_metrics_at(Some(previous), current, profile, i)).usage
                == (CpuShare { busy_ticks: 0, total_ticks: 0 }),
        forall|p: RawProcessSample|
            (#[trigger] process_entry(
                p,
                delta_base_processes(Some(previous), current),
                current.total_mem_bytes,
                current.cpus@.len() as usize,
                total_cpu_delta(Some(previous), current),
            )).cpu_ticks == 0,
{
}

/// Without an earlier sample no time has passed, so no interface or disk
/// shows traffic.
pub proof fn lemma_first_sample_shows_no_traffic(current: &RawSnapshot, n: RawNetworkSample, d: RawDiskSample)
    ensures
        network_entry(n, network_of(None), elapsed_between(None, current)) matches Some(e) ==> e.rx_bytes
            == 0 && e.tx_bytes == 0,
        disk_entry(d, disks_of(None), elapsed_between(None, current)) matches Some(e) ==> e.read_bytes
            == 0 && e.write_bytes == 0,
{
}

/// The machine being watched and its last sample: each new sample is
/// compared with the one before it.
pub struct SampleHistory {
    machine: MachineInfo,
    previous: Option<RawSnapshot>,
}

impl SampleHistory {
    pub closed spec fn machine_of(&self) -> MachineInfo {
        self.machine
    }

    pub closed spec fn previous_sample(&self) -> Option<RawSnapshot> {
        self.previous
    }

    /// A history of the machine with no sample yet.
    pub fn new(machine: MachineInfo) -> (r: Self)
        ensures
            r.machine_of() == machine,
            r.previous_sample() is None,
    {
        SampleHistory { machine, previous: None }
    }

    /// The machine being watched.
    pub fn machine(&self) -> (r: &MachineInfo)
        ensures
            *r == self.machine_of(),
    {
        &self.machine
    }

    /// The snapshot of the interval that ends with `current`, with the
    /// profile that the machine and the current sensors give; `current`
    /// becomes the sample the next one is compared with.
    pub fn advance(&mut self, current: RawSnapshot) -> (r: (BoardProfile, SystemSnapshot))
        ensures
            r.0 == detected_profile(old(self).machine_of().machine_name@, current.sensors@),
            final(self).machine_of() == old(self).machine_of(),
            final(self).previous_sample() == Some(current),
            r.1.machine == current.machine,
            r.1.memory == memory_metrics(
                current.total_mem_bytes,
                current.available_mem_bytes,
                current.swap_total_bytes,
                current.swap_free_bytes,
                views(current.swaps@),
            ),
            ({
                let previous = match old(self).previous_sample() {
                    Some(p) => Some(&p),
                    None => None,
                };
                &&& r.1.overall_usage == overall_share(previous, &current)
                &&& r.1.cpus@.len() == current.cpus@.len()
                &&& forall|i: int|
                    0 <= i < r.1.cpus@.len() ==> #[trigger] r.1.cpus@[i] == cpu_metrics_at(
                        previous,
                        &current,
                        r.0,
                        i,
                    )
                &&& stably_ranked::<BusiestFirst, _>(
                    r.1.process_list@,
                    process_entries(
                        current.processes@,
                        delta_base_processes(previous, &current),
                        current.total_mem_bytes,
                        current.cpus@.len() as usize,
                        total_cpu_delta(previous, &current),
                    ),
                )
                &&& stably_ranked::<BusiestFirst, _>(
                    r.1.network_io@,
                    network_entries(current.network@, network_of(previous), elapsed_between(previous, &current)),
                )
                &&& stably_ranked::<BusiestFirst, _>(
                    r.1.disk_io@,
                    disk_entries(current.disks@, disks_of(previous), elapsed_between(previous, &current)),
                )
                &&& r.1.total_cpu_ticks == total_cpu_delta(previous, &current)
                &&& r.1.elapsed_nanos == elapsed_between(previous, &current)
            }),
            views(r.1.sensor_summary@) == summary_of(r.0, current.sensors@),
            r.1.sensors@ == current.sensors@,
            r.1.cpu_count == current.cpus@.len(),
            r.1.total_mem_bytes == current.total_mem_bytes,
    {
        let profile = BoardProfile::detect(&self.machine, &current.sensors);
        let snapshot = derive_snapshot(self.previous.as_ref(), &current, profile);
        self.previous = Some(current);
        (profile, snapshot)
    }
}

/// A process with no earlier sample shows no CPU time: there is nothing to
/// count its ticks from.
pub proof fn lemma_new_process_shows_no_cpu(
    p: RawProcessSample,
    previous: Seq<RawProcessSample>,
    total_mem_bytes: u64,
    cpu_count: usize,
    total_cpu_delta: u64,
)
    requires
        previous_ticks(previous, p.key) is None,
    ensures
        process_entry(p, previous, total_mem_bytes, cpu_count, total_cpu_delta).cpu_ticks == 0,
{
}

/// In every memory row the bytes in use never exceed the total, and the
/// zram row counts only zram swap areas.
pub proof fn lemma_memory_rows_within_total(
    total_mem: u64,
    available_mem: u64,
    swap_total: u64,
    swap_free: u64,
    swaps: Seq<(Seq<char>, u64, u64)>,
)
    ensures
        ({
            let m = memory_metrics(total_mem, available_mem, swap_total, swap_free, swaps);
            &&& m.ram.used_bytes <= m.ram.total_bytes
            &&& m.swap.used_bytes <= m.swap.total_bytes
            &&& m.zram.used_bytes <= m.zram.total_bytes
        }),
        (forall|i: int| 0 <= i < swaps.len() ==> !"zram"@.is_prefix_of(#[trigger] swaps[i].0)) ==> zram_totals(
            swaps,
        ) == (0u64, 0u64),
    decreases swaps.len(),
{
    if swaps.len() > 0 {
        lemma_memory_rows_within_total(total_mem, available_mem, swap_total, swap_free, swaps.drop_last());
        if forall|i: int| 0 <= i < swaps.len() ==> !"zram"@.is_prefix_of(#[trigger] swaps[i].0) {
            assert forall|i: int| 0 <= i < swaps.drop_last().len() implies !"zram"@.is_prefix_of(
                #[trigger] swaps.drop_last()[i].0,
            ) by {
                assert(swaps.drop_last()[i] == swaps[i]);
            }
            assert(swaps.last() == swaps[swaps.len() - 1]);
        }
    }
}

/// `r` lists `e`.
pub open spec fn lists<T>(r: Seq<T>, e: T) -> bool {
    exists|k: int| 0 <= k < r.len() && r[k] == e
}

/// The process list runs from the most CPU ticks to the fewest; among
/// equal CPU ticks, from the largest memory share to the smallest; among
/// equal both, by ascending pid.
pub open spec fn busiest_process_order(r: Seq<ProcessEntry>) -> bool {
    forall|i: int, j: int|
        0 <= i < j < r.len() ==> {
            &&& (#[trigger] r[i]).cpu_ticks >= (#[trigger] r[j]).cpu_ticks
            &&& (r[i].cpu_ticks == r[j].cpu_ticks ==> r[i].mem_share_bytes >= r[j].mem_share_bytes)
            &&& (r[i].cpu_ticks == r[j].cpu_ticks && r[i].mem_share_bytes == r[j].mem_share_bytes
                ==> r[i].pid <= r[j].pid)
        }
}

/// A process list in rank order is busiest first: CPU ticks descending,
/// then memory share descending, then pid ascending.
pub proof fn lemma_process_list_busiest_first(r: Seq<ProcessEntry>)
    requires
        ranked::<BusiestFirst, ProcessEntry>(r),
    ensures
        busiest_process_order(r),
{
    assert forall|i: int, j: int| 0 <= i < j < r.len() implies {
        &&& (#[trigger] r[i]).cpu_ticks >= (#[trigger] r[j]).cpu_ticks
        &&& (r[i].cpu_ticks == r[j].cpu_ticks ==> r[i].mem_share_bytes >= r[j].mem_share_bytes)
        &&& (r[i].cpu_ticks == r[j].cpu_ticks && r[i].mem_share_bytes == r[j].mem_share_bytes
            ==> r[i].pid <= r[j].pid)
    } by {
        assert(r[i].ranks_before(&r[j]));
    }
}

/// The traffic lists run from the most bytes moved in both directions
/// to the fewest, equal totals by name.
pub open spec fn busiest_network_order(r: Seq<NetworkIoEntry>) -> bool {
    forall|i: int, j: int|
        0 <= i < j < r.len() ==> {
            &&& (#[trigger] r[i]).rx_bytes + r[i].tx_bytes >= (#[trigger] r[j]).rx_bytes + r[j].tx_bytes
            &&& (r[i].rx_bytes + r[i].tx_bytes == r[j].rx_bytes + r[j].tx_bytes ==> lex_le(
                r[i].name@,
                r[j].name@,
            ))
        }
}

/// The disk list runs from the most bytes read and written to the fewest,
/// equal totals by name.
pub open spec fn busiest_disk_order(r: Seq<DiskIoEntry>) -> bool {
    forall|i: int, j: int|
        0 <= i < j < r.len() ==> {
            &&& (#[trigger] r[i]).read_bytes + r[i].write_bytes >= (#[trigger] r[j]).read_bytes
                + r[j].write_bytes
            &&& (r[i].read_bytes + r[i].write_bytes == r[j].read_bytes + r[j].write_bytes ==> lex_le(
                r[i].name@,
                r[j].name@,
            ))
        }
}

/// Interfaces in rank order are busiest first, then by name.
pub proof fn lemma_network_list_busiest_first(r: Seq<NetworkIoEntry>)
    requires
        ranked::<BusiestFirst, NetworkIoEntry>(r),
    ensures
        busiest_network_order(r),
{
    assert forall|i: int, j: int| 0 <= i < j < r.len() implies {
        &&& (#[trigger] r[i]).rx_bytes + r[i].tx_bytes >= (#[trigger] r[j]).rx_bytes + r[j].tx_bytes
        &&& (r[i].rx_bytes + r[i].tx_bytes == r[j].rx_bytes + r[j].tx_bytes ==> lex_le(
            r[i].name@,
            r[j].name@,
        ))
    } by {
        assert(r[i].ranks_before(&r[j]));
    }
}

/// Disks in rank order are busiest first, then by name.
pub proof fn lemma_disk_list_busiest_first(r: Seq<DiskIoEntry>)
    requires
        ranked::<BusiestFirst, DiskIoEntry>(r),
    ensures
        busiest_disk_order(r),
{
    assert forall|i: int, j: int| 0 <= i < j < r.len() implies {
        &&& (#[trigger] r[i]).read_bytes + r[i].write_bytes >= (#[trigger] r[j]).read_bytes
            + r[j].write_bytes
        &&& (r[i].read_bytes + r[i].write_bytes == r[j].read_bytes + r[j].write_bytes ==> lex_le(
            r[i].name@,
            r[j].name@,
        ))
    } by {
        assert(r[i].ranks_before(&r[j]));
    }
}

/// The bytes a counter advanced from `before` to `now`; none when it went
/// back.
pub open spec fn counter_advance(now: u64, before: u64) -> int {
    if now >= before {
        now - before
    } else {
        0
    }
}

/// `j` is the last earlier sample of the interface named `name`.
pub open spec fn last_network_sample(previous: Seq<RawNetworkSample>, j: int, name: Seq<char>) -> bool {
    &&& 0 <= j < previous.len()
    &&& previous[j].name@ == name
    &&& forall|k: int| j < k < previous.len() ==> (#[trigger] previous[k]).name@ != name
}

/// `j` is the last earlier sample of the disk named `name`.
pub open spec fn last_disk_sample(previous: Seq<RawDiskSample>, j: int, name: Seq<char>) -> bool {
    &&& 0 <= j < previous.len()
    &&& previous[j].name@ == name
    &&& forall|k: int| j < k < previous.len() ==> (#[trigger] previous[k]).name@ != name
}

/// The counts of the last sample with a name are the ones looked up.
proof fn lemma_previous_counts_last(v: Seq<(Seq<char>, u64, u64)>, j: int, name: Seq<char>)
    requires
        0 <= j < v.len(),
        v[j].0 == name,
        forall|k: int| j < k < v.len() ==> (#[trigger] v[k]).0 != name,
    ensures
        previous_counts(v, name) == Some((v[j].1, v[j].2)),
    decreases v.len(),
{
    if j < v.len() - 1 {
        assert(v.last() == v[v.len() - 1]);
        let rest = v.drop_last();
        assert forall|k: int| j < k < rest.len() implies (#[trigger] rest[k]).0 != name by {
            assert(rest[k] == v[k]);
        }
        lemma_previous_counts_last(rest, j, name);
    }
}

/// A name no earlier sample has is not looked up.
proof fn lemma_previous_counts_none(v: Seq<(Seq<char>, u64, u64)>, name: Seq<char>)
    requires
        forall|k: int| 0 <= k < v.len() ==> (#[trigger] v[k]).0 != name,
    ensures
        previous_counts(v, name) is None,
    decreases v.len(),
{
    if v.len() > 0 {
        assert(v.last() == v[v.len() - 1]);
        let rest = v.drop_last();
        assert forall|k: int| 0 <= k < rest.len() implies (#[trigger] rest[k]).0 != name by {
            assert(rest[k] == v[k]);
        }
        lemma_previous_counts_none(rest, name);
    }
}

/// What `f` gives of an element is in the filtered sequence.
proof fn lemma_filter_map_has<A, B>(s: Seq<A>, f: spec_fn(A) -> Option<B>, i: int, b: B)
    requires
        0 <= i < s.len(),
        f(s[i]) == Some(b),
    ensures
        s.filter_map(f).contains(b),
    decreases s.len(),
{
    let rest = s.drop_last();
    if i == s.len() - 1 {
        assert(s.last() == s[i]);
        assert(s.filter_map(f) == rest.filter_map(f) + seq![b]);
        assert(s.filter_map(f)[rest.filter_map(f).len() as int] == b);
    } else {
        assert(rest[i] == s[i]);
        lemma_filter_map_has(rest, f, i, b);
        let k = choose|k: int| 0 <= k < rest.filter_map(f).len() && rest.filter_map(f)[k] == b;
        match f(s.last()) {
            Some(x) => {
                assert(s.filter_map(f) == rest.filter_map(f) + seq![x]);
                assert(s.filter_map(f)[k] == b);
            },
            None => {},
        }
    }
}

/// A shown interface's entry holds, for each direction, what that
/// direction's counter advanced since the last earlier sample of the same
/// name: none without such a sample, and none when no time passed.
pub proof fn lemma_network_entry_traffic(
    s: RawNetworkSample,
    previous: Seq<RawNetworkSample>,
    elapsed_nanos: u64,
)
    requires
        !hidden_network_device(s.name@),
    ensures
        network_entry(s, Some(views(previous)), elapsed_nanos) is Some,
        network_entry(s, Some(views(previous)), elapsed_nanos)->0.name == s.name,
        forall|j: int| #[trigger] last_network_sample(previous, j, s.name@) && elapsed_nanos > 0 ==> {
            let e = network_entry(s, Some(views(previous)), elapsed_nanos)->0;
            &&& e.rx_bytes == counter_advance(s.rx_bytes, previous[j].rx_bytes)
            &&& e.tx_bytes == counter_advance(s.tx_bytes, previous[j].tx_bytes)
        },
        (forall|k: int| 0 <= k < previous.len() ==> (#[trigger] previous[k]).name@ != s.name@)
            || elapsed_nanos == 0 ==> {
            let e = network_entry(s, Some(views(previous)), elapsed_nanos)->0;
            e.rx_bytes == 0 && e.tx_bytes == 0
        },
{
    let v = views(previous);
    assert forall|j: int| #[trigger] last_network_sample(previous, j, s.name@) && elapsed_nanos > 0 implies {
        let e = network_entry(s, Some(views(previous)), elapsed_nanos)->0;
        &&& e.rx_bytes == counter_advance(s.rx_bytes, previous[j].rx_bytes)
        &&& e.tx_bytes == counter_advance(s.tx_bytes, previous[j].tx_bytes)
    } by {
        assert forall|k: int| j < k < v.len() implies (#[trigger] v[k]).0 != s.name@ by {
            assert(v[k] == previous[k]@);
        }
        assert(v[j] == previous[j]@);
        lemma_previous_counts_last(v, j, s.name@);
    }
    if forall|k: int| 0 <= k < previous.len() ==> (#[trigger] previous[k]).name@ != s.name@ {
        assert forall|k: int| 0 <= k < v.len() implies (#[trigger] v[k]).0 != s.name@ by {
            assert(v[k] == previous[k]@);
        }
        lemma_previous_counts_none(v, s.name@);
    }
}

/// A shown disk's entry holds the bytes read and the bytes written since
/// the last earlier sample of the same name, each from its own counter:
/// none without such a sample, and none when no time passed.
pub proof fn lemma_disk_entry_traffic(s: RawDiskSample, previous: Seq<RawDiskSample>, elapsed_nanos: u64)
    requires
        !hidden_disk_device(s.name@),
    ensures
        disk_entry(s, Some(views(previous)), elapsed_nanos) is Some,
        disk_entry(s, Some(views(previous)), elapsed_nanos)->0.name == s.name,
        forall|j: int| #[trigger] last_disk_sample(previous, j, s.name@) && elapsed_nanos > 0 ==> {
            let e = disk_entry(s, Some(views(previous)), elapsed_nanos)->0;
            &&& e.read_bytes == counter_advance(s.read_bytes, previous[j].read_bytes)
            &&& e.write_bytes == counter_advance(s.write_bytes, previous[j].write_bytes)
        },
        (forall|k: int| 0 <= k < previous.len() ==> (#[trigger] previous[k]).name@ != s.name@)
            || elapsed_nanos == 0 ==> {
            let e = disk_entry(s, Some(views(previous)), elapsed_nanos)->0;
            e.read_bytes == 0 && e.write_bytes == 0
        },
{
    let v = views(previous);
    assert forall|j: int| #[trigger] last_disk_sample(previous, j, s.name@) && elapsed_nanos > 0 implies {
        let e = disk_entry(s, Some(views(previous)), elapsed_nanos)->0;
        &&& e.read_bytes == counter_advance(s.read_bytes, previous[j].read_bytes)
        &&& e.write_bytes == counter_advance(s.write_bytes, previous[j].write_bytes)
    } by {
        assert forall|k: int| j < k < v.len() implies (#[trigger] v[k]).0 != s.name@ by {
            assert(v[k] == previous[k]@);
        }
        assert(v[j] == previous[j]@);
        lemma_previous_counts_last(v, j, s.name@);
    }
    if forall|k: int| 0 <= k < previous.len() ==> (#[trigger] previous[k]).name@ != s.name@ {
        assert forall|k: int| 0 <= k < v.len() implies (#[trigger] v[k]).0 != s.name@ by {
            assert(v[k] == previous[k]@);
        }
        lemma_previous_counts_none(v, s.name@);
    }
}

/// An element of a list is in any list with the same elements.
proof fn lemma_has_after_sort<T>(sorted: Seq<T>, unsorted: Seq<T>, e: T)
    requires
        sorted.to_multiset() == unsorted.to_multiset(),
        unsorted.contains(e),
    ensures
        exists|k: int| 0 <= k < sorted.len() && sorted[k] == e,
{
    let m = choose|m: int| 0 <= m < unsorted.len() && unsorted[m] == e;
    lemma_same_elements_contains(unsorted, sorted, m);
}

/// `j` is the last earlier sample of the process with the key.
pub open spec fn last_process_sample(previous: Seq<RawProcessSample>, j: int, key: ProcessKey) -> bool {
    &&& 0 <= j < previous.len()
    &&& previous[j].key == key
    &&& forall|k: int| j < k < previous.len() ==> (#[trigger] previous[k]).key != key
}

proof fn lemma_previous_ticks_last(previous: Seq<RawProcessSample>, j: int, key: ProcessKey)
    requires
        last_process_sample(previous, j, key),
    ensures
        previous_ticks(previous, key) == Some(previous[j].total_time_ticks),
    decreases previous.len(),
{
    if j < previous.len() - 1 {
        let rest = previous.drop_last();
        assert(previous.last() == previous[previous.len() - 1]);
        assert forall|k: int| j < k < rest.len() implies (#[trigger] rest[k]).key != key by {
            assert(rest[k] == previous[k]);
        }
        lemma_previous_ticks_last(rest, j, key);
    }
}

proof fn lemma_previous_ticks_none(previous: Seq<RawProcessSample>, key: ProcessKey)
    requires
        forall|k: int| 0 <= k < previous.len() ==> (#[trigger] previous[k]).key != key,
    ensures
        previous_ticks(previous, key) is None,
    decreases previous.len(),
{
    if previous.len() > 0 {
        let rest = previous.drop_last();
        assert(previous.last() == previous[previous.len() - 1]);
        assert forall|k: int| 0 <= k < rest.len() implies (#[trigger] rest[k]).key != key by {
            assert(rest[k] == previous[k]);
        }
        lemma_previous_ticks_none(rest, key);
    }
}

/// A process's entry: its pid, its CPU ticks since the last earlier sample
/// of the same process (none for a new process, and none when the
/// interval's total or the CPU count is unknown), and its resident size as
/// its memory share when total memory is known.
pub proof fn lemma_process_entry_counts(
    p: RawProcessSample,
    previous: Seq<RawProcessSample>,
    total_mem_bytes: u64,
    cpu_count: usize,
    total_cpu_delta: u64,
)
    ensures
        ({
            let e = process_entry(p, previous, total_mem_bytes, cpu_count, total_cpu_delta);
            &&& e.pid == p.key.pid
            &&& e.rss_bytes == p.rss_bytes
            &&& e.mem_share_bytes == if total_mem_bytes == 0 {
                0
            } else {
                p.rss_bytes
            }
            &&& (total_cpu_delta == 0 || cpu_count == 0 || (forall|k: int|
                0 <= k < previous.len() ==> (#[trigger] previous[k]).key != p.key)) ==> e.cpu_ticks == 0
            &&& forall|j: int| #[trigger] last_process_sample(previous, j, p.key) && total_cpu_delta > 0
                && cpu_count > 0 ==> e.cpu_ticks == counter_advance(
                p.total_time_ticks,
                previous[j].total_time_ticks,
            )
        }),
{
    assert forall|j: int| #[trigger] last_process_sample(previous, j, p.key) implies previous_ticks(
        previous,
        p.key,
    ) == Some(previous[j].total_time_ticks) by {
        lemma_previous_ticks_last(previous, j, p.key);
    }
    if forall|k: int| 0 <= k < previous.len() ==> (#[trigger] previous[k]).key != p.key {
        lemma_previous_ticks_none(previous, p.key);
    }
}

/// The share of an interval: the jiffies that passed, and of them the ones
/// the idle counter did not take; nothing when the total counter stood
/// still or went back.
pub proof fn lemma_usage_share_counts(previous: CpuCounters, current: CpuCounters)
    ensures
        ({
            let r = spec_usage_share(previous, current);
            let total = counter_advance(current.total, previous.total);
            let idle = counter_advance(current.idle, previous.idle);
            &&& total == 0 ==> r.busy_ticks == 0 && r.total_ticks == 0
            &&& total > 0 ==> r.total_ticks == total && r.busy_ticks == if idle <= total {
                total - idle
            } else {
                0
            }
        }),
{
}

/// RAM in use is total less available memory, swap in use is total less
/// free swap, each none when the free amount exceeds the total; the
/// totals are the ones read.
pub proof fn lemma_memory_from_counts(
    total_mem: u64,
    available_mem: u64,
    swap_total: u64,
    swap_free: u64,
    swaps: Seq<(Seq<char>, u64, u64)>,
)
    ensures
        ({
            let m = memory_metrics(total_mem, available_mem, swap_total, swap_free, swaps);
            &&& m.ram.total_bytes == total_mem
            &&& m.ram.used_bytes == counter_advance(total_mem, available_mem)
            &&& m.swap.total_bytes == swap_total
            &&& m.swap.used_bytes == counter_advance(swap_total, swap_free)
            &&& m.zram.used_bytes <= m.zram.total_bytes
        }),
{
}

} // verus!





