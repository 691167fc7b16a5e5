//! The values that the samplers read and the snapshot derived from them.
//!
//! Temperatures are held in millidegrees Celsius, as the kernel reports them,
//! and rates and shares are held as the integer counts they are computed from.
use vstd::prelude::*;

verus! {

#[derive(Clone, Debug)]
pub struct MachineInfo {
    pub machine_name: String,
    pub kernel: String,
    pub arch: String,
}

#[derive(Clone, Copy, Debug, PartialEq, Eq, Structural)]
pub enum RuntimeState {
    Active,
    Suspended,
    Unknown,
}

impl RuntimeState {
    pub open spec fn spec_label(self) -> Seq<char> {
        match self {
            RuntimeState::Active => "active"@,
            RuntimeState::Suspended => "suspended"@,
            RuntimeState::Unknown => "unknown"@,
        }
    }

    /// The lower-case name of the state.
    pub fn label(self) -> (r: &'static str)
        ensures
            r@ == self.spec_label(),
    {
        match self {
            RuntimeState::Active => "active",
            RuntimeState::Suspended => "suspended",
            RuntimeState::Unknown => "unknown",
        }
    }
}

/// A GPU's readings. `P` is the type of a load percentage, which the
/// sources give as decimal fractions.
#[derive(Clone, Debug)]
pub struct GpuMetrics<P> {
    pub usage_percent: Option<P>,
    pub frequency_hz: Option<u64>,
    pub runtime_state: Option<RuntimeState>,
}

/// An NPU's readings: its load, the load of each core, its clock and its
/// power state.
#[derive(Clone, Debug)]
pub struct NpuMetrics<P> {
    pub usage_percent: Option<P>,
    pub per_core_usage_percent: Vec<P>,
    pub frequency_hz: Option<u64>,
    pub runtime_state: Option<RuntimeState>,
}

/// A VPU's readings.
#[derive(Clone, Debug)]
pub struct VpuMetrics<P> {
    pub usage_percent: Option<P>,
    pub frequency_hz: Option<u64>,
    pub runtime_state: Option<RuntimeState>,
}

/// The accelerators found, each when some reading of it was had.
#[derive(Clone, Debug)]
pub struct AcceleratorMetrics<P> {
    pub gpu: Option<GpuMetrics<P>>,
    pub npu: Option<NpuMetrics<P>>,
    pub vpu: Option<VpuMetrics<P>>,
}

/// Idle and total jiffies of one line of `/proc/stat`.
#[derive(Clone, Copy, Debug, PartialEq, Eq, Structural)]
pub struct CpuCounters {
    pub idle: u64,
    pub total: u64,
}

/// A process is identified by its pid and its start time, so that a reused
/// pid is not taken for the earlier process.
#[derive(Clone, Copy, Debug, PartialEq, Eq, Structural, Hash)]
pub struct ProcessKey {
    pub pid: u32,
    pub start_time_ticks: u64,
}

#[derive(Clone, Debug)]
pub struct RawProcessSample {
    pub key: ProcessKey,
    pub user: String,
    pub state: char,
    pub total_time_ticks: u64,
    pub rss_bytes: u64,
    pub command: String,
}

#[derive(Clone, Debug)]
pub struct RawNetworkSample {
    pub name: String,
    pub rx_bytes: u64,
    pub tx_bytes: u64,
}

impl View for RawNetworkSample {
    type V = (Seq<char>, u64, u64);

    open spec fn view(&self) -> Self::V {
        (self.name@, self.rx_bytes, self.tx_bytes)
    }
}

#[derive(Clone, Debug)]
pub struct RawDiskSample {
    pub name: String,
    pub read_bytes: u64,
    pub write_bytes: u64,
}

impl View for RawDiskSample {
    type V = (Seq<char>, u64, u64);

    open spec fn view(&self) -> Self::V {
        (self.name@, self.read_bytes, self.write_bytes)
    }
}

#[derive(Clone, Debug)]
pub struct RawSwapSample {
    pub name: String,
    pub size_bytes: u64,
    pub used_bytes: u64,
}

impl View for RawSwapSample {
    type V = (Seq<char>, u64, u64);

    open spec fn view(&self) -> Self::V {
        (self.name@, self.size_bytes, self.used_bytes)
    }
}

pub open spec fn views<T: View>(v: Seq<T>) -> Seq<T::V> {
    v.map_values(|x: T| x@)
}


#[derive(Clone, Debug)]
pub struct RawCpuSample {
    pub id: usize,
    pub counters: CpuCounters,
    pub frequency_khz: Option<u64>,
}

#[derive(Clone, Copy, Debug, PartialEq, Eq, Structural)]
pub enum SensorSource {
    ThermalZone,
    Hwmon,
}

#[derive(Clone, Copy, Debug, PartialEq, Eq, Structural)]
pub enum SensorKind {
    Cpu,
    Gpu,
    Npu,
    Soc,
    Storage,
    Network,
    Wireless,
    Unknown,
}

/// One temperature sensor; the temperature is in millidegrees Celsius.
#[derive(Clone, Debug)]
pub struct SensorReading {
    pub source: SensorSource,
    pub device_name: String,
    pub label: String,
    pub kind: SensorKind,
    pub temperature_millic: u64,
}

impl View for SensorReading {
    type V = (SensorSource, Seq<char>, Seq<char>, SensorKind, u64);

    open spec fn view(&self) -> Self::V {
        (self.source, self.device_name@, self.label@, self.kind, self.temperature_millic)
    }
}

/// A summary temperature for one part of the machine, in millidegrees.
#[derive(Clone, Debug)]
pub struct SensorSummary {
    pub label: String,
    pub temperature_millic: u64,
}

impl View for SensorSummary {
    type V = (Seq<char>, u64);

    open spec fn view(&self) -> Self::V {
        (self.label@, self.temperature_millic)
    }
}

/// Bytes in use of a total; the share in use is `used_bytes / total_bytes`
/// (nothing when the total is zero).
#[derive(Clone, Copy, Debug, PartialEq, Eq, Structural)]
pub struct UsageMetric {
    pub total_bytes: u64,
    pub used_bytes: u64,
}

impl UsageMetric {
    /// The use of a total of which `available_bytes` are free.
    pub fn from_total_and_available(total_bytes: u64, available_bytes: u64) -> (r: Self)
        ensures
            r.total_bytes == total_bytes,
            r.used_bytes == if available_bytes <= total_bytes {
                (total_bytes - available_bytes) as u64
            } else {
                0u64
            },
    {
        let used_bytes = total_bytes.saturating_sub(available_bytes);
        Self::from_total_and_used(total_bytes, used_bytes)
    }

    /// The use of a total; a use above the total counts as the total.
    pub fn from_total_and_used(total_bytes: u64, used_bytes: u64) -> (r: Self)
        ensures
            r.total_bytes == total_bytes,
            r.used_bytes == if used_bytes <= total_bytes {
                used_bytes
            } else {
                total_bytes
            },
            r.used_bytes <= r.total_bytes,
    {
        let used_bytes = if used_bytes <= total_bytes {
            used_bytes
        } else {
            total_bytes
        };
        UsageMetric { total_bytes, used_bytes }
    }
}

#[derive(Clone, Copy, Debug, PartialEq, Eq, Structural)]
pub struct MemoryMetrics {
    pub ram: UsageMetric,
    pub swap: UsageMetric,
    pub zram: UsageMetric,
}

/// Busy and total jiffies of an interval; the usage is `busy / total`
/// (zero when the total is zero).
#[derive(Clone, Copy, Debug, PartialEq, Eq, Structural)]
pub struct CpuShare {
    pub busy_ticks: u64,
    pub total_ticks: u64,
}

#[derive(Clone, Copy, Debug, PartialEq, Eq, Structural)]
pub struct CpuMetrics {
    pub id: usize,
    pub usage: CpuShare,
    pub frequency_khz: Option<u64>,
    pub temperature_millic: Option<u64>,
}

/// One process of the list. `cpu_ticks` are the ticks it used since the
/// previous sample, counted when the interval's CPU total is known (else
/// zero); `mem_share_bytes` is its resident size when total memory is known
/// (else zero).
#[derive(Clone, Debug)]
pub struct ProcessEntry {
    pub pid: u32,
    pub user: String,
    pub state: char,
    pub cpu_ticks: u64,
    pub mem_share_bytes: u64,
    pub rss_bytes: u64,
    pub command: String,
}

/// Bytes an interface received and sent during the interval (zero when no
/// time has passed).
#[derive(Clone, Debug)]
pub struct NetworkIoEntry {
    pub name: String,
    pub rx_bytes: u64,
    pub tx_bytes: u64,
}

/// Bytes a device read and wrote during the interval (zero when no time has
/// passed).
#[derive(Clone, Debug)]
pub struct DiskIoEntry {
    pub name: String,
    pub read_bytes: u64,
    pub write_bytes: u64,
}

/// One sample of the machine, as the collectors read it.
#[derive(Clone, Debug)]
pub struct RawSnapshot {
    /// When the sample was taken, by a monotonic clock, in nanoseconds.
    pub captured_at_nanos: u64,
    pub machine: MachineInfo,
    pub total_mem_bytes: u64,
    pub available_mem_bytes: u64,
    pub swap_total_bytes: u64,
    pub swap_free_bytes: u64,
    pub overall_cpu: CpuCounters,
    pub cpus: Vec<RawCpuSample>,
    pub processes: Vec<RawProcessSample>,
    pub network: Vec<RawNetworkSample>,
    pub disks: Vec<RawDiskSample>,
    pub swaps: Vec<RawSwapSample>,
    pub sensors: Vec<SensorReading>,
}

/// What the dashboard shows of an interval between two samples.
#[derive(Clone, Debug)]
pub struct SystemSnapshot {
    pub machine: MachineInfo,
    pub memory: MemoryMetrics,
    pub process_list: Vec<ProcessEntry>,
    pub overall_usage: CpuShare,
    pub cpus: Vec<CpuMetrics>,
    pub network_io: Vec<NetworkIoEntry>,
    pub disk_io: Vec<DiskIoEntry>,
    pub sensor_summary: Vec<SensorSummary>,
    pub sensors: Vec<SensorReading>,
    /// Jiffies of the interval over all CPUs (zero when none is known).
    pub total_cpu_ticks: u64,
    pub cpu_count: usize,
    pub total_mem_bytes: u64,
    pub elapsed_nanos: u64,
}

} // verus!
