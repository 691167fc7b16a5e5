use std::collections::HashMap;

use machtop::metrics::model::{
    CpuCounters, MachineInfo, MemoryMetrics, ProcessKey, RawCpuSample, RawDiskSample,
    RawNetworkSample, RawProcessSample, RawSnapshot, RawSwapSample, SensorKind, SensorReading,
    SensorSource, SystemSnapshot, UsageMetric,
};
use machtop::metrics::profile::BoardProfile;
use machtop::metrics::{
    SampleHistory, cpu_samples, derive_snapshot, is_letter_disk_partition, is_p_suffixed_partition,
    is_partition_device, should_hide_disk_device, should_hide_network_device, usage_share,
};

fn percent(part: u64, total: u64) -> f64 {
    if total == 0 {
        0.0
    } else {
        (part as f64 / total as f64) * 100.0
    }
}

fn usage_percent(metric: &UsageMetric) -> f64 {
    percent(metric.used_bytes, metric.total_bytes)
}

fn process_cpu_percent(snapshot: &SystemSnapshot, index: usize) -> f64 {
    if snapshot.total_cpu_ticks == 0 || snapshot.cpu_count == 0 {
        0.0
    } else {
        (snapshot.process_list[index].cpu_ticks as f64 * snapshot.cpu_count as f64
            / snapshot.total_cpu_ticks as f64)
            * 100.0
    }
}

fn bytes_per_second(bytes: u64, elapsed_nanos: u64) -> f64 {
    let seconds = elapsed_nanos as f64 / 1_000_000_000.0;
    if seconds <= f64::EPSILON {
        0.0
    } else {
        bytes as f64 / seconds
    }
}

fn machine() -> MachineInfo {
    MachineInfo {
        machine_name: "Generic".into(),
        kernel: "6.0".into(),
        arch: "x86_64".into(),
    }
}

fn base_snapshot() -> RawSnapshot {
    RawSnapshot {
        captured_at_nanos: 0,
        machine: machine(),
        total_mem_bytes: 8 * 1024,
        available_mem_bytes: 4 * 1024,
        swap_total_bytes: 0,
        swap_free_bytes: 0,
        overall_cpu: CpuCounters {
            idle: 100,
            total: 200,
        },
        cpus: Vec::new(),
        processes: Vec::new(),
        network: Vec::new(),
        disks: Vec::new(),
        swaps: Vec::new(),
        sensors: Vec::new(),
    }
}

#[test]
fn derives_process_cpu_after_delta() {
    let previous = RawSnapshot {
        swap_total_bytes: 2 * 1024,
        swap_free_bytes: 1024,
        cpus: vec![RawCpuSample {
            id: 0,
            counters: CpuCounters {
                idle: 50,
                total: 100,
            },
            frequency_khz: Some(2_000_000),
        }],
        processes: vec![RawProcessSample {
            key: ProcessKey {
                pid: 1,
                start_time_ticks: 10,
            },
            user: "root".into(),
            state: 'S',
            total_time_ticks: 20,
            rss_bytes: 1024,
            command: "init".into(),
        }],
        network: vec![RawNetworkSample {
            name: "eth0".into(),
            rx_bytes: 1_000,
            tx_bytes: 2_000,
        }],
        disks: vec![RawDiskSample {
            name: "nvme0n1".into(),
            read_bytes: 5_000,
            write_bytes: 10_000,
        }],
        swaps: vec![RawSwapSample {
            name: "zram0".into(),
            size_bytes: 2 * 1024,
            used_bytes: 1024,
        }],
        sensors: vec![SensorReading {
            source: SensorSource::Hwmon,
            device_name: "k10temp".into(),
            label: "Tctl".into(),
            kind: SensorKind::Cpu,
            temperature_millic: 42_000,
        }],
        ..base_snapshot()
    };
    let current = RawSnapshot {
        overall_cpu: CpuCounters {
            idle: 120,
            total: 260,
        },
        cpus: vec![RawCpuSample {
            id: 0,
            counters: CpuCounters {
                idle: 60,
                total: 130,
            },
            frequency_khz: Some(2_100_000),
        }],
        processes: vec![RawProcessSample {
            total_time_ticks: 40,
            ..previous.processes[0].clone()
        }],
        network: vec![RawNetworkSample {
            name: "eth0".into(),
            rx_bytes: 5_000,
            tx_bytes: 6_000,
        }],
        disks: vec![RawDiskSample {
            name: "nvme0n1".into(),
            read_bytes: 9_000,
            write_bytes: 20_000,
        }],
        captured_at_nanos: 1_000_000_000,
        ..previous.clone()
    };

    let snapshot = derive_snapshot(Some(&previous), &current, BoardProfile::GenericLinux);

    assert!(percent(snapshot.overall_usage.busy_ticks, snapshot.overall_usage.total_ticks) > 0.0);
    assert_eq!(snapshot.process_list.len(), 1);
    assert!(process_cpu_percent(&snapshot, 0) > 0.0);
    assert_eq!(snapshot.network_io.len(), 1);
    let network = &snapshot.network_io[0];
    assert!(bytes_per_second(network.rx_bytes + network.tx_bytes, snapshot.elapsed_nanos) > 0.0);
    assert_eq!(snapshot.disk_io.len(), 1);
    let disk = &snapshot.disk_io[0];
    assert!(bytes_per_second(disk.read_bytes + disk.write_bytes, snapshot.elapsed_nanos) > 0.0);
    assert_eq!(usage_percent(&snapshot.memory.ram), 50.0);
    assert_eq!(usage_percent(&snapshot.memory.swap), 50.0);
    assert_eq!(usage_percent(&snapshot.memory.zram), 50.0);
    assert_eq!(snapshot.sensor_summary[0].label, "cpu");
}

#[test]
fn resets_usage_when_cpu_topology_changes() {
    let previous = RawSnapshot {
        cpus: vec![RawCpuSample {
            id: 0,
            counters: CpuCounters {
                idle: 50,
                total: 100,
            },
            frequency_khz: None,
        }],
        ..base_snapshot()
    };
    let current = RawSnapshot {
        overall_cpu: CpuCounters {
            idle: 120,
            total: 260,
        },
        cpus: vec![
            RawCpuSample {
                id: 0,
                counters: CpuCounters {
                    idle: 60,
                    total: 130,
                },
                frequency_khz: None,
            },
            RawCpuSample {
                id: 1,
                counters: CpuCounters {
                    idle: 60,
                    total: 130,
                },
                frequency_khz: None,
            },
        ],
        captured_at_nanos: 1_000_000_000,
        ..previous.clone()
    };

    let snapshot = derive_snapshot(Some(&previous), &current, BoardProfile::GenericLinux);

    assert_eq!(
        percent(snapshot.overall_usage.busy_ticks, snapshot.overall_usage.total_ticks),
        0.0
    );
    assert!(snapshot
        .cpus
        .iter()
        .all(|cpu| percent(cpu.usage.busy_ticks, cpu.usage.total_ticks) == 0.0));
}

#[test]
fn filters_virtual_devices_and_sorts_by_total_rate() {
    let previous = RawSnapshot {
        network: vec![
            RawNetworkSample {
                name: "lo".into(),
                rx_bytes: 100,
                tx_bytes: 100,
            },
            RawNetworkSample {
                name: "eth0".into(),
                rx_bytes: 1_000,
                tx_bytes: 1_000,
            },
            RawNetworkSample {
                name: "wlan0".into(),
                rx_bytes: 500,
                tx_bytes: 500,
            },
        ],
        disks: vec![
            RawDiskSample {
                name: "loop0".into(),
                read_bytes: 10,
                write_bytes: 10,
            },
            RawDiskSample {
                name: "mmcblk1p1".into(),
                read_bytes: 20,
                write_bytes: 20,
            },
            RawDiskSample {
                name: "zram0".into(),
                read_bytes: 30,
                write_bytes: 30,
            },
            RawDiskSample {
                name: "mtdblock0".into(),
                read_bytes: 40,
                write_bytes: 40,
            },
            RawDiskSample {
                name: "sda".into(),
                read_bytes: 1_000,
                write_bytes: 2_000,
            },
            RawDiskSample {
                name: "nvme0n1".into(),
                read_bytes: 3_000,
                write_bytes: 4_000,
            },
        ],
        swaps: vec![
            RawSwapSample {
                name: "zram0".into(),
                size_bytes: 1_000,
                used_bytes: 250,
            },
            RawSwapSample {
                name: "zram1".into(),
                size_bytes: 3_000,
                used_bytes: 750,
            },
            RawSwapSample {
                name: "swapfile".into(),
                size_bytes: 8_000,
                used_bytes: 4_000,
            },
        ],
        ..base_snapshot()
    };
    let current = RawSnapshot {
        captured_at_nanos: 1_000_000_000,
        network: vec![
            RawNetworkSample {
                name: "lo".into(),
                rx_bytes: 500,
                tx_bytes: 500,
            },
            RawNetworkSample {
                name: "eth0".into(),
                rx_bytes: 10_000,
                tx_bytes: 5_000,
            },
            RawNetworkSample {
                name: "wlan0".into(),
                rx_bytes: 2_000,
                tx_bytes: 1_000,
            },
        ],
        disks: vec![
            RawDiskSample {
                name: "loop0".into(),
                read_bytes: 100,
                write_bytes: 100,
            },
            RawDiskSample {
                name: "mmcblk1p1".into(),
                read_bytes: 200,
                write_bytes: 200,
            },
            RawDiskSample {
                name: "zram0".into(),
                read_bytes: 300,
                write_bytes: 300,
            },
            RawDiskSample {
                name: "mtdblock0".into(),
                read_bytes: 400,
                write_bytes: 400,
            },
            RawDiskSample {
                name: "sda".into(),
                read_bytes: 2_000,
                write_bytes: 3_000,
            },
            RawDiskSample {
                name: "nvme0n1".into(),
                read_bytes: 12_000,
                write_bytes: 10_000,
            },
        ],
        ..previous.clone()
    };

    let snapshot = derive_snapshot(Some(&previous), &current, BoardProfile::GenericLinux);

    assert_eq!(
        snapshot
            .network_io
            .iter()
            .map(|entry| entry.name.as_str())
            .collect::<Vec<_>>(),
        vec!["eth0", "wlan0"]
    );
    assert_eq!(
        snapshot
            .disk_io
            .iter()
            .map(|entry| entry.name.as_str())
            .collect::<Vec<_>>(),
        vec!["nvme0n1", "sda"]
    );
    assert_eq!(usage_percent(&snapshot.memory.zram), 25.0);
}

#[test]
fn usage_metrics_clamp_inconsistent_counters() {
    let usage = UsageMetric::from_total_and_used(100, 120);

    assert_eq!(usage.used_bytes, 100);
    assert_eq!(usage_percent(&usage), 100.0);
}

#[test]
fn usage_from_available_saturates() {
    let usage = UsageMetric::from_total_and_available(100, 130);
    assert_eq!(usage.used_bytes, 0);
    assert_eq!(usage.total_bytes, 100);
    let usage = UsageMetric::from_total_and_available(100, 30);
    assert_eq!(usage.used_bytes, 70);
}

#[test]
fn first_sample_has_no_rates_and_no_cpu_usage() {
    let current = RawSnapshot {
        cpus: vec![RawCpuSample {
            id: 0,
            counters: CpuCounters {
                idle: 60,
                total: 130,
            },
            frequency_khz: Some(1_000),
        }],
        network: vec![RawNetworkSample {
            name: "eth0".into(),
            rx_bytes: 5_000,
            tx_bytes: 6_000,
        }],
        captured_at_nanos: 7,
        ..base_snapshot()
    };

    let snapshot = derive_snapshot(None, &current, BoardProfile::GenericLinux);

    assert_eq!(snapshot.elapsed_nanos, 0);
    assert_eq!(snapshot.total_cpu_ticks, 0);
    assert_eq!(snapshot.overall_usage.total_ticks, 0);
    assert_eq!(snapshot.cpus.len(), 1);
    assert_eq!(snapshot.cpus[0].frequency_khz, Some(1_000));
    assert_eq!(snapshot.cpus[0].usage.total_ticks, 0);
    assert_eq!(snapshot.network_io.len(), 1);
    assert_eq!(snapshot.network_io[0].rx_bytes, 0);
    assert_eq!(snapshot.network_io[0].tx_bytes, 0);
}

#[test]
fn process_list_is_ordered_by_cpu_then_memory_then_pid() {
    let process = |pid: u32, ticks: u64, rss: u64| RawProcessSample {
        key: ProcessKey {
            pid,
            start_time_ticks: 1,
        },
        user: "root".into(),
        state: 'R',
        total_time_ticks: ticks,
        rss_bytes: rss,
        command: format!("p{pid}"),
    };
    let previous = RawSnapshot {
        cpus: vec![RawCpuSample {
            id: 0,
            counters: CpuCounters { idle: 0, total: 0 },
            frequency_khz: None,
        }],
        processes: vec![process(1, 10, 0), process(2, 10, 0), process(3, 10, 0)],
        ..base_snapshot()
    };
    let current = RawSnapshot {
        overall_cpu: CpuCounters {
            idle: 150,
            total: 300,
        },
        processes: vec![
            process(3, 15, 100),
            process(1, 30, 100),
            process(2, 15, 200),
            process(4, 50, 900),
        ],
        captured_at_nanos: 1_000,
        ..previous.clone()
    };

    let snapshot = derive_snapshot(Some(&previous), &current, BoardProfile::GenericLinux);

    let order = snapshot
        .process_list
        .iter()
        .map(|entry| (entry.pid, entry.cpu_ticks))
        .collect::<Vec<_>>();
    assert_eq!(order, vec![(1, 20), (2, 5), (3, 5), (4, 0)]);
    assert_eq!(snapshot.total_cpu_ticks, 100);
}

#[test]
fn usage_share_counts_busy_jiffies() {
    let share = usage_share(
        CpuCounters { idle: 50, total: 100 },
        CpuCounters { idle: 60, total: 130 },
    );
    assert_eq!(share.busy_ticks, 20);
    assert_eq!(share.total_ticks, 30);
    let backwards = usage_share(
        CpuCounters { idle: 50, total: 100 },
        CpuCounters { idle: 40, total: 90 },
    );
    assert_eq!(backwards.total_ticks, 0);
    assert_eq!(backwards.busy_ticks, 0);
}

#[test]
fn recognises_virtual_devices_and_partitions() {
    for name in ["lo", "veth12", "docker0", "br-1", "virbr0", "tun0", "tap3"] {
        assert!(should_hide_network_device(name), "{name}");
    }
    assert!(!should_hide_network_device("eth0"));
    assert!(!should_hide_network_device("lo0"));
    for name in ["loop0", "ram1", "dm-0", "zram0", "mtdblock2", "sda1", "vdb2", "xvda3", "nvme0n1p2", "mmcblk1p1"] {
        assert!(should_hide_disk_device(name), "{name}");
    }
    for name in ["sda", "nvme0n1", "mmcblk1", "vda"] {
        assert!(!should_hide_disk_device(name), "{name}");
    }
    assert!(is_partition_device("sdb12"));
    assert!(!is_letter_disk_partition("sd1", "sd"));
    assert!(!is_letter_disk_partition("sdA1", "sd"));
    assert!(is_p_suffixed_partition("nvme0n1p1", "nvme"));
    assert!(!is_p_suffixed_partition("nvme0n1p", "nvme"));
    assert!(!is_p_suffixed_partition("nvmep1", "nvme"));
}

#[test]
fn cpu_samples_number_cpus_and_attach_frequencies() {
    let counters = vec![
        CpuCounters { idle: 1, total: 2 },
        CpuCounters { idle: 3, total: 4 },
        CpuCounters { idle: 5, total: 6 },
    ];
    let mut frequencies = HashMap::new();
    frequencies.insert(0, Some(1_800_000));
    frequencies.insert(1, None);
    let samples = cpu_samples(&counters, &frequencies);

    assert_eq!(samples.len(), 3);
    assert_eq!(samples[0].id, 0);
    assert_eq!(samples[0].frequency_khz, Some(1_800_000));
    assert_eq!(samples[1].frequency_khz, None);
    assert_eq!(samples[2].id, 2);
    assert_eq!(samples[2].counters.total, 6);
    assert_eq!(samples[2].frequency_khz, None);
}

#[test]
fn memory_metrics_sum_only_zram_swaps() {
    let swaps = vec![
        RawSwapSample {
            name: "zram0".into(),
            size_bytes: u64::MAX,
            used_bytes: 10,
        },
        RawSwapSample {
            name: "zram1".into(),
            size_bytes: 5,
            used_bytes: u64::MAX,
        },
        RawSwapSample {
            name: "sda2".into(),
            size_bytes: 100,
            used_bytes: 100,
        },
    ];
    let memory: MemoryMetrics =
        machtop::metrics::derive_memory_metrics(1000, 250, 400, 100, &swaps);

    assert_eq!(memory.ram.used_bytes, 750);
    assert_eq!(memory.swap.used_bytes, 300);
    assert_eq!(memory.zram.total_bytes, u64::MAX);
    assert_eq!(memory.zram.used_bytes, u64::MAX);
}

#[test]
fn sample_history_compares_each_sample_with_the_last() {
    let mut history = SampleHistory::new(machine());
    let first = RawSnapshot {
        cpus: vec![RawCpuSample {
            id: 0,
            counters: CpuCounters { idle: 10, total: 20 },
            frequency_khz: None,
        }],
        ..base_snapshot()
    };
    let (profile, snapshot) = history.advance(first.clone());
    assert_eq!(profile, BoardProfile::GenericLinux);
    assert_eq!(snapshot.total_cpu_ticks, 0);

    let second = RawSnapshot {
        captured_at_nanos: 500,
        overall_cpu: CpuCounters { idle: 130, total: 260 },
        cpus: vec![RawCpuSample {
            id: 0,
            counters: CpuCounters { idle: 15, total: 40 },
            frequency_khz: None,
        }],
        ..base_snapshot()
    };
    let (_, snapshot) = history.advance(second);
    assert_eq!(snapshot.total_cpu_ticks, 60);
    assert_eq!(snapshot.elapsed_nanos, 500);
    assert_eq!(snapshot.cpus[0].usage.busy_ticks, 15);
    assert_eq!(snapshot.cpus[0].usage.total_ticks, 20);
    assert_eq!(history.machine().machine_name, "Generic");
}
