use machtop::metrics::model::{
    AcceleratorMetrics, GpuMetrics, NpuMetrics, RuntimeState, SensorKind, SensorReading, SensorSource,
    VpuMetrics,
};
use machtop::ui::format::{format_accelerator_section, format_engine_frequency};
use machtop::metrics::sysfs::{
    cix_acpi_thermal_label, classify_sensor, dedupe_sensors, find_devfreq_path,
    find_named_devfreq_path, gpu_metrics, merge_accelerators, npu_metrics, vpu_metrics, hwmon_channel_stem, hwmon_device_name, hwmon_sensors,
    is_cix_platform, parse_devfreq_load, parse_mali_debugfs_usage, parse_rknpu_debugfs_load,
    parse_runtime_state, parse_thermal_zone_index, parse_vpu_debugfs_utilization, read_device_tree_model,
    read_dmi_system_name, read_i64, read_sensors, read_u64, thermal_sensors, DevfreqEntry,
    HwmonChannelFiles, SysfsReader, ThermalZoneFiles,
};
use machtop::metrics::procfs::ProcfsReader;

fn as_f64(text: Option<String>) -> Option<f64> {
    text.and_then(|value| value.parse::<f64>().ok())
}

#[test]
fn parses_devfreq_load_prefix() {
    assert_eq!(as_f64(parse_devfreq_load("1@300000000Hz")), Some(1.0));
    assert_eq!(as_f64(parse_devfreq_load("100@1000000000Hz")), Some(100.0));
    assert_eq!(as_f64(parse_devfreq_load("")), None);
}

#[test]
fn parses_vpu_debugfs_utilization_text() {
    assert_eq!(
        as_f64(parse_vpu_debugfs_utilization("VPU Utilization: 38.25%")),
        Some(38.25)
    );
    assert_eq!(
        as_f64(parse_vpu_debugfs_utilization("VPU Performance Monitor is OFF")),
        None
    );
}

#[test]
fn reads_hwmon_sensors_on_generic_linux() {
    let channels = vec![
        HwmonChannelFiles {
            device_name: hwmon_device_name(Some("k10temp\n"), "hwmon0"),
            stem: hwmon_channel_stem("temp1_input").unwrap(),
            input_text: Some("38125\n".into()),
            label_text: Some("Tctl\n".into()),
        },
        HwmonChannelFiles {
            device_name: hwmon_device_name(Some("k10temp\n"), "hwmon0"),
            stem: hwmon_channel_stem("temp2_input").unwrap(),
            input_text: Some("41000\n".into()),
            label_text: Some("Composite\n".into()),
        },
    ];

    let sensors = hwmon_sensors(&channels);

    assert_eq!(sensors.len(), 2);
    assert_eq!(sensors[0].kind, SensorKind::Cpu);
}

#[test]
fn names_cix_acpi_thermal_zones_from_acpi_paths() {
    let zones = vec![
        ThermalZoneFiles {
            name: "thermal_zone4".into(),
            type_text: Some("acpitz\n".into()),
            temp_text: Some("41000\n".into()),
            device_path_text: None,
            lnxtherm_path_text: Some("\\_SB_.TZGT\n".into()),
        },
        ThermalZoneFiles {
            name: "thermal_zone0".into(),
            type_text: Some("acpitz\n".into()),
            temp_text: Some("38125\n".into()),
            device_path_text: Some("\\_SB_.TZB0\n".into()),
            lnxtherm_path_text: None,
        },
    ];

    let sensors = thermal_sensors(&zones);

    assert_eq!(
        sensors
            .iter()
            .map(|sensor| (sensor.label.as_str(), sensor.kind))
            .collect::<Vec<_>>(),
        vec![("cpu-b0", SensorKind::Cpu), ("gpu", SensorKind::Gpu)]
    );
}

#[test]
fn builds_dmi_machine_name() {
    assert_eq!(
        read_dmi_system_name(Some("Example Corp\n"), Some("Workstation\n")).as_deref(),
        Some("Example Corp Workstation")
    );
    assert_eq!(read_dmi_system_name(None, Some("Workstation\n")).as_deref(), Some("Workstation"));
    assert_eq!(read_dmi_system_name(Some("Vendor"), None).as_deref(), Some("Vendor"));
    assert_eq!(read_dmi_system_name(Some(""), Some("Workstation")), None);
    assert_eq!(read_dmi_system_name(None, None), None);
}

#[test]
fn reads_gpu_and_npu_load_texts() {
    assert_eq!(as_f64(parse_devfreq_load("7@300000000Hz\n")), Some(7.0));
    let loads = parse_rknpu_debugfs_load("NPU load:  Core0:  5%, Core1:  8%, Core2:  0%,\n")
        .into_iter()
        .filter_map(|text| text.parse::<f64>().ok())
        .collect::<Vec<_>>();
    assert_eq!(loads, vec![5.0, 8.0, 0.0]);
    assert_eq!(parse_rknpu_debugfs_load("Core0: 5"), Vec::<String>::new());
}

#[test]
fn reads_mali_busy_and_idle_times() {
    assert_eq!(
        parse_mali_debugfs_usage("busy_time: 25 idle_time: 75 protm_time: 0\n"),
        Some((25, 75))
    );
    assert_eq!(parse_mali_debugfs_usage("busy_time: 0 idle_time: 0"), None);
    assert_eq!(parse_mali_debugfs_usage("busy_time: 25 idle_time:"), None);
    assert_eq!(parse_mali_debugfs_usage("busy_time: x idle_time: 3"), None);
    assert_eq!(parse_mali_debugfs_usage("idle_time: 3"), None);
}

#[test]
fn reads_cix_runtime_states() {
    assert_eq!(parse_runtime_state("active\n"), Some(RuntimeState::Active));
    assert_eq!(parse_runtime_state("Suspended"), Some(RuntimeState::Suspended));
    assert_eq!(parse_runtime_state("resuming"), Some(RuntimeState::Unknown));
    assert_eq!(parse_runtime_state("  \n"), None);
    assert_eq!(RuntimeState::Suspended.label(), "suspended");
}

#[test]
fn reads_cix_accelerators_and_restores_vpu_perf_monitor() {
    check_cix_accelerator_readings();
    let mut reader = SysfsReader::new("/sys");
    assert!(reader.vpu_perf_monitor_pending());
    assert_eq!(
        reader.vpu_perf_enable_path(),
        "/sys/kernel/debug/amvx/log/group/perf/enable"
    );

    let write = reader.ensure_vpu_perf_monitor(Some("0\n"));
    assert_eq!(write.as_deref(), Some("/sys/kernel/debug/amvx/log/group/perf/enable"));
    reader.vpu_perf_monitor_written(true);
    assert!(!reader.vpu_perf_monitor_pending());
    assert_eq!(reader.ensure_vpu_perf_monitor(Some("1\n")), None);

    assert_eq!(
        reader.restore_vpu_perf_monitor(),
        Some((
            "/sys/kernel/debug/amvx/log/group/perf/enable".to_string(),
            "0\n".to_string()
        ))
    );
    assert_eq!(reader.restore_vpu_perf_monitor(), None);
}

#[test]
fn leaves_vpu_perf_monitor_alone_when_already_on_or_unwritable() {
    let mut on = SysfsReader::new("/sys");
    assert_eq!(on.ensure_vpu_perf_monitor(Some("1\n")), None);
    assert_eq!(on.restore_vpu_perf_monitor(), None);

    let mut failed = SysfsReader::new("/sys");
    assert!(failed.ensure_vpu_perf_monitor(Some("0")).is_some());
    failed.vpu_perf_monitor_written(false);
    assert_eq!(failed.restore_vpu_perf_monitor(), None);

    let mut unreadable = SysfsReader::new("/sys");
    assert_eq!(unreadable.ensure_vpu_perf_monitor(None), None);
    assert!(!unreadable.vpu_perf_monitor_pending());
    assert_eq!(unreadable.restore_vpu_perf_monitor(), None);
}

#[test]
fn classifies_sensors_by_name() {
    assert_eq!(classify_sensor("amdgpu", "edge"), SensorKind::Gpu);
    assert_eq!(classify_sensor("rknpu", "x"), SensorKind::Npu);
    assert_eq!(classify_sensor("acpitz", "soc-thermal"), SensorKind::Soc);
    assert_eq!(classify_sensor("coretemp", "Package id 0"), SensorKind::Cpu);
    assert_eq!(classify_sensor("nvme", "Composite"), SensorKind::Storage);
    assert_eq!(classify_sensor("mt7921_phy0", "temp1"), SensorKind::Wireless);
    assert_eq!(classify_sensor("r8169_0_100:00", "temp1"), SensorKind::Network);
    assert_eq!(classify_sensor("acpitz", "temp1"), SensorKind::Unknown);
    assert_eq!(cix_acpi_thermal_label("TZM1"), Some("cpu-m1"));
    assert_eq!(cix_acpi_thermal_label("ECTZ"), Some("soc"));
    assert_eq!(cix_acpi_thermal_label("TZ00"), None);
}

#[test]
fn thermal_zones_without_temperature_or_outside_the_pattern_are_skipped() {
    let zones = vec![
        ThermalZoneFiles {
            name: "cooling_device0".into(),
            type_text: Some("Processor".into()),
            temp_text: Some("1000".into()),
            device_path_text: None,
            lnxtherm_path_text: None,
        },
        ThermalZoneFiles {
            name: "thermal_zone1".into(),
            type_text: None,
            temp_text: Some("hot".into()),
            device_path_text: None,
            lnxtherm_path_text: None,
        },
        ThermalZoneFiles {
            name: "thermal_zone2".into(),
            type_text: None,
            temp_text: Some("-5000\n".into()),
            device_path_text: None,
            lnxtherm_path_text: None,
        },
    ];
    let sensors = thermal_sensors(&zones);
    assert_eq!(sensors.len(), 1);
    assert_eq!(sensors[0].label, "thermal_zone2");
    assert_eq!(sensors[0].temperature_millic, 0);
    assert_eq!(sensors[0].source, SensorSource::ThermalZone);
    assert_eq!(parse_thermal_zone_index("thermal_zone12"), Some(12));
    assert_eq!(parse_thermal_zone_index("thermal_zonex"), None);
}

#[test]
fn merges_and_dedupes_sensor_readings() {
    let reading = |source, device: &str, label: &str, kind, millic| SensorReading {
        source,
        device_name: device.into(),
        label: label.into(),
        kind,
        temperature_millic: millic,
    };
    let thermal = vec![reading(SensorSource::ThermalZone, "thermal_zone0", "CPU", SensorKind::Cpu, 40_000)];
    let hwmon = vec![
        reading(SensorSource::Hwmon, "cpu_thermal", "cpu", SensorKind::Cpu, 40_000),
        reading(SensorSource::Hwmon, "cpu_thermal", "cpu", SensorKind::Cpu, 41_000),
    ];
    let merged = read_sensors(&thermal, &hwmon);
    assert_eq!(merged.len(), 2);
    assert_eq!(merged[0].device_name, "thermal_zone0");
    assert_eq!(merged[1].temperature_millic, 41_000);
    assert_eq!(dedupe_sensors(&hwmon).len(), 2);
}

#[test]
fn hwmon_channels_sort_by_device_then_label_and_clamp_negative_values() {
    assert_eq!(hwmon_channel_stem("temp3_input").as_deref(), Some("temp3"));
    assert_eq!(hwmon_channel_stem("temp3_label"), None);
    assert_eq!(hwmon_channel_stem("fan1_input"), None);
    assert_eq!(hwmon_device_name(None, "hwmon3"), "hwmon3");
    let channels = vec![
        HwmonChannelFiles {
            device_name: "nvme".into(),
            stem: "temp1".into(),
            input_text: Some("-1000".into()),
            label_text: None,
        },
        HwmonChannelFiles {
            device_name: "acpitz".into(),
            stem: "temp2".into(),
            input_text: Some("30000".into()),
            label_text: None,
        },
        HwmonChannelFiles {
            device_name: "acpitz".into(),
            stem: "temp1".into(),
            input_text: Some("31000".into()),
            label_text: None,
        },
        HwmonChannelFiles {
            device_name: "acpitz".into(),
            stem: "temp9".into(),
            input_text: None,
            label_text: None,
        },
    ];
    let sensors = hwmon_sensors(&channels);
    let order = sensors
        .iter()
        .map(|sensor| (sensor.device_name.as_str(), sensor.label.as_str(), sensor.temperature_millic))
        .collect::<Vec<_>>();
    assert_eq!(
        order,
        vec![("acpitz", "temp1", 31_000), ("acpitz", "temp2", 30_000), ("nvme", "temp1", 0)]
    );
}

#[test]
fn picks_devfreq_devices() {
    let entry = |dir: &str, is_dir: bool, name: Option<&str>| DevfreqEntry {
        dir_name: dir.into(),
        is_dir,
        name_text: name.map(String::from),
    };
    let entries = vec![
        entry("fdab0000.npu", true, Some("fdab0000.npu\n")),
        entry("fb000000.gpu", true, None),
        entry("dmc", true, Some("dmc")),
        entry("a0000000.gpu", false, None),
        entry("CIXH5000:00", true, Some("CIXH5000:00\n")),
    ];
    assert_eq!(find_devfreq_path(&entries, &["gpu", "mali", "panthor"]), Some(1));
    assert_eq!(find_devfreq_path(&entries, &["npu", "rknpu"]), Some(0));
    assert_eq!(find_devfreq_path(&entries, &["vpu"]), None);
    assert_eq!(find_named_devfreq_path(&entries, &["CIXH5000:00"]), Some(4));
    assert_eq!(find_named_devfreq_path(&entries, &["CIXH4000:00"]), None);
    assert!(is_cix_platform(None, &entries));
    assert!(is_cix_platform(Some("Radxa Orion O6"), &Vec::new()));
    assert!(!is_cix_platform(Some("Other"), &entries[..4].to_vec()));
}

#[test]
fn reads_machine_identity() {
    let sysfs = SysfsReader::new("/sys");
    let procfs = ProcfsReader::new("/proc", None, 4096);
    let info = sysfs.machine_info(&procfs, "6.6.10\n", Some("Radxa ROCK 5B\0"), None, None, "aarch64");
    assert_eq!(info.machine_name, "Radxa ROCK 5B");
    assert_eq!(info.kernel, "6.6.10");
    assert_eq!(info.arch, "aarch64");
    let info = sysfs.machine_info(&procfs, "6.6", Some("\0"), Some("ACME"), Some("Box"), "x86_64");
    assert_eq!(info.machine_name, "ACME Box");
    let info = sysfs.machine_info(&procfs, "6.6", None, None, None, "x86_64");
    assert_eq!(info.machine_name, "x86_64");
    assert_eq!(read_device_tree_model(Some(" \n")), None);
}

#[test]
fn reads_cpu_frequencies_and_paths() {
    let sysfs = SysfsReader::new("/sys");
    let (scaling, cpuinfo) = sysfs.cpu_frequency_paths(3);
    assert_eq!(scaling, "/sys/devices/system/cpu/cpu3/cpufreq/scaling_cur_freq");
    assert_eq!(cpuinfo, "/sys/devices/system/cpu/cpu3/cpufreq/cpuinfo_cur_freq");
    let readings = vec![
        (Some("1800000\n".to_string()), Some("1".to_string())),
        (None, Some("2200000\n".to_string())),
        (Some("n/a".to_string()), None),
    ];
    let frequencies = sysfs.read_cpu_frequencies(&readings);
    assert_eq!(frequencies.len(), 3);
    assert_eq!(frequencies[&0], Some(1_800_000));
    assert_eq!(frequencies[&1], Some(2_200_000));
    assert_eq!(frequencies[&2], None);
    assert_eq!(sysfs.lnxtherm_path(4), "/sys/bus/acpi/devices/LNXTHERM:04/path");
    assert_eq!(sysfs.lnxtherm_path(12), "/sys/bus/acpi/devices/LNXTHERM:12/path");
    assert_eq!(read_u64(" 42\n"), Some(42));
    assert_eq!(read_i64("-7"), Some(-7));
    assert_eq!(read_u64("-7"), None);
    assert_eq!(sysfs.read_runtime_state(Some("active")), Some(RuntimeState::Active));
    assert_eq!(sysfs.read_runtime_state(None), None);
}

#[test]
fn thermal_zones_with_equal_labels_keep_their_order() {
    let zone = |name: &str, kind: &str, millic: &str| ThermalZoneFiles {
        name: name.into(),
        type_text: Some(kind.into()),
        temp_text: Some(millic.into()),
        device_path_text: None,
        lnxtherm_path_text: None,
    };
    let zones = vec![
        zone("thermal_zone3", "acpitz\n", "30000"),
        zone("thermal_zone1", "acpitz\n", "30000"),
        zone("thermal_zone2", "a-soc\n", "35000"),
    ];
    let sensors = thermal_sensors(&zones);
    let order = sensors
        .iter()
        .map(|sensor| sensor.device_name.as_str())
        .collect::<Vec<_>>();
    assert_eq!(order, vec!["thermal_zone2", "thermal_zone3", "thermal_zone1"]);
    let merged = read_sensors(&sensors, &Vec::new());
    assert_eq!(merged.len(), 2);
    assert_eq!(merged[1].device_name, "thermal_zone3");
}

fn devfreq_entry(dir: &str, name: &str) -> DevfreqEntry {
    DevfreqEntry { dir_name: dir.into(), is_dir: true, name_text: Some(name.into()) }
}

#[test]
fn reads_gpu_and_npu_metrics_from_devfreq_and_debugfs() {
    let entries = vec![
        devfreq_entry("fb000000.gpu", "fb000000.gpu\n"),
        devfreq_entry("fdab0000.npu", "fdab0000.npu\n"),
    ];
    assert!(!is_cix_platform(None, &entries));

    let gpu_index = find_devfreq_path(&entries, &["gpu", "mali", "panthor"]).unwrap();
    assert_eq!(entries[gpu_index].dir_name, "fb000000.gpu");
    let gpu_load = as_f64(parse_devfreq_load("7@300000000Hz\n"));
    let gpu_frequency = read_u64("300000000\n");
    assert_eq!(gpu_load, Some(7.0));
    assert_eq!(gpu_frequency, Some(300_000_000));

    let npu_index = find_devfreq_path(&entries, &["npu", "rknpu"]).unwrap();
    assert_eq!(entries[npu_index].dir_name, "fdab0000.npu");
    let core_loads = parse_rknpu_debugfs_load("NPU load:  Core0:  5%, Core1:  8%, Core2:  0%,\n");
    assert_eq!(core_loads, vec!["5".to_string(), "8".to_string(), "0".to_string()]);
    let npu_frequency = read_u64("1000000000\n");
    assert_eq!(npu_frequency, Some(1_000_000_000));

    let gpu = gpu_metrics(gpu_load, gpu_frequency, None).expect("gpu metrics");
    assert_eq!(gpu.usage_percent, Some(7.0));
    assert_eq!(gpu.frequency_hz, Some(300_000_000));
    let per_core = core_loads.iter().map(|text| text.parse::<f64>().unwrap()).collect::<Vec<_>>();
    let npu = npu_metrics(Some(13.0 / 3.0), per_core, npu_frequency, None).expect("npu metrics");
    assert_eq!(npu.per_core_usage_percent, vec![5.0, 8.0, 0.0]);
    assert_eq!(npu.frequency_hz, Some(1_000_000_000));

    assert_eq!(
        format_accelerator_section("gpu", Some("7".to_string()), &vec![], gpu.frequency_hz),
        "gpu 7% [300M]"
    );
    assert_eq!(format_accelerator_section("npu", None, &core_loads, npu.frequency_hz), "npu 5/8/0% [1.0G]");
}

/// The library's part of reading the CIX Sky1 GPU, NPU and VPU.
fn check_cix_accelerator_readings() {
    let entries = vec![
        devfreq_entry("CIXH5000:00", "CIXH5000:00\n"),
        devfreq_entry("CIXH4000:00", "CIXH4000:00\n"),
        devfreq_entry("CIXH3010:00", "CIXH3010:00\n"),
    ];
    assert!(is_cix_platform(None, &entries));
    assert_eq!(find_named_devfreq_path(&entries, &["CIXH5000:00"]), Some(0));
    assert_eq!(find_named_devfreq_path(&entries, &["CIXH4000:00"]), Some(1));
    assert_eq!(find_named_devfreq_path(&entries, &["CIXH3010:00"]), Some(2));

    let (busy, idle) = parse_mali_debugfs_usage("busy_time: 25 idle_time: 75 protm_time: 0\n").unwrap();
    assert_eq!((busy, idle), (25, 75));
    let gpu_usage = busy as f64 / (busy + idle) as f64 * 100.0;
    let gpu = gpu_metrics(Some(gpu_usage), read_u64("72000000\n"), parse_runtime_state("active\n"))
        .expect("gpu metrics");
    assert_eq!(gpu.usage_percent, Some(25.0));
    assert_eq!(gpu.frequency_hz, Some(72_000_000));
    assert_eq!(gpu.runtime_state, Some(RuntimeState::Active));
    assert_eq!(format_engine_frequency(72_000_000), "72M");

    let npu = npu_metrics::<f64>(None, Vec::new(), read_u64("1200000000\n"), parse_runtime_state("suspended\n"))
        .expect("npu metrics");
    assert_eq!(npu.frequency_hz, Some(1_200_000_000));
    assert_eq!(npu.runtime_state, Some(RuntimeState::Suspended));

    let vpu_usage = as_f64(parse_vpu_debugfs_utilization("VPU Utilization: 38.25%\n"));
    let vpu = vpu_metrics(vpu_usage, read_u64("150000000\n"), parse_runtime_state("active\n"))
        .expect("vpu metrics");
    assert_eq!(vpu.usage_percent, Some(38.25));
    assert_eq!(vpu.frequency_hz, Some(150_000_000));

    let cix = AcceleratorMetrics { gpu: Some(gpu), npu: Some(npu), vpu: Some(vpu) };
    let generic = AcceleratorMetrics {
        gpu: gpu_metrics(Some(1.0), Some(1), None),
        npu: None,
        vpu: None,
    };
    let merged = merge_accelerators(cix, generic);
    assert_eq!(merged.gpu.unwrap().frequency_hz, Some(72_000_000));
    assert_eq!(merged.npu.unwrap().runtime_state, Some(RuntimeState::Suspended));
    assert_eq!(merged.vpu.unwrap().usage_percent, Some(38.25));
}

#[test]
fn accelerators_need_a_reading_and_generic_ones_fill_in() {
    assert!(gpu_metrics::<f64>(None, None, None).is_none());
    assert!(vpu_metrics::<f64>(None, None, None).is_none());
    assert!(npu_metrics::<f64>(None, Vec::new(), None, None).is_none());
    assert!(npu_metrics(None, vec![3.0], None, None).is_some());
    assert!(gpu_metrics::<f64>(None, None, Some(RuntimeState::Suspended)).is_some());

    let none: AcceleratorMetrics<f64> = AcceleratorMetrics { gpu: None, npu: None, vpu: None };
    let generic = AcceleratorMetrics {
        gpu: Some(GpuMetrics { usage_percent: Some(7.0), frequency_hz: None, runtime_state: None }),
        npu: Some(NpuMetrics {
            usage_percent: None,
            per_core_usage_percent: vec![1.0],
            frequency_hz: None,
            runtime_state: None,
        }),
        vpu: Some(VpuMetrics { usage_percent: Some(1.0), frequency_hz: None, runtime_state: None }),
    };
    let merged = merge_accelerators(none, generic);
    assert_eq!(merged.gpu.unwrap().usage_percent, Some(7.0));
    assert_eq!(merged.npu.unwrap().per_core_usage_percent, vec![1.0]);
    assert!(merged.vpu.is_none());
}

#[test]
fn runtime_state_labels_read_back() {
    for state in [RuntimeState::Active, RuntimeState::Suspended, RuntimeState::Unknown] {
        assert_eq!(parse_runtime_state(state.label()), Some(state));
    }
}
