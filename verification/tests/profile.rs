use machtop::metrics::model::{MachineInfo, SensorKind, SensorReading, SensorSource};
use machtop::metrics::profile::{lookup_sensor, BoardProfile};

fn sensor(source: SensorSource, device: &str, label: &str, kind: SensorKind, millic: u64) -> SensorReading {
    SensorReading {
        source,
        device_name: device.into(),
        label: label.into(),
        kind,
        temperature_millic: millic,
    }
}

fn celsius(millic: Option<u64>) -> Option<f64> {
    millic.map(|value| value as f64 / 1000.0)
}

#[test]
fn generic_summary_prefers_known_sensor_order() {
    let sensors = vec![
        sensor(SensorSource::Hwmon, "nvme", "Composite", SensorKind::Storage, 40_000),
        sensor(SensorSource::Hwmon, "k10temp", "Tctl", SensorKind::Cpu, 55_000),
    ];

    let summary = BoardProfile::GenericLinux.sensor_summary(&sensors);

    assert_eq!(summary[0].label, "cpu");
    assert_eq!(summary[1].label, "nvme");
}

#[test]
fn cix_sky1_summary_uses_acpi_thermal_zone_labels() {
    let sensors = vec![
        sensor(SensorSource::ThermalZone, "thermal_zone0", "cpu-b0", SensorKind::Cpu, 37_000),
        sensor(SensorSource::ThermalZone, "thermal_zone4", "gpu", SensorKind::Gpu, 35_000),
        sensor(SensorSource::ThermalZone, "thermal_zone5", "soc", SensorKind::Soc, 31_000),
        sensor(SensorSource::Hwmon, "nvme", "Composite", SensorKind::Storage, 43_000),
    ];

    let summary = BoardProfile::CixSky1.sensor_summary(&sensors);

    assert_eq!(
        summary
            .iter()
            .map(|sensor| sensor.label.as_str())
            .collect::<Vec<_>>(),
        vec!["cpu", "gpu", "soc", "nvme"]
    );
    assert_eq!(
        celsius(BoardProfile::CixSky1.per_cpu_temperature(10, &sensors)),
        Some(37.0)
    );
    assert_eq!(
        celsius(BoardProfile::CixSky1.per_cpu_temperature(2, &sensors)),
        Some(31.0)
    );
    assert_eq!(
        celsius(BoardProfile::CixSky1.per_cpu_temperature(5, &sensors)),
        Some(31.0)
    );
}

#[test]
fn detects_rk3588_from_sensors_and_maps_big_cores() {
    let machine = MachineInfo {
        machine_name: "Generic Linux board".into(),
        kernel: "6.0".into(),
        arch: "aarch64".into(),
    };
    let sensors = vec![
        sensor(SensorSource::ThermalZone, "thermal_zone0", "bigcore0-thermal", SensorKind::Cpu, 48_000),
        sensor(SensorSource::ThermalZone, "thermal_zone1", "bigcore1-thermal", SensorKind::Cpu, 52_000),
    ];

    let profile = BoardProfile::detect(&machine, &sensors);

    assert_eq!(profile, BoardProfile::RockchipRk3588);
    assert_eq!(celsius(profile.per_cpu_temperature(4, &sensors)), Some(48.0));
    assert_eq!(celsius(profile.per_cpu_temperature(7, &sensors)), Some(52.0));
}

#[test]
fn generic_summary_keeps_the_hottest_sensor_of_each_kind() {
    let sensors = vec![
        sensor(SensorSource::Hwmon, "coretemp", "Core 0", SensorKind::Cpu, 41_000),
        sensor(SensorSource::Hwmon, "coretemp", "Core 1", SensorKind::Cpu, 47_500),
        sensor(SensorSource::Hwmon, "iwlwifi", "temp1", SensorKind::Wireless, 90_000),
        sensor(SensorSource::ThermalZone, "thermal_zone2", "soc", SensorKind::Soc, 39_000),
        sensor(SensorSource::Hwmon, "amdgpu", "edge", SensorKind::Gpu, 60_000),
    ];

    let summary = BoardProfile::GenericLinux.sensor_summary(&sensors);

    let rows = summary
        .iter()
        .map(|row| (row.label.as_str(), row.temperature_millic))
        .collect::<Vec<_>>();
    assert_eq!(rows, vec![("cpu", 47_500), ("gpu", 60_000), ("soc", 39_000)]);
    assert_eq!(BoardProfile::GenericLinux.per_cpu_temperature(0, &sensors), None);
}

#[test]
fn detects_cix_by_name_and_by_sensor() {
    let cix = MachineInfo {
        machine_name: "Radxa Orion O6".into(),
        kernel: "6.6".into(),
        arch: "aarch64".into(),
    };
    assert_eq!(BoardProfile::detect(&cix, &Vec::new()), BoardProfile::CixSky1);
    let other = MachineInfo {
        machine_name: "Example".into(),
        kernel: "6.6".into(),
        arch: "aarch64".into(),
    };
    let sensors = vec![sensor(SensorSource::ThermalZone, "thermal_zone1", "cpu-m1", SensorKind::Cpu, 30_000)];
    assert_eq!(BoardProfile::detect(&other, &sensors), BoardProfile::CixSky1);
    assert_eq!(BoardProfile::detect(&other, &Vec::new()), BoardProfile::GenericLinux);
    let rock = MachineInfo {
        machine_name: "Radxa ROCK 5B (RK3588)".into(),
        kernel: "6.1".into(),
        arch: "aarch64".into(),
    };
    assert_eq!(BoardProfile::detect(&rock, &Vec::new()), BoardProfile::RockchipRk3588);
}

#[test]
fn rk3588_falls_back_to_soc_zone_and_cix_beyond_twelve_cpus_has_none() {
    let sensors = vec![
        sensor(SensorSource::ThermalZone, "thermal_zone0", "soc-thermal", SensorKind::Soc, 40_000),
        sensor(SensorSource::ThermalZone, "thermal_zone1", "littlecore-thermal", SensorKind::Cpu, 45_000),
    ];
    assert_eq!(BoardProfile::RockchipRk3588.per_cpu_temperature(1, &sensors), Some(45_000));
    assert_eq!(BoardProfile::RockchipRk3588.per_cpu_temperature(5, &sensors), Some(40_000));
    assert_eq!(BoardProfile::CixSky1.per_cpu_temperature(12, &sensors), None);
    let summary = BoardProfile::RockchipRk3588.sensor_summary(&sensors);
    let rows = summary
        .iter()
        .map(|row| (row.label.as_str(), row.temperature_millic))
        .collect::<Vec<_>>();
    assert_eq!(rows, vec![("cpu", 45_000), ("soc", 40_000)]);
    assert_eq!(lookup_sensor(&sensors, "soc-thermal"), Some(40_000));
    assert_eq!(lookup_sensor(&sensors, "gpu-thermal"), None);
}

#[test]
fn lookup_takes_the_first_sensor_with_the_label() {
    let sensors = vec![
        sensor(SensorSource::ThermalZone, "thermal_zone0", "gpu", SensorKind::Gpu, 50_000),
        sensor(SensorSource::Hwmon, "gpu_thermal", "gpu", SensorKind::Gpu, 60_000),
    ];
    assert_eq!(lookup_sensor(&sensors, "gpu"), Some(50_000));
    let summary = BoardProfile::CixSky1.sensor_summary(&sensors);
    assert_eq!(summary.len(), 1);
    assert_eq!(summary[0].label, "gpu");
    assert_eq!(summary[0].temperature_millic, 50_000);
}

#[test]
fn rk3588_without_its_labels_falls_back_to_generic_summary() {
    let sensors = vec![sensor(SensorSource::Hwmon, "k10temp", "Tctl", SensorKind::Cpu, 55_000)];
    let rk3588 = BoardProfile::RockchipRk3588.sensor_summary(&sensors);
    let generic = BoardProfile::GenericLinux.sensor_summary(&sensors);
    assert_eq!(rk3588.len(), 1);
    assert_eq!(rk3588[0].label, generic[0].label);
    assert_eq!(rk3588[0].temperature_millic, 55_000);
    assert_eq!(BoardProfile::RockchipRk3588.per_cpu_temperature(0, &sensors), None);
}

#[test]
fn rk3588_with_its_labels_uses_its_zones() {
    let sensors = vec![
        sensor(SensorSource::ThermalZone, "thermal_zone0", "bigcore0-thermal", SensorKind::Cpu, 48_000),
        sensor(SensorSource::Hwmon, "k10temp", "Tctl", SensorKind::Cpu, 60_000),
    ];
    let summary = BoardProfile::RockchipRk3588.sensor_summary(&sensors);
    assert_eq!(summary.len(), 1);
    assert_eq!(summary[0].label, "cpu");
    assert_eq!(summary[0].temperature_millic, 48_000);
}
