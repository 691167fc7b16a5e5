use machtop::metrics::model::{CpuMetrics, CpuShare, MemoryMetrics, SensorSummary, UsageMetric};
use machtop::refresh::RefreshClock;
use machtop::ui::format::{
    format_accelerator_section, format_bytes, format_engine_frequency, format_frequency,
    format_sensor_summary, format_temperature, format_uptime, summary_line, truncate_text,
};
use machtop::ui::layout::{
    arrange_cpu_columns, build_memory_rows, centring_left_padding, cpu_bar_width, cpu_column_range,
    cpu_fixed_width, cpu_id_width, cpu_layout, cpu_rows_per_column, memory_line_widths,
    overall_bar_width, process_table_shape, row_fixed_width, summary_cell_widths,
    summary_panel_height,
};

#[test]
fn formats_bytes_adaptively() {
    assert_eq!(format_bytes(512 * 1024), "512K");
    assert_eq!(format_bytes(128 * 1024 * 1024), "128M");
    assert_eq!(format_bytes(3 * 1024 * 1024 * 1024), "3.0G");
}

fn float_format_bytes(bytes: u64) -> String {
    const KIB: f64 = 1024.0;
    const MIB: f64 = KIB * 1024.0;
    const GIB: f64 = MIB * 1024.0;

    if bytes as f64 >= GIB {
        format!("{:.1}G", bytes as f64 / GIB)
    } else if bytes as f64 >= MIB {
        format!("{:.0}M", bytes as f64 / MIB)
    } else {
        format!("{:.0}K", bytes as f64 / KIB)
    }
}

#[test]
fn formats_bytes_like_float_formatting_at_rounding_edges() {
    let cases = [
        0,
        1,
        511,
        512,
        513,
        1536,
        2560,
        1024 * 1024 - 512,
        1024 * 1024 - 1,
        3 * 1024 * 1024 / 2,
        5 * 1024 * 1024 / 2,
        1024 * 1024 * 1024 - 1,
        1024 * 1024 * 1024 + 1024 * 1024 * 1024 / 20,
        3 * 1024 * 1024 * 1024 / 20 * 10 + 1024 * 1024 * 1024 / 20,
        (1u64 << 53) + 1,
        (1u64 << 60) + 12345,
        u64::MAX - 1024,
        u64::MAX,
    ];
    for bytes in cases {
        assert_eq!(format_bytes(bytes), float_format_bytes(bytes), "{bytes}");
    }
}

#[test]
fn formats_uptime_with_and_without_days() {
    assert_eq!(format_uptime(0), "00h 00m");
    assert_eq!(format_uptime(3_599), "00h 59m");
    assert_eq!(format_uptime(3 * 86_400 + 4 * 3_600 + 5 * 60 + 59), "3d 04h 05m");
    assert_eq!(format_uptime(86_399), "23h 59m");
}

#[test]
fn truncates_text_to_width() {
    assert_eq!(truncate_text("firefox", 0), "");
    assert_eq!(truncate_text("firefox", 7), "firefox");
    assert_eq!(truncate_text("firefox", 3), "fir");
    assert_eq!(truncate_text("firefox", 6), "fir...");
    assert_eq!(truncate_text("héllo wörld", 8), "héllo...");
}

#[test]
fn builds_memory_rows_in_expected_order() {
    let rows = build_memory_rows(&MemoryMetrics {
        ram: UsageMetric::from_total_and_used(8, 4),
        zram: UsageMetric::from_total_and_used(4, 1),
        swap: UsageMetric::from_total_and_used(16, 2),
    });

    assert_eq!(rows.len(), 3);
    assert_eq!(rows[0].label, "ram");
    assert_eq!(rows[0].size_text, "[0K/0K]");
    assert_eq!(rows[1].label, "zram");
    assert_eq!(rows[2].label, "swap");
}

#[test]
fn memory_rows_leave_out_empty_swap_and_zram() {
    let rows = build_memory_rows(&MemoryMetrics {
        ram: UsageMetric::from_total_and_used(16 * 1024 * 1024 * 1024, 3 * 1024 * 1024 * 1024),
        zram: UsageMetric::from_total_and_used(0, 0),
        swap: UsageMetric::from_total_and_used(0, 0),
    });
    assert_eq!(rows.len(), 1);
    assert_eq!(rows[0].size_text, "[3.0G/16.0G]");
}

#[test]
fn cpu_layout_uses_more_columns_on_wider_terminal() {
    let cpus = (0..16)
        .map(|id| CpuMetrics {
            id,
            usage: CpuShare { busy_ticks: 0, total_ticks: 0 },
            frequency_khz: Some(3_600_000),
            temperature_millic: None,
        })
        .collect::<Vec<_>>();

    let compact_layout = cpu_layout(78, &cpus);
    let medium_layout = cpu_layout(96, &cpus);
    let wide_layout = cpu_layout(120, &cpus);
    let very_wide_layout = cpu_layout(160, &cpus);

    assert_eq!(compact_layout.columns, 2);
    assert_eq!(medium_layout.columns, 2);
    assert_eq!(wide_layout.columns, 3);
    assert_eq!(very_wide_layout.columns, 3);
}

fn cpu(id: usize, frequency_khz: Option<u64>, temperature_millic: Option<u64>) -> CpuMetrics {
    CpuMetrics {
        id,
        usage: CpuShare { busy_ticks: 1, total_ticks: 2 },
        frequency_khz,
        temperature_millic,
    }
}

#[test]
fn cpu_layout_widths_and_bars() {
    assert_eq!(cpu_id_width(&vec![]), 2);
    assert_eq!(cpu_id_width(&vec![3, 128]), 3);
    assert_eq!(row_fixed_width(2, 6, 0), 20);
    assert_eq!(row_fixed_width(2, 6, 7), 28);
    assert_eq!(cpu_fixed_width(2, &vec![]), 20);
    assert_eq!(cpu_fixed_width(2, &vec![cpu(0, None, None)]), 20);
    assert_eq!(cpu_fixed_width(2, &vec![cpu(0, Some(3_600_000), Some(45_000))]), 28);
    assert_eq!(cpu_fixed_width(3, &vec![cpu(0, Some(12_000_000), Some(105_000))]), 31);
    let layout = arrange_cpu_columns(20, 1, 2, 20, true);
    assert_eq!(layout.columns, 1);
    assert_eq!(layout.max_bar_width, 18);
    assert_eq!(cpu_bar_width(10, &layout), 12);
    assert_eq!(cpu_bar_width(36, &layout), 15);
    assert_eq!(cpu_bar_width(100, &layout), 18);
    let two = arrange_cpu_columns(200, 2, 2, 20, false);
    assert_eq!(two.columns, 2);
    assert_eq!(two.max_bar_width, 22);
    let with_temperature = cpu_layout(200, &vec![cpu(0, Some(2_000_000), None), cpu(128, None, Some(40_000))]);
    assert_eq!(with_temperature.id_width, 3);
    assert_eq!(with_temperature.fixed_width, 29);
    assert_eq!(with_temperature.max_bar_width, 18);
    assert_eq!(with_temperature.columns, 2);
    let empty = cpu_layout(200, &vec![]);
    assert_eq!(empty.columns, 1);
    assert_eq!(empty.fixed_width, 20);
}

#[test]
fn refresh_clock_waits_out_the_period() {
    let mut clock = RefreshClock::new(1_000, 5_000);
    assert_eq!(clock.poll_timeout(5_200), 800);
    assert!(!clock.refresh_due(5_999));
    assert!(clock.refresh_due(6_000));
    assert_eq!(clock.poll_timeout(7_000), 0);
    assert_eq!(clock.poll_timeout(4_000), 1_000);
    clock.refreshed(7_000);
    assert!(!clock.refresh_due(7_500));
}

#[test]
fn panel_widths_and_heights() {
    assert_eq!(summary_panel_height(0), 6);
    assert_eq!(summary_panel_height(3), 6);
    assert_eq!(summary_panel_height(5), 7);
    assert_eq!(summary_cell_widths(40), (11, 28));
    assert_eq!(summary_cell_widths(5), (4, 0));
    assert_eq!(summary_cell_widths(0), (0, 0));
    assert_eq!(memory_line_widths(60, 12), (6, 16, 27));
    assert_eq!(memory_line_widths(20, 12), (6, 4, 0));
    assert_eq!(overall_bar_width(100, 24), 28);
    assert_eq!(overall_bar_width(30, 24), 12);
    assert_eq!(overall_bar_width(44, 24), 20);
    assert_eq!(centring_left_padding(80, 40), 20);
    assert_eq!(centring_left_padding(30, 40), 0);
    assert_eq!(process_table_shape(95, 20), (true, 17));
    assert_eq!(process_table_shape(96, 2), (false, 0));
    assert_eq!(cpu_rows_per_column(16, 3), 6);
    assert_eq!(cpu_rows_per_column(12, 3), 4);
    assert_eq!(cpu_column_range(2, 6, 16), (12, 16));
    assert_eq!(cpu_column_range(1, 6, 16), (6, 12));
}

fn float_format_frequency(frequency_khz: Option<u64>) -> String {
    match frequency_khz {
        Some(value) => format!("[{:.1}G]", value as f64 / 1_000_000.0),
        None => "[ n/a]".to_string(),
    }
}

fn float_format_temperature(millic: u64) -> String {
    format!("[{:>4.1}C]", millic as f64 / 1000.0)
}

fn float_format_engine_frequency(frequency_hz: u64) -> String {
    const MHZ: f64 = 1_000_000.0;
    const GHZ: f64 = 1_000_000_000.0;

    if frequency_hz as f64 >= GHZ {
        format!("{:.1}G", frequency_hz as f64 / GHZ)
    } else {
        format!("{:.0}M", frequency_hz as f64 / MHZ)
    }
}

/// A fixed sequence of well-spread numbers (a linear congruential walk).
fn spread_values(count: usize, seed: u64) -> Vec<u64> {
    let mut state = seed;
    let mut values = Vec::new();
    for i in 0..count {
        state = state
            .wrapping_mul(6364136223846793005)
            .wrapping_add(1442695040888963407);
        let shift = (i % 64) as u32;
        values.push(state >> shift);
    }
    values
}

fn rounding_edges(step: u64) -> Vec<u64> {
    let mut values = vec![0, 1, 2, 49, 50, 51, 99, 100, 101];
    for k in [1u64, 2, 3, 7, 10, 11, 12, 15, 25, 35, 45, 95, 105, 115, 125, 995, 999, 1005, 3605] {
        let centre = k * step / 2;
        for delta in 0..3 {
            values.push(centre + delta);
            values.push(centre.saturating_sub(delta));
        }
    }
    for shift in [52u32, 53, 54, 60, 63] {
        let base = 1u64 << shift;
        values.push(base - 1);
        values.push(base);
        values.push(base + 1);
    }
    values.push(u64::MAX - 1);
    values.push(u64::MAX);
    values
}

#[test]
fn formats_cpu_frequency_in_gigahertz() {
    assert_eq!(format_frequency(Some(3_600_000)), "[3.6G]");
    assert_eq!(format_frequency(Some(1_050_000)), "[1.1G]");
    assert_eq!(format_frequency(Some(1_250_000)), "[1.2G]");
    assert_eq!(format_frequency(Some(0)), "[0.0G]");
    assert_eq!(format_frequency(None), "[ n/a]");
}

#[test]
fn formats_cpu_frequency_like_float_formatting() {
    let mut values = rounding_edges(100_000);
    values.extend(spread_values(4000, 7));
    for khz in values {
        assert_eq!(format_frequency(Some(khz)), float_format_frequency(Some(khz)), "{khz}");
    }
    assert_eq!(format_frequency(None), float_format_frequency(None));
}

#[test]
fn formats_temperature_right_aligned() {
    assert_eq!(format_temperature(52_300), "[52.3C]");
    assert_eq!(format_temperature(5_000), "[ 5.0C]");
    assert_eq!(format_temperature(250), "[ 0.2C]");
    assert_eq!(format_temperature(105_000), "[105.0C]");
}

#[test]
fn formats_temperature_like_float_formatting() {
    let mut values = rounding_edges(100);
    values.extend(spread_values(4000, 11));
    for millic in values {
        assert_eq!(format_temperature(millic), float_format_temperature(millic), "{millic}");
    }
}

#[test]
fn formats_engine_frequency_in_mega_or_gigahertz() {
    assert_eq!(format_engine_frequency(300_000_000), "300M");
    assert_eq!(format_engine_frequency(999_999_999), "1000M");
    assert_eq!(format_engine_frequency(1_000_000_000), "1.0G");
    assert_eq!(format_engine_frequency(1_050_000_000), "1.1G");
    assert_eq!(format_engine_frequency(2_500_000), "2M");
}

#[test]
fn formats_engine_frequency_like_float_formatting() {
    let mut values = rounding_edges(1_000_000);
    values.extend(rounding_edges(100_000_000));
    values.extend(spread_values(4000, 13));
    for hz in values {
        assert_eq!(format_engine_frequency(hz), float_format_engine_frequency(hz), "{hz}");
    }
}

#[test]
fn formats_accelerator_sections_compactly() {
    assert_eq!(
        format_accelerator_section("gpu", Some(format!("{:.0}", 7.0_f64)), &vec![], Some(300_000_000)),
        "gpu 7% [300M]"
    );
    let cores = [12.0_f64, 8.0, 0.0].iter().map(|value| format!("{value:.0}")).collect::<Vec<_>>();
    assert_eq!(
        format_accelerator_section("npu", Some(format!("{:.0}", 4.0_f64)), &cores, Some(1_000_000_000)),
        "npu 12/8/0% [1.0G]"
    );
}

#[test]
fn accelerator_section_leaves_out_what_is_unknown() {
    assert_eq!(format_accelerator_section("gpu", None, &vec![], None), "gpu");
    assert_eq!(format_accelerator_section("vpu", Some("38".to_string()), &vec![], None), "vpu 38%");
    assert_eq!(format_accelerator_section("npu", None, &vec!["5".to_string()], Some(1_500_000_000)), "npu 5% [1.5G]");
}

#[test]
fn formats_sensor_summary_with_bracketed_temperatures() {
    let summary = vec![SensorSummary {
        label: "cpu".to_string(),
        temperature_millic: 52_300,
    }];

    assert_eq!(format_sensor_summary(&summary), Some("cpu [52.3C]".to_string()));
}

#[test]
fn summary_lines_join_sections_with_two_spaces() {
    assert_eq!(format_sensor_summary(&vec![]), None);
    let summary = vec![
        SensorSummary { label: "cpu".to_string(), temperature_millic: 52_300 },
        SensorSummary { label: "gpu".to_string(), temperature_millic: 7_000 },
    ];
    assert_eq!(format_sensor_summary(&summary), Some("cpu [52.3C]  gpu [ 7.0C]".to_string()));
    assert_eq!(summary_line(&vec![]), None);
    assert_eq!(
        summary_line(&vec!["gpu 7%".to_string(), "npu 1%".to_string()]),
        Some("gpu 7%  npu 1%".to_string())
    );
}
