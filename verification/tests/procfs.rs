use std::collections::HashMap;

use machtop::metrics::procfs::{
    command_from_args, decode_cmdline_args, parse_process_command, is_missing_or_permission, is_pid_dir_name, meminfo_is_readable, parse_diskstats,
    parse_meminfo, parse_net_dev, parse_process_sample, parse_proc_stat, parse_swaps,
    parse_uptime, proc_stat_is_readable, process_stat_is_readable, read_passwd_users,
    read_process_sample, ProcessReadError, ProcfsError, ProcfsReader, ReadFailure,
};

#[test]
fn parses_proc_stat() {
    let snapshot = parse_proc_stat(
        "cpu  10 0 10 80 0 0 0 0 0 0\ncpu0 5 0 5 40 0 0 0 0 0 0\ncpu1 5 0 5 40 0 0 0 0 0 0\n",
    )
    .unwrap();

    assert_eq!(snapshot.per_cpu.len(), 2);
    assert_eq!(snapshot.overall.total, 100);
}

#[test]
fn parses_meminfo_with_swap_totals() {
    let info = parse_meminfo(
        "MemTotal:       32778300 kB\n\
         MemAvailable:   27295040 kB\n\
         SwapTotal:       4194300 kB\n\
         SwapFree:        3145725 kB\n",
    )
    .unwrap();

    assert_eq!(info.total_bytes, 32_778_300 * 1024);
    assert_eq!(info.available_bytes, 27_295_040 * 1024);
    assert_eq!(info.swap_total_bytes, 4_194_300 * 1024);
    assert_eq!(info.swap_free_bytes, 3_145_725 * 1024);
}

#[test]
fn parses_process_sample_from_stat_and_status() {
    let mut uid_map = HashMap::new();
    uid_map.insert(1000, "clay".to_string());

    let sample = parse_process_sample(
        42,
        "42 (worker) R 1 1 1 1 1 0 0 0 0 0 10 5 0 0 20 0 1 0 99 1024 5 0 0 0 0 0 0 0 0 0 0 0",
        "Name:\tworker\nUid:\t1000\t1000\t1000\t1000\n",
        b"/usr/bin/worker\0--flag\0",
        "worker\n",
        &uid_map,
        4096,
    )
    .unwrap()
    .unwrap();

    assert_eq!(sample.key.pid, 42);
    assert_eq!(sample.user, "clay");
    assert_eq!(sample.command, "/usr/bin/worker --flag");
    assert_eq!(sample.rss_bytes, 5 * 4096);
}

#[test]
fn parses_network_samples_from_proc_net_dev() {
    let samples = parse_net_dev(
        "Inter-|   Receive                                                |  Transmit\n\
         face |bytes    packets errs drop fifo frame compressed multicast|bytes    packets errs drop fifo colls carrier compressed\n\
          lo: 123 0 0 0 0 0 0 0 456 0 0 0 0 0 0 0\n\
        eth0: 2048 0 0 0 0 0 0 0 4096 0 0 0 0 0 0 0\n",
    )
    .unwrap();

    assert_eq!(samples.len(), 2);
    assert_eq!(samples[1].name, "eth0");
    assert_eq!(samples[1].rx_bytes, 2048);
    assert_eq!(samples[1].tx_bytes, 4096);
}

#[test]
fn parses_diskstats_samples_as_bytes() {
    let samples = parse_diskstats(
        "259 0 nvme0n1 100 0 200 0 300 0 400 0 0 0 0 0 0 0 0 0 0\n\
         7 0 loop0 1 0 2 0 3 0 4 0 0 0 0 0 0 0 0 0 0\n",
    )
    .unwrap();

    assert_eq!(samples.len(), 2);
    assert_eq!(samples[0].name, "nvme0n1");
    assert_eq!(samples[0].read_bytes, 200 * 512);
    assert_eq!(samples[0].write_bytes, 400 * 512);
}

#[test]
fn parses_swaps_and_uses_device_basename() {
    let swaps = parse_swaps(
        "Filename\t\t\t\tType\t\tSize\t\tUsed\t\tPriority\n\
         /dev/zram0                              partition\t4194300\t\t128\t\t100\n\
         /swapfile                               file\t\t2048\t\t1024\t\t-2\n",
    )
    .unwrap();

    assert_eq!(swaps.len(), 2);
    assert_eq!(swaps[0].name, "zram0");
    assert_eq!(swaps[0].size_bytes, 4_194_300 * 1024);
    assert_eq!(swaps[0].used_bytes, 128 * 1024);
    assert_eq!(swaps[1].name, "swapfile");
}

#[test]
fn proc_stat_sums_idle_and_iowait_and_numbers_cpus() {
    let snapshot = parse_proc_stat(
        "intr 1 2 3\ncpu  4 1 3 70 2 0 0 0 0 0\ncpu0 2 0 1 35 1 0 0 0 0 0\nctxt 99\n",
    )
    .unwrap();

    assert_eq!(snapshot.overall.idle, 72);
    assert_eq!(snapshot.overall.total, 80);
    assert_eq!(snapshot.per_cpu.len(), 1);
    assert_eq!(snapshot.per_cpu[0].idle, 36);
    assert_eq!(snapshot.per_cpu[0].total, 39);
}

#[test]
fn proc_stat_without_cpu_lines_is_an_error() {
    assert!(matches!(parse_proc_stat("intr 1\nctxt 2\n"), Err(ProcfsError::NoCpuCounters)));
    assert!(matches!(parse_proc_stat("cpu 1 2 3\n"), Err(ProcfsError::NoCpuCounters)));
}

#[test]
fn proc_stat_overflow_is_detected_before_parsing() {
    assert!(proc_stat_is_readable("cpu 1 2 3 4\n"));
    assert!(!proc_stat_is_readable(
        "cpu 18446744073709551615 1 0 0\n"
    ));
}

#[test]
fn meminfo_reports_missing_fields() {
    assert!(matches!(
        parse_meminfo("MemAvailable: 10 kB\n"),
        Err(ProcfsError::MemTotalMissing)
    ));
    assert!(matches!(
        parse_meminfo("MemTotal: 10 kB\n"),
        Err(ProcfsError::MemAvailableMissing)
    ));
    let info = parse_meminfo("MemTotal: 10 kB\nMemAvailable: 4 kB\n").unwrap();
    assert_eq!(info.swap_total_bytes, 0);
    assert_eq!(info.swap_free_bytes, 0);
    assert!(meminfo_is_readable("MemTotal: 10 kB\nMemAvailable: 4 kB\n"));
    assert!(!meminfo_is_readable(
        "MemTotal: 18446744073709551615 kB\nMemAvailable: 4 kB\n"
    ));
}

#[test]
fn net_dev_counter_errors_are_reported() {
    assert!(matches!(
        parse_net_dev("a\nb\neth0: x 0 0 0 0 0 0 0 1 0 0 0 0 0 0 0\n"),
        Err(ProcfsError::NetDevCounter)
    ));
}

#[test]
fn diskstats_errors_name_the_disk() {
    let error = parse_diskstats("8 0 sda 1 0 x 0 1 0 2 0 0 0 0\n").err().unwrap();
    assert_eq!(error, ProcfsError::DiskReadSectors { disk: "sda".to_string() });
    let error = parse_diskstats("8 0 sdb 1 0 2 0 1 0 y 0 0 0 0\n").err().unwrap();
    assert_eq!(error, ProcfsError::DiskWriteSectors { disk: "sdb".to_string() });
}

#[test]
fn reads_uptime_seconds_text() {
    assert_eq!(parse_uptime("12345.67 54321.00\n").unwrap(), "12345.67");
    assert!(matches!(parse_uptime("  \n"), Err(ProcfsError::UptimeMissing)));
}

#[test]
fn reads_passwd_users_last_entry_wins() {
    let users = read_passwd_users("root:x:0:0:root:/root:/bin/sh\nbad line\nclay:x:1000:1000::/home/clay:/bin/sh\nalt:x:1000:1000::/:/bin/sh\nnum:x:abc:1::/:/bin/sh\n");

    assert_eq!(users.len(), 2);
    assert_eq!(users.get(&0).map(String::as_str), Some("root"));
    assert_eq!(users.get(&1000).map(String::as_str), Some("alt"));
}

#[test]
fn procfs_reader_keeps_root_users_and_page_size() {
    let reader = ProcfsReader::new("/proc", Some("root:x:0:0::/:/bin/sh\n"), 16384);
    assert_eq!(reader.page_size(), 16384);
    assert_eq!(reader.uid_map().get(&0).map(String::as_str), Some("root"));
    assert_eq!(reader.file_path("stat"), "/proc/stat");
    assert_eq!(reader.read_kernel_release("6.1.0-rk\n"), "6.1.0-rk");

    let fallback = ProcfsReader::new("/proc/", None, -1);
    assert_eq!(fallback.page_size(), 4096);
    assert!(fallback.uid_map().is_empty());
    assert_eq!(fallback.file_path("net/dev"), "/proc/net/dev");
}

#[test]
fn process_sample_falls_back_to_comm_and_uid_number() {
    let uid_map = HashMap::new();
    let stat = "7 (kworker/0:1) S 2 0 0 0 -1 0 0 0 0 0 3 4 0 0 20 0 1 0 55 0 -3 0";
    assert!(process_stat_is_readable(stat));
    let sample = parse_process_sample(7, stat, "Uid:\t33\t33\t33\t33\n", b"", "", &uid_map, 4096)
        .unwrap()
        .unwrap();

    assert_eq!(sample.command, "kworker/0:1");
    assert_eq!(sample.user, "33");
    assert_eq!(sample.state, 'S');
    assert_eq!(sample.total_time_ticks, 7);
    assert_eq!(sample.key.start_time_ticks, 55);
    assert_eq!(sample.rss_bytes, 0);
}

#[test]
fn process_sample_with_short_stat_is_skipped() {
    let uid_map = HashMap::new();
    let sample =
        parse_process_sample(1, "1 (init) S 0 1", "", b"", "init\n", &uid_map, 4096).unwrap();
    assert!(sample.is_none());
    assert!(!process_stat_is_readable("1 (init)"));
}

#[test]
fn process_directory_read_failures() {
    let uid_map = HashMap::new();
    let stat = "9 (sh) R 1 1 1 1 1 0 0 0 0 0 1 1 0 0 20 0 1 0 5 10 2 0";
    assert!(matches!(
        read_process_sample("self", Ok(stat), Ok(""), Ok(b""), "", &uid_map, 4096),
        Err(ProcessReadError::Pid)
    ));
    assert!(matches!(
        read_process_sample("9", Err(ReadFailure::NotFound), Ok(""), Ok(b""), "", &uid_map, 4096),
        Ok(None)
    ));
    assert!(matches!(
        read_process_sample("9", Err(ReadFailure::Other), Ok(""), Ok(b""), "", &uid_map, 4096),
        Err(ProcessReadError::Stat)
    ));
    assert!(matches!(
        read_process_sample("9", Ok(stat), Err(ReadFailure::PermissionDenied), Ok(b""), "", &uid_map, 4096),
        Ok(None)
    ));
    assert!(matches!(
        read_process_sample("9", Ok(stat), Err(ReadFailure::Other), Ok(b""), "", &uid_map, 4096),
        Err(ProcessReadError::Status)
    ));
    assert!(matches!(
        read_process_sample("9", Ok(stat), Ok(""), Err(ReadFailure::Other), "", &uid_map, 4096),
        Err(ProcessReadError::Cmdline)
    ));
    let sample = read_process_sample(
        "9",
        Ok(stat),
        Ok(""),
        Err(ReadFailure::PermissionDenied),
        "shell\n",
        &uid_map,
        4096,
    )
    .unwrap()
    .unwrap();
    assert_eq!(sample.command, "shell");
    assert_eq!(sample.key.pid, 9);
    assert_eq!(sample.rss_bytes, 2 * 4096);
    assert!(is_missing_or_permission(ReadFailure::NotFound));
    assert!(!is_missing_or_permission(ReadFailure::Other));
}

#[test]
fn pid_directories_are_all_digits() {
    assert!(is_pid_dir_name("1234"));
    assert!(!is_pid_dir_name("self"));
    assert!(!is_pid_dir_name("12a"));
}

#[test]
fn decodes_command_lines_lossily() {
    let args = decode_cmdline_args(b"/bin/caf\xc3\xa9\0\0--x\xff\0");
    assert_eq!(args, vec!["/bin/café".chars().collect::<Vec<char>>(), "--x\u{FFFD}".chars().collect::<Vec<char>>()]);
    assert_eq!(
        parse_process_command(b"bad\xffname\0", "comm").as_deref(),
        Some("bad\u{FFFD}name")
    );
    assert_eq!(parse_process_command(b"\0\0", "  kthreadd \n").as_deref(), Some("kthreadd"));
    assert_eq!(parse_process_command(b"", " \n"), None);
    assert_eq!(
        command_from_args(&vec!["a".chars().collect(), "b c".chars().collect()], "x").as_deref(),
        Some("a b c")
    );
    assert_eq!(command_from_args(&Vec::new(), "x").as_deref(), Some("x"));
}
