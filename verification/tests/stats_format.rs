use orchestrator::stats::{
    format_mb, format_percent_hundredths, get_stats, u64_to_dec, DiskSpace, HostSample,
};

fn sample() -> HostSample {
    HostSample {
        cpu_usage_hundredths: 750,
        total_memory: 8 * 1024 * 1024 * 1024,
        used_memory: 3 * 1024 * 1024 * 1024 + 512 * 1024,
        total_swap: 2 * 1024 * 1024 * 1024,
        used_swap: 0,
        system_name: "Linux".to_string(),
        hostname: "node-1".to_string(),
        total_cpus: 8,
        disks: vec![
            DiskSpace { total: 100, available: 25 },
            DiskSpace { total: 100, available: 75 },
        ],
    }
}

#[test]
fn stats_carry_megabytes_and_shares() {
    let s = get_stats(&sample(), 3);
    assert_eq!(s.cpu_usage_hundredths, 750);
    assert_eq!(s.total_memory, 8 * 1024);
    assert_eq!(s.used_memory, 3 * 1024); // the extra half megabyte truncates
    assert_eq!(s.total_swap, 2 * 1024);
    assert_eq!(s.used_swap, 0);
    assert_eq!(s.system_name, "Linux");
    assert_eq!(s.hostname, "node-1");
    assert_eq!(s.total_cpus, 8);
    // (75 + 25) of 200 bytes used: 50%, reported in hundredths.
    assert_eq!(s.disk_usage_hundredths, 5000);
    assert_eq!(s.task_count, 3);
}

#[test]
fn disk_usage_is_zero_without_disks() {
    let mut h = sample();
    h.disks = Vec::new();
    assert_eq!(get_stats(&h, 0).disk_usage_hundredths, 0);
}

#[test]
fn disk_usage_truncates_toward_zero() {
    let mut h = sample();
    h.disks = vec![DiskSpace { total: 3, available: 2 }];
    // 1 of 3 bytes used = 33.33…%, truncated to 3333 hundredths.
    assert_eq!(get_stats(&h, 0).disk_usage_hundredths, 3333);
}

#[test]
fn decimal_rendering_is_exact() {
    assert_eq!(u64_to_dec(0), "0");
    assert_eq!(u64_to_dec(7), "7");
    assert_eq!(u64_to_dec(10), "10");
    assert_eq!(u64_to_dec(1234567890), "1234567890");
    assert_eq!(u64_to_dec(u64::MAX), "18446744073709551615");
}

#[test]
fn percent_rendering_keeps_two_decimals() {
    assert_eq!(format_percent_hundredths(0), "0.00%");
    assert_eq!(format_percent_hundredths(9), "0.09%");
    assert_eq!(format_percent_hundredths(750), "7.50%");
    assert_eq!(format_percent_hundredths(5000), "50.00%");
    assert_eq!(format_percent_hundredths(10000), "100.00%");
}

#[test]
fn rendered_stats_have_the_reported_shape() {
    let s = get_stats(&sample(), 3);

    let cpu = format_percent_hundredths(s.cpu_usage_hundredths);
    assert_eq!(cpu, "7.50%");
    // The shape the endpoint promises: digits, a point, two digits, '%'.
    let body = cpu.strip_suffix('%').expect("ends in a percent sign");
    let (int_part, frac_part) = body.split_once('.').expect("holds a decimal point");
    assert!(!int_part.is_empty() && int_part.chars().all(|c| c.is_ascii_digit()));
    assert_eq!(frac_part.len(), 2);
    assert!(frac_part.chars().all(|c| c.is_ascii_digit()));

    let mem = format_mb(s.total_memory);
    assert_eq!(mem, "8192 MB");
    let digits = mem.strip_suffix(" MB").expect("ends in the MB suffix");
    assert!(!digits.is_empty() && digits.chars().all(|c| c.is_ascii_digit()));

    assert!(s.total_cpus > 0);
}
