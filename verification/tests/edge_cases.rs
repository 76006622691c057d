use arch_manager::metrics::{
    battery_value, cpu_usage_value, mem_usage_value, net_traffic_value, orphans_value,
    parse_cpu_stat, processes_value, ram_value, OrphanTool,
};

#[test]
fn carriage_returns_are_stripped_from_lines() {
    let content = "MemTotal: 8000000 kB\r\nMemAvailable: 2000000 kB\r\n";
    assert_eq!(mem_usage_value(content), "75.0% (5859 / 7812 MiB)");
}

#[test]
fn later_lines_override_earlier_ones() {
    let content = "MemTotal: 1 kB\nMemTotal: 8000000 kB\nMemAvailable: 2000000 kB\n";
    assert_eq!(mem_usage_value(content), "75.0% (5859 / 7812 MiB)");
}

#[test]
fn unparsable_meminfo_counts_as_zero() {
    assert_eq!(mem_usage_value("MemTotal: lots kB\nMemAvailable: 2 kB\n"), "unknown");
}

#[test]
fn processes_unparsable_share_sorts_as_zero() {
    let out = "HDR\n1 a x.y 0.1\n2 b 1.0 0.1\n";
    assert_eq!(processes_value(Some(out)), "HDR | 2 b 1.0 0.1 | 1 a x.y 0.1");
}

#[test]
fn processes_fraction_only_ties_and_trailing_dot() {
    let out = "HDR\n1 a 2. 0.1\n2 b 2.0 0.1\n3 c 2.5 0.1\n";
    assert_eq!(processes_value(Some(out)), "HDR | 3 c 2.5 0.1 | 1 a 2. 0.1 | 2 b 2.0 0.1");
}

#[test]
fn cpu_stat_short_line_gives_zeros() {
    assert_eq!(parse_cpu_stat("cpu 1 2 3\n"), (0, 0));
}

#[test]
fn cpu_usage_negative_share_is_signed() {
    assert_eq!(cpu_usage_value(100, 0, 200, 150), "-50.0%");
}

#[test]
fn net_traffic_rounds_half_up() {
    assert_eq!(
        net_traffic_value(Some("eth0"), Some(157_287), Some(0)),
        "rx 0.2 MiB / tx 0.0 MiB"
    );
}

#[test]
fn orphans_large_listing_count() {
    let out = "a\n".repeat(123);
    assert_eq!(orphans_value(Some(OrphanTool::Pacman), &out), "123 (pacman)");
}

#[test]
fn ram_ignores_short_summary_line_and_keeps_scanning() {
    let out = "Mem:\nMem: 10 3\nMem: 10 3 7\n";
    assert_eq!(ram_value(out), "3/10");
}

#[test]
fn counter_files_parse_trimmed() {
    assert_eq!(arch_manager::text::parse_trimmed_u64(" 1048576\n"), Some(1_048_576));
    assert_eq!(arch_manager::text::parse_trimmed_u64("\n"), None);
    assert_eq!(arch_manager::text::parse_trimmed_u64("12x\n"), None);
    assert_eq!(arch_manager::text::parse_trimmed_u64("99999999999999999999999\n"), None);
}

#[test]
fn battery_value_repeated_key_prefix_is_stripped() {
    let info = "percentage:percentage: 50%\n";
    assert_eq!(battery_value(true, Some("dev"), Some(info)), "50%");
}
