use arch_manager::metrics::{
    battery_device, battery_health_value, battery_value, cpu_temp_value, cpu_usage_value,
    default_interface, gpu_temp_value, gpu_usage_value, gpu_value, load_value, mem_usage_value,
    net_ip_value, net_status_value, net_traffic_value, orphans_tool, orphans_value,
    parse_cpu_stat, processes_value, ram_value, uptime_value, OrphanTool, PowerSupply,
};

#[test]
fn mem_usage_synthetic_meminfo() {
    let content = "MemTotal: 8000000 kB\nMemAvailable: 2000000 kB\n";
    assert_eq!(mem_usage_value(content), "75.0% (5859 / 7812 MiB)");
}

#[test]
fn mem_usage_missing_total_is_unknown() {
    assert_eq!(mem_usage_value("MemFree: 123 kB\n"), "unknown");
    assert_eq!(mem_usage_value(""), "unknown");
}

#[test]
fn mem_usage_zero_total_is_unknown() {
    assert_eq!(mem_usage_value("MemTotal: 0 kB\nMemAvailable: 0 kB\n"), "unknown");
}

#[test]
fn load_synthetic_loadavg() {
    assert_eq!(load_value(Some("0.50 0.75 1.00 2/300 1234")), "0.50 0.75 1.00");
}

#[test]
fn load_short_content_is_unknown() {
    assert_eq!(load_value(Some("0.50 0.75")), "unknown");
    assert_eq!(load_value(None), "unknown");
}

#[test]
fn cpu_usage_zero_total_delta_is_unknown() {
    assert_eq!(cpu_usage_value(100, 50, 100, 60), "unknown");
    assert_eq!(cpu_usage_value(200, 50, 100, 60), "unknown");
}

#[test]
fn cpu_usage_seventy_percent() {
    assert_eq!(cpu_usage_value(100, 50, 200, 80), "70.0%");
}

#[test]
fn cpu_usage_rounds_to_one_decimal() {
    assert_eq!(cpu_usage_value(0, 0, 3, 1), "66.7%");
}

#[test]
fn cpu_stat_aggregate_line() {
    let stat = "cpu  100 200 300 400 500\ncpu0 1 2 3 4 5\n";
    assert_eq!(parse_cpu_stat(stat), (1500, 400));
}

#[test]
fn cpu_stat_missing_line_gives_zeros() {
    assert_eq!(parse_cpu_stat("intr 5\n"), (0, 0));
}

#[test]
fn net_traffic_one_and_two_mebibytes() {
    assert_eq!(
        net_traffic_value(Some("eth0"), Some(1_048_576), Some(2_097_152)),
        "rx 1.0 MiB / tx 2.0 MiB"
    );
}

#[test]
fn net_traffic_unreadable_counters_count_as_zero() {
    assert_eq!(net_traffic_value(Some("eth0"), None, None), "rx 0.0 MiB / tx 0.0 MiB");
}

#[test]
fn net_metrics_without_interface_are_unknown() {
    let routes = "Iface\tDestination\tGateway\n";
    let devices = vec!["lo".to_string()];
    assert!(default_interface(Some(routes), &devices).is_none());
    assert_eq!(net_status_value(None, None), "unknown");
    assert_eq!(net_ip_value(None, None), "unknown");
    assert_eq!(net_traffic_value(None, Some(5), Some(5)), "unknown");
}

#[test]
fn default_interface_from_route_table() {
    let routes = "Iface\tDestination\tGateway\neth0\t00000000\t0102A8C0\nwlan0\t0000A8C0\t00000000\n";
    let devices = vec!["lo".to_string(), "wlan0".to_string()];
    assert_eq!(default_interface(Some(routes), &devices).unwrap(), "eth0");
}

#[test]
fn default_interface_falls_back_to_first_non_loopback() {
    let devices = vec!["lo".to_string(), "enp3s0".to_string(), "wlan0".to_string()];
    assert_eq!(default_interface(None, &devices).unwrap(), "enp3s0");
}

#[test]
fn net_status_formats_interface_and_state() {
    assert_eq!(net_status_value(Some("eth0"), Some("up\n")), "eth0 (up)");
    assert_eq!(net_status_value(Some("eth0"), None), "eth0 (unknown)");
}

#[test]
fn net_ip_second_token_of_inet_line() {
    let out = "2: eth0: <BROADCAST>\n    inet 192.168.1.10/24 brd 192.168.1.255 scope global\n";
    assert_eq!(net_ip_value(Some("eth0"), Some(out)), "192.168.1.10/24");
}

#[test]
fn net_ip_without_tool_or_line_is_unknown() {
    assert_eq!(net_ip_value(Some("eth0"), None), "unknown");
    assert_eq!(net_ip_value(Some("eth0"), Some("2: eth0: <BROADCAST>\n")), "unknown");
}

#[test]
fn orphans_priority_order() {
    assert!(matches!(orphans_tool(true, true, true, true), Some(OrphanTool::Pacman)));
    assert!(matches!(orphans_tool(false, true, true, true), Some(OrphanTool::Deborphan)));
    assert!(matches!(orphans_tool(false, false, true, true), Some(OrphanTool::Dnf)));
    assert!(matches!(orphans_tool(false, false, false, true), Some(OrphanTool::Zypper)));
    assert!(orphans_tool(false, false, false, false).is_none());
}

#[test]
fn orphans_counts_nonblank_lines_and_tags_tool() {
    assert_eq!(orphans_value(Some(OrphanTool::Pacman), "liba\nlibb\n\n  \n"), "2 (pacman)");
    assert_eq!(orphans_value(Some(OrphanTool::Deborphan), ""), "0 (deborphan)");
    assert_eq!(orphans_value(Some(OrphanTool::Dnf), "p1\np2\np3\n"), "3 (dnf)");
}

#[test]
fn orphans_zypper_counts_installed_rows() {
    let out = "S | Repository | Name\n--+---\ni | repo | foo\n  | repo | bar\ni | repo | baz\n";
    assert_eq!(orphans_value(Some(OrphanTool::Zypper), out), "2 (zypper)");
}

#[test]
fn orphans_without_any_tool_is_unsupported() {
    assert_eq!(orphans_value(None, "whatever\n"), "unsupported");
}

#[test]
fn processes_resorts_by_descending_cpu_share() {
    let out = "PID COMMAND %CPU %MEM\n\
               10 foo 3.5 1.0\n\
               11 bar 10.0 0.5\n\
               12 baz 0.5 2.0\n\
               13 qux 10.0 1.5\n\
               14 aaa 7.25 0.1\n\
               15 bbb 0.0 0.0\n\
               16 ccc 2 0.3\n\
               17 ddd 10.00 0.2\n\
               99 zzz 99.9 9.9\n";
    let expected = "PID COMMAND %CPU %MEM | 11 bar 10.0 0.5 | 13 qux 10.0 1.5 | 17 ddd 10.00 0.2 \
                    | 14 aaa 7.25 0.1 | 10 foo 3.5 1.0 | 16 ccc 2 0.3 | 12 baz 0.5 2.0 \
                    | 15 bbb 0.0 0.0";
    assert_eq!(processes_value(Some(out)), expected);
}

#[test]
fn processes_keeps_header_unmodified() {
    let out = "  PID COMMAND  %CPU %MEM\n1 a 1.0 0.1\n";
    let got = processes_value(Some(out));
    assert!(got.starts_with("  PID COMMAND  %CPU %MEM | "));
}

#[test]
fn processes_without_tool_is_sentinel() {
    assert_eq!(processes_value(None), "ps not installed");
}

#[test]
fn processes_empty_listing_gives_default_header() {
    assert_eq!(processes_value(Some("")), "PID COMMAND %CPU %MEM");
}

#[test]
fn ram_used_over_total() {
    let out = "              total        used\nMem:           7.7Gi       3.1Gi\nSwap:          2.0Gi       0B\n";
    assert_eq!(ram_value(out), "3.1Gi/7.7Gi");
}

#[test]
fn ram_without_summary_line_is_unknown() {
    assert_eq!(ram_value("Swap: 1 2 3\n"), "unknown");
}

#[test]
fn uptime_trims_and_falls_back() {
    assert_eq!(uptime_value("up 3 hours, 42 minutes\n"), "up 3 hours, 42 minutes");
    assert_eq!(uptime_value("   \n"), "unknown");
}

#[test]
fn cpu_temp_prefers_matching_sensors_line() {
    let sensors = "coretemp-isa-0000\nPackage id 0:  +45.0\u{b0}C  (high = +80.0\u{b0}C)\nCore 0: +42.0\u{b0}C\n";
    let thermal: Vec<String> = Vec::new();
    assert_eq!(
        cpu_temp_value(Some(sensors), &thermal),
        "Package id 0:  +45.0\u{b0}C  (high = +80.0\u{b0}C)"
    );
}

#[test]
fn cpu_temp_falls_back_to_thermal_files() {
    let thermal = vec!["0\n".to_string(), "45000\n".to_string()];
    assert_eq!(cpu_temp_value(None, &thermal), "45.0\u{b0}C");
    assert_eq!(cpu_temp_value(Some("no match here\n"), &thermal), "45.0\u{b0}C");
}

#[test]
fn cpu_temp_without_any_source_is_unknown() {
    let thermal: Vec<String> = Vec::new();
    assert_eq!(cpu_temp_value(None, &thermal), "unknown");
}

#[test]
fn gpu_value_priority_chain() {
    assert_eq!(gpu_value(Some("GeForce RTX\n"), None, None), "GeForce RTX");
    let rocm = "header\nGPU use: 12%\n";
    assert_eq!(gpu_value(Some("  \n"), Some(rocm), None), "GPU use: 12%");
    assert_eq!(gpu_value(None, Some("no match\n"), Some("37\n")), "37%");
    assert_eq!(gpu_value(None, None, None), "unavailable");
}

#[test]
fn gpu_usage_same_chain_as_identity() {
    assert_eq!(gpu_usage_value(Some("55 %\n"), None, None), "55 %");
    assert_eq!(gpu_usage_value(None, None, Some(" 8 \n")), "8%");
}

#[test]
fn gpu_temp_chain() {
    assert_eq!(gpu_temp_value(Some("62\n"), None, &Vec::new()), "62\u{b0}C");
    let rocm = "Temperature (Sensor edge): 58.0c\n";
    assert_eq!(
        gpu_temp_value(None, Some(rocm), &Vec::new()),
        "Temperature (Sensor edge): 58.0c"
    );
    let hwmon = vec!["61000\n".to_string()];
    assert_eq!(gpu_temp_value(None, None, &hwmon), "61.0\u{b0}C");
    assert_eq!(gpu_temp_value(None, None, &Vec::new()), "unavailable");
}

#[test]
fn battery_device_first_battery_line() {
    let listing = "/org/freedesktop/UPower/devices/line_power_AC\n/org/freedesktop/UPower/devices/battery_BAT0\n";
    assert_eq!(
        battery_device(listing).unwrap(),
        "/org/freedesktop/UPower/devices/battery_BAT0"
    );
    assert!(battery_device("/org/freedesktop/UPower/devices/line_power_AC\n").is_none());
}

#[test]
fn battery_value_joins_fields() {
    let info = "  battery\n  percentage:          93%\n  capacity:            87.2%\n";
    assert_eq!(battery_value(true, Some("dev"), Some(info)), "93% 87.2%");
}

#[test]
fn battery_value_single_field() {
    let info = "  percentage: 93%\n";
    assert_eq!(battery_value(true, Some("dev"), Some(info)), "93%");
    let info2 = "  capacity: 87%\n";
    assert_eq!(battery_value(true, Some("dev"), Some(info2)), "87%");
}

#[test]
fn battery_value_sentinels() {
    assert_eq!(battery_value(false, None, None), "upower not installed");
    assert_eq!(battery_value(true, None, None), "no battery");
    assert_eq!(battery_value(true, Some("dev"), Some("state: ok\n")), "unknown");
}

#[test]
fn battery_health_full_over_design() {
    let entries = vec![PowerSupply {
        name: "BAT0".to_string(),
        energy_full: Some("40000\n".to_string()),
        charge_full: None,
        energy_full_design: Some("50000\n".to_string()),
        charge_full_design: None,
        capacity: None,
    }];
    assert_eq!(battery_health_value(&entries, None), "80.0%");
}

#[test]
fn battery_health_charge_keys_and_capacity_fallback() {
    let entries = vec![PowerSupply {
        name: "BAT1".to_string(),
        energy_full: Some("0\n".to_string()),
        charge_full: Some("3000\n".to_string()),
        energy_full_design: None,
        charge_full_design: Some("4000\n".to_string()),
        capacity: None,
    }];
    assert_eq!(battery_health_value(&entries, None), "75.0%");
    let entries2 = vec![PowerSupply {
        name: "BAT0".to_string(),
        energy_full: None,
        charge_full: None,
        energy_full_design: None,
        charge_full_design: None,
        capacity: Some(" 91 \n".to_string()),
    }];
    assert_eq!(battery_health_value(&entries2, None), "91%");
}

#[test]
fn battery_health_skips_non_battery_and_uses_upower_fallback() {
    let entries = vec![PowerSupply {
        name: "AC".to_string(),
        energy_full: Some("40000\n".to_string()),
        charge_full: None,
        energy_full_design: Some("50000\n".to_string()),
        charge_full_design: None,
        capacity: None,
    }];
    let info = "  capacity:   88%\n";
    assert_eq!(battery_health_value(&entries, Some(info)), "88%");
    assert_eq!(battery_health_value(&entries, None), "unknown");
}

#[test]
fn repeated_queries_return_the_same_string() {
    assert_eq!(mem_usage_value(""), mem_usage_value(""));
    assert_eq!(load_value(None), load_value(None));
    assert_eq!(cpu_usage_value(1, 1, 1, 1), cpu_usage_value(1, 1, 1, 1));
    assert_eq!(gpu_value(None, None, None), gpu_value(None, None, None));
    assert_eq!(gpu_temp_value(None, None, &Vec::new()), gpu_temp_value(None, None, &Vec::new()));
    assert_eq!(gpu_usage_value(None, None, None), gpu_usage_value(None, None, None));
    assert_eq!(battery_value(false, None, None), battery_value(false, None, None));
    assert_eq!(battery_health_value(&Vec::new(), None), battery_health_value(&Vec::new(), None));
    assert_eq!(net_status_value(None, None), net_status_value(None, None));
    assert_eq!(net_ip_value(None, None), net_ip_value(None, None));
    assert_eq!(net_traffic_value(None, None, None), net_traffic_value(None, None, None));
    assert_eq!(orphans_value(None, ""), orphans_value(None, ""));
    assert_eq!(processes_value(None), processes_value(None));
    assert_eq!(uptime_value(""), uptime_value(""));
    assert_eq!(ram_value(""), ram_value(""));
    let thermal: Vec<String> = Vec::new();
    assert_eq!(cpu_temp_value(None, &thermal), cpu_temp_value(None, &thermal));
}
