use arch_manager::cli::{
    AurCmd, DisksCmd, HardwareCmd, LogsCmd, MetricsCmd, NetworkCmd, PacmanCmd, SnapshotsCmd,
    SystemdCmd, UsersCmd,
};
use arch_manager::error::AppError;
use arch_manager::metrics::{
    all_value, battery, cpu_temp, gpu, handle as metrics_handle, ip_addr_show, load, metric_label,
    metric_order, nvidia_query, orphans_invocation, ps_listing, ram, rocm_showtemp, rocm_showuse,
    upower_info, upower_list, uptime, Metric, MetricAction, MetricTask, OrphanTool,
};
use arch_manager::network::{plan, NetPlan};

#[test]
fn pacman_plans() {
    let inv = arch_manager::pacman::handle(PacmanCmd::Update);
    assert_eq!(inv.program, "pacman");
    assert_eq!(inv.args, vec!["-Sy"]);
    let inv = arch_manager::pacman::handle(PacmanCmd::Install {
        pkgs: vec!["vim".to_string(), "git".to_string()],
    });
    assert_eq!(inv.args, vec!["-S", "vim", "git"]);
    let inv = arch_manager::pacman::handle(PacmanCmd::Remove { pkgs: vec!["vim".to_string()] });
    assert_eq!(inv.args, vec!["-Rns", "vim"]);
    let inv = arch_manager::pacman::handle(PacmanCmd::Search { query: "editor".to_string() });
    assert_eq!(inv.args, vec!["-Ss", "editor"]);
    let inv = arch_manager::pacman::handle(PacmanCmd::Info { pkg: "vim".to_string() });
    assert_eq!(inv.args, vec!["-Si", "vim"]);
    let inv = arch_manager::pacman::handle(PacmanCmd::Clean);
    assert_eq!(inv.args, vec!["-Sc"]);
    let inv = arch_manager::pacman::handle(PacmanCmd::Upgrade);
    assert_eq!(inv.args, vec!["-Syu"]);
}

#[test]
fn aur_blank_package_is_refused() {
    match arch_manager::aur::handle(AurCmd::Install { pkg: "   ".to_string() }) {
        Err(AppError::Other(m)) => assert_eq!(m, "Package name cannot be empty"),
        Err(AppError::MissingDependency(m)) => assert_eq!(m, "yay"),
        other => panic!("unexpected: {:?}", other.is_ok()),
    }
}

#[test]
fn systemd_plans() {
    let inv = arch_manager::systemd::handle(SystemdCmd::Restart { service: "sshd".to_string() });
    assert_eq!(inv.program, "systemctl");
    assert_eq!(inv.args, vec!["restart", "sshd"]);
    let inv = arch_manager::systemd::handle(SystemdCmd::List);
    assert_eq!(inv.args, vec!["list-units", "--type=service"]);
}

#[test]
fn users_plans() {
    let inv = arch_manager::users::handle(UsersCmd::Add { user: "sam".to_string() });
    assert_eq!(inv.program, "useradd");
    assert_eq!(inv.args, vec!["-m", "sam"]);
    let inv = arch_manager::users::handle(UsersCmd::List);
    assert_eq!(inv.program, "cut");
    assert_eq!(inv.args, vec!["-d:", "-f1", "/etc/passwd"]);
}

#[test]
fn logs_plans_render_line_count() {
    let inv = arch_manager::logs::handle(LogsCmd::Tail { lines: 250 });
    assert_eq!(inv.program, "journalctl");
    assert_eq!(inv.args, vec!["-n", "250"]);
    let inv = arch_manager::logs::handle(LogsCmd::Boot);
    assert_eq!(inv.args, vec!["-b"]);
}

#[test]
fn hardware_and_disks_plans() {
    let inv = arch_manager::hardware::handle(HardwareCmd::Gpu);
    assert_eq!(inv.program, "lspci");
    assert_eq!(inv.args, vec!["-k"]);
    let inv = arch_manager::disks::handle(DisksCmd::Mounts);
    assert_eq!(inv.program, "findmnt");
    assert!(inv.args.is_empty());
}

#[test]
fn snapshots_plans_build_paths() {
    let inv = arch_manager::snapshots::handle(SnapshotsCmd::Create { name: "pre".to_string() });
    assert_eq!(inv.program, "btrfs");
    assert_eq!(inv.args, vec!["subvolume", "snapshot", "/", "/.snapshots/pre"]);
    let inv = arch_manager::snapshots::handle(SnapshotsCmd::Delete { name: "pre".to_string() });
    assert_eq!(inv.args, vec!["subvolume", "delete", "/.snapshots/pre"]);
}

#[test]
fn network_plans_follow_tool_presence() {
    match plan(&NetworkCmd::List, true, true, true) {
        NetPlan::Output(inv) => {
            assert_eq!(inv.program, "nmcli");
            assert_eq!(inv.args, vec!["device", "status"]);
        }
        _ => panic!("expected output plan"),
    }
    match plan(&NetworkCmd::List, false, false, false) {
        NetPlan::Output(inv) => {
            assert_eq!(inv.program, "ip");
            assert_eq!(inv.args, vec!["link", "show"]);
        }
        _ => panic!("expected output plan"),
    }
    match plan(&NetworkCmd::Up { iface: "eth0".to_string() }, false, true, false) {
        NetPlan::RunThen(inv, msg) => {
            assert_eq!(inv.args, vec!["link", "set", "eth0", "up"]);
            assert_eq!(msg, "Brought eth0 up.\n");
        }
        _ => panic!("expected run plan"),
    }
    match plan(&NetworkCmd::Down { iface: "eth0".to_string() }, false, false, false) {
        NetPlan::Message(m) => assert_eq!(m, "No supported network manager found.\n"),
        _ => panic!("expected message plan"),
    }
    match plan(&NetworkCmd::WifiScan, false, false, true) {
        NetPlan::Output(inv) => {
            assert_eq!(inv.program, "iw");
            assert_eq!(inv.args, vec!["dev", "wlan0", "scan"]);
        }
        _ => panic!("expected output plan"),
    }
    match plan(&NetworkCmd::WifiScan, false, true, false) {
        NetPlan::Message(m) => assert_eq!(m, "Wi-Fi scan not supported (nmcli/iw missing).\n"),
        _ => panic!("expected message plan"),
    }
}

#[test]
fn metrics_dispatch() {
    assert!(matches!(metrics_handle(&MetricsCmd::All), MetricTask::All));
    assert!(matches!(metrics_handle(&MetricsCmd::Ram), MetricTask::StreamRam));
    assert!(matches!(metrics_handle(&MetricsCmd::CpuUsage), MetricTask::Value(Metric::CpuUsage)));
    assert!(matches!(metrics_handle(&MetricsCmd::Uptime), MetricTask::StreamUptime));
    assert!(matches!(
        metrics_handle(&MetricsCmd::NetTraffic),
        MetricTask::Value(Metric::NetTraffic)
    ));
}

#[test]
fn metric_stream_planners() {
    let inv = ram();
    assert_eq!(inv.program, "free");
    assert_eq!(inv.args, vec!["-h"]);
    let inv = load();
    assert_eq!(inv.program, "uptime");
    assert!(inv.args.is_empty());
    let inv = uptime();
    assert_eq!(inv.args, vec!["-p"]);
    match cpu_temp(false) {
        MetricAction::Text(t) => assert_eq!(t, "sensors not installed"),
        _ => panic!("expected text"),
    }
    match cpu_temp(true) {
        MetricAction::Run(inv) => assert_eq!(inv.program, "sensors"),
        _ => panic!("expected run"),
    }
    match gpu(true, false) {
        MetricAction::Run(inv) => {
            assert_eq!(inv.program, "nvidia-smi");
            assert_eq!(
                inv.args,
                vec!["--query-gpu=utilization.gpu,temperature.gpu", "--format=csv,noheader"]
            );
        }
        _ => panic!("expected run"),
    }
    match gpu(false, true) {
        MetricAction::Run(inv) => assert_eq!(inv.args, vec!["--showuse"]),
        _ => panic!("expected run"),
    }
    match gpu(false, false) {
        MetricAction::Text(t) => assert_eq!(t, "No supported GPU monitor found."),
        _ => panic!("expected text"),
    }
    match battery(false, None) {
        MetricAction::Text(t) => assert_eq!(t, "upower not installed"),
        _ => panic!("expected text"),
    }
    match battery(true, Some("a\n/dev/battery_BAT0\n")) {
        MetricAction::Run(inv) => {
            assert_eq!(inv.program, "upower");
            assert_eq!(inv.args, vec!["-i", "/dev/battery_BAT0"]);
        }
        _ => panic!("expected run"),
    }
    match battery(true, Some("nothing here\n")) {
        MetricAction::Text(t) => assert_eq!(t, "No battery detected."),
        _ => panic!("expected text"),
    }
}

#[test]
fn metric_probe_invocations() {
    let inv = upower_list();
    assert_eq!(inv.args, vec!["-e"]);
    let inv = upower_info("/dev/bat");
    assert_eq!(inv.args, vec!["-i", "/dev/bat"]);
    let inv = nvidia_query("name");
    assert_eq!(inv.args, vec!["--query-gpu=name", "--format=csv,noheader"]);
    let inv = rocm_showuse();
    assert_eq!(inv.args, vec!["--showuse"]);
    let inv = rocm_showtemp();
    assert_eq!(inv.args, vec!["--showtemp"]);
    let inv = ip_addr_show("eth0");
    assert_eq!(inv.args, vec!["-4", "addr", "show", "dev", "eth0"]);
    let inv = ps_listing();
    assert_eq!(inv.args, vec!["-eo", "pid,comm,%cpu,%mem", "--sort=-%cpu"]);
    let inv = orphans_invocation(OrphanTool::Pacman);
    assert_eq!(inv.args, vec!["-Qtdq"]);
    let inv = orphans_invocation(OrphanTool::Zypper);
    assert_eq!(inv.args, vec!["packages", "--orphaned"]);
    let inv = orphans_invocation(OrphanTool::Dnf);
    assert_eq!(inv.args, vec!["repoquery", "--unneeded"]);
    let inv = orphans_invocation(OrphanTool::Deborphan);
    assert!(inv.args.is_empty());
}

#[test]
fn all_listing_uses_fixed_order_and_labels() {
    let order = metric_order();
    assert_eq!(order.len(), 16);
    assert!(matches!(order[0], Metric::Ram));
    assert!(matches!(order[15], Metric::Uptime));
    assert_eq!(metric_label(&Metric::BatteryHealth), "BATTERY_HEALTH");
    let values: Vec<String> = (0..16).map(|i| format!("v{i}")).collect();
    let out = all_value(&values);
    assert!(out.starts_with("RAM: v0\nCPU_TEMP: v1\nCPU_USAGE: v2\nGPU: v3\n"));
    assert!(out.ends_with("PROCESSES: v14\nUPTIME: v15\n"));
    assert_eq!(out.lines().count(), 16);
}
