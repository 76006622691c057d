use arch_manager::cli::{HealthCmd, NewsCmd, UpdatesCmd};
use arch_manager::cmd::{require_cmd, Invocation};
use arch_manager::error::AppError;
use arch_manager::health::{
    command_result, failed_message, full_value, handle as health_handle, network_report,
    services_value, summary_value, HealthTask,
};
use arch_manager::news::{handle as news_handle, latest_report, NewsItem};
use arch_manager::updates::{check_updates_report, checkupdates_invocation, handle as updates_handle};

#[test]
fn health_dispatch() {
    assert!(matches!(health_handle(&HealthCmd::Summary), HealthTask::Summary));
    assert!(matches!(health_handle(&HealthCmd::Kernel), HealthTask::Kernel));
}

#[test]
fn health_section_invocations() {
    let inv = arch_manager::health::disk();
    assert_eq!(inv.program, "df");
    assert_eq!(inv.args, vec!["-h"]);
    let inv = arch_manager::health::kernel();
    assert_eq!(inv.program, "uname");
    assert_eq!(inv.args, vec!["-a"]);
    let inv = arch_manager::health::services();
    assert_eq!(inv.program, "systemctl");
    assert_eq!(inv.args, vec!["--failed"]);
    let inv = arch_manager::health::cpu();
    assert_eq!(inv.program, "lscpu");
    let inv = arch_manager::health::memory();
    assert_eq!(inv.program, "free");
}

#[test]
fn services_section_rules() {
    assert_eq!(services_value(true, "UNIT LOAD\n"), "No failed services.\n");
    assert_eq!(
        services_value(true, "UNIT LOAD\nbad.service loaded failed\n"),
        "UNIT LOAD\nbad.service loaded failed\n\n"
    );
    assert_eq!(services_value(false, ""), "systemctl --failed returned error.\n");
}

#[test]
fn command_result_passes_or_names_the_call() {
    let mut inv = Invocation::new("df");
    inv.arg("-h");
    match command_result(&inv, true, "out".to_string()) {
        Ok(s) => assert_eq!(s, "out"),
        Err(_) => panic!("expected ok"),
    }
    match command_result(&inv, false, String::new()) {
        Err(AppError::CommandFailed(m)) => assert_eq!(m, "df [\"-h\"]"),
        _ => panic!("expected failure"),
    }
    assert_eq!(failed_message(&Invocation::new("lscpu")), "lscpu []");
}

#[test]
fn failed_message_escapes_quotes_and_backslashes() {
    let mut inv = Invocation::new("echo");
    inv.arg("say \"hi\"");
    inv.arg("back\\slash");
    inv.arg("-n");
    assert_eq!(
        failed_message(&inv),
        format!("{} {:?}", inv.program, inv.args)
    );
}

#[test]
fn network_section_assembly() {
    let report = network_report(
        Some("eth0"),
        Some("inet lines here\n"),
        Some("up\n"),
        Some("# comment\nnameserver 1.1.1.1\nsearch lan\n  nameserver 8.8.8.8\n"),
    );
    assert_eq!(
        report,
        "Interface: eth0\nIP:\ninet lines here\nState: up\nDNS:\nnameserver 1.1.1.1\n  nameserver 8.8.8.8\n"
    );
    assert_eq!(network_report(None, None, None, None), "No active network interface detected.\n");
}

#[test]
fn summary_and_full_assembly() {
    let s = summary_value("k\n", "d\n", "m\n", "s\n", "n\n");
    assert_eq!(s, "k\nd\nm\ns\nn\n");
    let f = full_value("sum\n", "upd\n", "news\n", "net\n");
    assert_eq!(
        f,
        "sum\n\nPackage Updates:\nupd\n\nArch News:\nnews\n\nNetwork Health:\nnet\n"
    );
}

#[test]
fn updates_flag_and_invocation() {
    assert!(!updates_handle(&UpdatesCmd::Check));
    assert!(updates_handle(&UpdatesCmd::List));
    let inv = checkupdates_invocation();
    assert_eq!(inv.program, "checkupdates");
    assert!(inv.args.is_empty());
}

#[test]
fn updates_report_rules() {
    assert_eq!(check_updates_report(false, "", false), "No updates or checkupdates failed.");
    assert_eq!(check_updates_report(true, "", true), "System is up to date.");
    assert_eq!(check_updates_report(true, "a 1 -> 2\nb 3 -> 4\n", false), "Updates available: 2");
    assert_eq!(
        check_updates_report(true, "a 1 -> 2\nb 3 -> 4\n", true),
        "Updates available: 2\na 1 -> 2\nb 3 -> 4"
    );
}

#[test]
fn news_feed_address_and_report() {
    assert_eq!(news_handle(&NewsCmd::Latest), "https://archlinux.org/feeds/news/");
    let items: Vec<NewsItem> = (0..12)
        .map(|i| NewsItem { title: format!("t{i}"), url: format!("u{i}") })
        .collect();
    let report = latest_report(&items);
    assert!(report.starts_with("- t0\n  u0\n- t1\n  u1\n"));
    assert!(report.contains("- t9\n  u9\n"));
    assert!(!report.contains("t10"));
    assert_eq!(report.lines().count(), 20);
    assert_eq!(latest_report(&Vec::new()), "");
}

#[test]
fn error_messages() {
    assert_eq!(
        AppError::CommandFailed("free: spawn".to_string()).message(),
        "Command failed: free: spawn"
    );
    assert_eq!(AppError::MissingDependency("yay".to_string()).message(), "Missing dependency: yay");
    assert_eq!(AppError::Network("HTTP 500".to_string()).message(), "Network error: HTTP 500");
    assert_eq!(AppError::Other("boom".to_string()).message(), "boom");
}

#[test]
fn require_cmd_errors_name_the_tool() {
    match require_cmd("definitely-not-a-real-tool-name") {
        Err(AppError::MissingDependency(m)) => assert_eq!(m, "definitely-not-a-real-tool-name"),
        Err(_) => panic!("unexpected error kind"),
        Ok(()) => panic!("tool should not resolve"),
    }
}
