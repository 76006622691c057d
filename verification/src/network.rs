//! Network control: picks the managing tool that is installed and
//! plans the call for each subcommand, with a message when no tool
//! can serve it.
use vstd::prelude::*;
use crate::cli::NetworkCmd;
use crate::cmd::{tool_on_path, Invocation};

verus! {

/// What a network subcommand resolves to: a program whose output is
/// shown, a program run for its effect followed by a confirmation
/// text, or a text alone.
pub enum NetPlan {
    Output(Invocation),
    RunThen(Invocation, String),
    Message(String),
}

/// Whether the plan shows the output of `prog` with `args`.
pub open spec fn is_output(r: NetPlan, prog: Seq<char>, args: Seq<Seq<char>>) -> bool {
    match r {
        NetPlan::Output(inv) => inv.program@ == prog && inv.args.deep_view() == args,
        _ => false,
    }
}

/// Whether the plan runs `prog` with `args` and then shows `t`.
pub open spec fn is_run_then(r: NetPlan, prog: Seq<char>, args: Seq<Seq<char>>, t: Seq<char>) -> bool {
    match r {
        NetPlan::RunThen(inv, s) => inv.program@ == prog && inv.args.deep_view() == args && s@ == t,
        _ => false,
    }
}

/// Whether the plan shows the text `t` alone.
pub open spec fn is_message(r: NetPlan, t: Seq<char>) -> bool {
    match r {
        NetPlan::Message(s) => s@ == t,
        _ => false,
    }
}

/// What the plan for `cmd` must be, given which tools are present:
/// the manager first, the address tool as fallback for link changes,
/// the scanner as fallback for scans.
pub open spec fn plan_ok(r: NetPlan, cmd: NetworkCmd, nmcli: bool, ip: bool, iw: bool) -> bool {
    match cmd {
        NetworkCmd::List => if nmcli {
            is_output(r, "nmcli"@, seq!["device"@, "status"@])
        } else {
            is_output(r, "ip"@, seq!["link"@, "show"@])
        },
        NetworkCmd::Up { iface } => if nmcli {
            is_output(r, "nmcli"@, seq!["device"@, "connect"@, iface@])
        } else if ip {
            is_run_then(
                r,
                "ip"@,
                seq!["link"@, "set"@, iface@, "up"@],
                "Brought "@ + iface@ + " up.\n"@,
            )
        } else {
            is_message(r, "No supported network manager found.\n"@)
        },
        NetworkCmd::Down { iface } => if nmcli {
            is_output(r, "nmcli"@, seq!["device"@, "disconnect"@, iface@])
        } else if ip {
            is_run_then(
                r,
                "ip"@,
                seq!["link"@, "set"@, iface@, "down"@],
                "Brought "@ + iface@ + " down.\n"@,
            )
        } else {
            is_message(r, "No supported network manager found.\n"@)
        },
        NetworkCmd::WifiScan => if nmcli {
            is_output(r, "nmcli"@, seq!["device"@, "wifi"@, "list"@])
        } else if iw {
            is_output(r, "iw"@, seq!["dev"@, "wlan0"@, "scan"@])
        } else {
            is_message(r, "Wi-Fi scan not supported (nmcli/iw missing).\n"@)
        },
    }
}

/// Plans the call for `cmd` from which tools are present.
pub fn plan(cmd: &NetworkCmd, nmcli: bool, ip: bool, iw: bool) -> (r: NetPlan)
    ensures
        plan_ok(r, *cmd, nmcli, ip, iw),
{
    match cmd {
        NetworkCmd::List => {
            if nmcli {
                let mut inv = Invocation::new("nmcli");
                inv.arg("device");
                inv.arg("status");
                proof {
                    assert(inv.args.deep_view() =~~= seq!["device"@, "status"@]);
                }
                NetPlan::Output(inv)
            } else {
                let mut inv = Invocation::new("ip");
                inv.arg("link");
                inv.arg("show");
                proof {
                    assert(inv.args.deep_view() =~~= seq!["link"@, "show"@]);
                }
                NetPlan::Output(inv)
            }
        },
        NetworkCmd::Up { iface } => {
            if nmcli {
                let mut inv = Invocation::new("nmcli");
                inv.arg("device");
                inv.arg("connect");
                inv.arg(iface.as_str());
                proof {
                    assert(inv.args.deep_view() =~~= seq!["device"@, "connect"@, iface@]);
                }
                NetPlan::Output(inv)
            } else if ip {
                let mut inv = Invocation::new("ip");
                inv.arg("link");
                inv.arg("set");
                inv.arg(iface.as_str());
                inv.arg("up");
                proof {
                    assert(inv.args.deep_view() =~~= seq!["link"@, "set"@, iface@, "up"@]);
                }
                let mut msg = String::from_str("Brought ");
                msg.append(iface.as_str());
                msg.append(" up.\n");
                NetPlan::RunThen(inv, msg)
            } else {
                NetPlan::Message(String::from_str("No supported network manager found.\n"))
            }
        },
        NetworkCmd::Down { iface } => {
            if nmcli {
                let mut inv = Invocation::new("nmcli");
                inv.arg("device");
                inv.arg("disconnect");
                inv.arg(iface.as_str());
                proof {
                    assert(inv.args.deep_view() =~~= seq!["device"@, "disconnect"@, iface@]);
                }
                NetPlan::Output(inv)
            } else if ip {
                let mut inv = Invocation::new("ip");
                inv.arg("link");
                inv.arg("set");
                inv.arg(iface.as_str());
                inv.arg("down");
                proof {
                    assert(inv.args.deep_view() =~~= seq!["link"@, "set"@, iface@, "down"@]);
                }
                let mut msg = String::from_str("Brought ");
                msg.append(iface.as_str());
                msg.append(" down.\n");
                NetPlan::RunThen(inv, msg)
            } else {
                NetPlan::Message(String::from_str("No supported network manager found.\n"))
            }
        },
        NetworkCmd::WifiScan => {
            if nmcli {
                let mut inv = Invocation::new("nmcli");
                inv.arg("device");
                inv.arg("wifi");
                inv.arg("list");
                proof {
                    assert(inv.args.deep_view() =~~= seq!["device"@, "wifi"@, "list"@]);
                }
                NetPlan::Output(inv)
            } else if iw {
                let mut inv = Invocation::new("iw");
                inv.arg("dev");
                inv.arg("wlan0");
                inv.arg("scan");
                proof {
                    assert(inv.args.deep_view() =~~= seq!["dev"@, "wlan0"@, "scan"@]);
                }
                NetPlan::Output(inv)
            } else {
                NetPlan::Message(String::from_str("Wi-Fi scan not supported (nmcli/iw missing).\n"))
            }
        },
    }
}

/// Plans the call for `cmd`, checking the search path for each tool.
/// Which tools are installed depends on the machine, so the plan is
/// only tied to some such answer.
pub fn handle(cmd: NetworkCmd) -> (r: NetPlan)
    ensures
        exists|nmcli: bool, ip: bool, iw: bool| plan_ok(r, cmd, nmcli, ip, iw),
{
    let nmcli = tool_on_path("nmcli");
    let ip = tool_on_path("ip");
    let iw = tool_on_path("iw");
    let r = plan(&cmd, nmcli, ip, iw);
    proof {
        assert(plan_ok(r, cmd, nmcli, ip, iw));
    }
    r
}

} // verus!
