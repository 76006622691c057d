//! Service control: maps each service subcommand to the systemctl
//! call that performs it.
use vstd::prelude::*;
use crate::cli::SystemdCmd;
use crate::cmd::Invocation;

verus! {

/// The program arguments for `cmd`.
pub open spec fn spec_args(cmd: SystemdCmd) -> Seq<Seq<char>> {
    match cmd {
        SystemdCmd::Status { service } => seq!["status"@, service@],
        SystemdCmd::Start { service } => seq!["start"@, service@],
        SystemdCmd::Stop { service } => seq!["stop"@, service@],
        SystemdCmd::Restart { service } => seq!["restart"@, service@],
        SystemdCmd::Enable { service } => seq!["enable"@, service@],
        SystemdCmd::Disable { service } => seq!["disable"@, service@],
        SystemdCmd::List => seq!["list-units"@, "--type=service"@],
    }
}

/// The systemctl call for `cmd`.
pub fn handle(cmd: SystemdCmd) -> (r: Invocation)
    ensures
        r.program@ == "systemctl"@,
        r.args.deep_view() == spec_args(cmd),
{
    let mut inv = Invocation::new("systemctl");
    match cmd {
        SystemdCmd::Status { service } => {
            inv.arg("status");
            inv.arg_string(service);
        },
        SystemdCmd::Start { service } => {
            inv.arg("start");
            inv.arg_string(service);
        },
        SystemdCmd::Stop { service } => {
            inv.arg("stop");
            inv.arg_string(service);
        },
        SystemdCmd::Restart { service } => {
            inv.arg("restart");
            inv.arg_string(service);
        },
        SystemdCmd::Enable { service } => {
            inv.arg("enable");
            inv.arg_string(service);
        },
        SystemdCmd::Disable { service } => {
            inv.arg("disable");
            inv.arg_string(service);
        },
        SystemdCmd::List => {
            inv.arg("list-units");
            inv.arg("--type=service");
        },
    }
    proof {
        assert(inv.args.deep_view() =~~= spec_args(cmd));
    }
    inv
}

} // verus!
