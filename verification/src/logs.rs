//! Log inspection: maps each log subcommand to the journalctl call
//! that reports it.
use vstd::prelude::*;
use crate::cli::LogsCmd;
use crate::cmd::Invocation;
use crate::text::dec_str;
use crate::text::u64_to_string;

verus! {

/// The program arguments for `cmd`.
pub open spec fn spec_args(cmd: LogsCmd) -> Seq<Seq<char>> {
    match cmd {
        LogsCmd::Tail { lines } => seq!["-n"@, dec_str(lines as nat)],
        LogsCmd::Service { service } => seq!["-u"@, service@],
        LogsCmd::Boot => seq!["-b"@],
    }
}

/// The journalctl call for `cmd`.
pub fn handle(cmd: LogsCmd) -> (r: Invocation)
    ensures
        r.program@ == "journalctl"@,
        r.args.deep_view() == spec_args(cmd),
{
    let mut inv = Invocation::new("journalctl");
    match cmd {
        LogsCmd::Tail { lines } => {
            inv.arg("-n");
            let n = u64_to_string(lines as u64);
            inv.arg_string(n);
        },
        LogsCmd::Service { service } => {
            inv.arg("-u");
            inv.arg_string(service);
        },
        LogsCmd::Boot => {
            inv.arg("-b");
        },
    }
    proof {
        assert(inv.args.deep_view() =~~= spec_args(cmd));
    }
    inv
}

} // verus!
