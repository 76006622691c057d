//! Disk inspection: maps each disk subcommand to the listing tool
//! that reports it.
use vstd::prelude::*;
use crate::cli::DisksCmd;
use crate::cmd::Invocation;

verus! {

/// The program for `cmd`.
pub open spec fn spec_program(cmd: DisksCmd) -> Seq<char> {
    match cmd {
        DisksCmd::List => "lsblk"@,
        DisksCmd::Mounts => "findmnt"@,
    }
}

/// The program arguments for `cmd`.
pub open spec fn spec_args(cmd: DisksCmd) -> Seq<Seq<char>> {
    match cmd {
        DisksCmd::List => seq!["-f"@],
        DisksCmd::Mounts => Seq::empty(),
    }
}

/// The listing call for `cmd`.
pub fn handle(cmd: DisksCmd) -> (r: Invocation)
    ensures
        r.program@ == spec_program(cmd),
        r.args.deep_view() == spec_args(cmd),
{
    let mut inv = match cmd {
        DisksCmd::List => Invocation::new("lsblk"),
        DisksCmd::Mounts => Invocation::new("findmnt"),
    };
    match cmd {
        DisksCmd::List => {
            inv.arg("-f");
        },
        DisksCmd::Mounts => {
        },
    }
    proof {
        assert(inv.args.deep_view() =~~= spec_args(cmd));
    }
    inv
}

} // verus!
