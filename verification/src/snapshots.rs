//! Snapshot management: maps each snapshot subcommand to the btrfs
//! call that performs it, naming snapshots under the snapshot
//! directory.
use vstd::prelude::*;
use crate::cli::SnapshotsCmd;
use crate::cmd::Invocation;

verus! {

/// The path of the snapshot called `name`.
pub open spec fn spec_snapshot_path(name: Seq<char>) -> Seq<char> {
    "/.snapshots/"@ + name
}

/// The program arguments for `cmd`.
pub open spec fn spec_args(cmd: SnapshotsCmd) -> Seq<Seq<char>> {
    match cmd {
        SnapshotsCmd::List => seq!["subvolume"@, "list"@, "/"@],
        SnapshotsCmd::Create { name } => seq![
            "subvolume"@,
            "snapshot"@,
            "/"@,
            spec_snapshot_path(name@),
        ],
        SnapshotsCmd::Delete { name } => seq!["subvolume"@, "delete"@, spec_snapshot_path(name@)],
    }
}

/// The btrfs call for `cmd`.
pub fn handle(cmd: SnapshotsCmd) -> (r: Invocation)
    ensures
        r.program@ == "btrfs"@,
        r.args.deep_view() == spec_args(cmd),
{
    let mut inv = Invocation::new("btrfs");
    inv.arg("subvolume");
    match cmd {
        SnapshotsCmd::List => {
            inv.arg("list");
            inv.arg("/");
        },
        SnapshotsCmd::Create { name } => {
            inv.arg("snapshot");
            inv.arg("/");
            let mut path = String::from_str("/.snapshots/");
            path.append(name.as_str());
            inv.arg_string(path);
        },
        SnapshotsCmd::Delete { name } => {
            inv.arg("delete");
            let mut path = String::from_str("/.snapshots/");
            path.append(name.as_str());
            inv.arg_string(path);
        },
    }
    proof {
        assert(inv.args.deep_view() =~~= spec_args(cmd));
    }
    inv
}

} // verus!
