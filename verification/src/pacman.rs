//! Package management: maps each package subcommand to the pacman
//! call that performs it.
use vstd::prelude::*;
use crate::cli::PacmanCmd;
use crate::cmd::Invocation;

verus! {

/// The program arguments for `cmd`.
pub open spec fn spec_args(cmd: PacmanCmd) -> Seq<Seq<char>> {
    match cmd {
        PacmanCmd::Update => seq!["-Sy"@],
        PacmanCmd::Upgrade => seq!["-Syu"@],
        PacmanCmd::Install { pkgs } => seq!["-S"@] + pkgs.deep_view(),
        PacmanCmd::Remove { pkgs } => seq!["-Rns"@] + pkgs.deep_view(),
        PacmanCmd::Search { query } => seq!["-Ss"@, query@],
        PacmanCmd::Info { pkg } => seq!["-Si"@, pkg@],
        PacmanCmd::Clean => seq!["-Sc"@],
    }
}

/// The pacman call for `cmd`.
pub fn handle(cmd: PacmanCmd) -> (r: Invocation)
    ensures
        r.program@ == "pacman"@,
        r.args.deep_view() == spec_args(cmd),
{
    let mut inv = Invocation::new("pacman");
    match cmd {
        PacmanCmd::Update => {
            inv.arg("-Sy");
            proof {
                assert(inv.args.deep_view() =~~= spec_args(cmd));
            }
        },
        PacmanCmd::Upgrade => {
            inv.arg("-Syu");
            proof {
                assert(inv.args.deep_view() =~~= spec_args(cmd));
            }
        },
        PacmanCmd::Install { pkgs } => {
            inv.arg("-S");
            push_all(&mut inv, &pkgs);
            proof {
                assert(inv.args.deep_view() =~~= seq!["-S"@] + pkgs.deep_view());
            }
        },
        PacmanCmd::Remove { pkgs } => {
            inv.arg("-Rns");
            push_all(&mut inv, &pkgs);
            proof {
                assert(inv.args.deep_view() =~~= seq!["-Rns"@] + pkgs.deep_view());
            }
        },
        PacmanCmd::Search { query } => {
            inv.arg("-Ss");
            inv.arg_string(query);
            proof {
                assert(inv.args.deep_view() =~~= spec_args(cmd));
            }
        },
        PacmanCmd::Info { pkg } => {
            inv.arg("-Si");
            inv.arg_string(pkg);
            proof {
                assert(inv.args.deep_view() =~~= spec_args(cmd));
            }
        },
        PacmanCmd::Clean => {
            inv.arg("-Sc");
            proof {
                assert(inv.args.deep_view() =~~= spec_args(cmd));
            }
        },
    }
    inv
}

/// Appends every name in `pkgs` to the argument list.
fn push_all(inv: &mut Invocation, pkgs: &Vec<String>)
    ensures
        final(inv).program == old(inv).program,
        final(inv).args.deep_view() == old(inv).args.deep_view() + pkgs.deep_view(),
{
    let mut i: usize = 0;
    proof {
        assert(inv.args.deep_view() =~~= old(inv).args.deep_view() + pkgs.deep_view().take(0));
    }
    while i < pkgs.len()
        invariant
            0 <= i <= pkgs.len(),
            inv.program == old(inv).program,
            inv.args.deep_view() == old(inv).args.deep_view() + pkgs.deep_view().take(i as int),
        decreases pkgs.len() - i,
    {
        let p = pkgs[i].clone();
        inv.arg_string(p);
        proof {
            assert(pkgs.deep_view().take(i as int).push(pkgs.deep_view()[i as int]) =~~= pkgs
                .deep_view()
                .take(i as int + 1));
            assert((old(inv).args.deep_view() + pkgs.deep_view().take(i as int)).push(
                pkgs.deep_view()[i as int],
            ) =~~= old(inv).args.deep_view() + pkgs.deep_view().take(i as int + 1));
        }
        i = i + 1;
    }
    proof {
        assert(pkgs.deep_view().take(pkgs.len() as int) =~~= pkgs.deep_view());
    }
}

} // verus!
