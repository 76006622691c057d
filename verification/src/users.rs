//! User management: maps each user subcommand to the system call
//! that performs it.
use vstd::prelude::*;
use crate::cli::UsersCmd;
use crate::cmd::Invocation;

verus! {

/// The program for `cmd`.
pub open spec fn spec_program(cmd: UsersCmd) -> Seq<char> {
    match cmd {
        UsersCmd::Add { user } => "useradd"@,
        UsersCmd::Del { user } => "userdel"@,
        UsersCmd::Passwd { user } => "passwd"@,
        UsersCmd::List => "cut"@,
    }
}

/// The program arguments for `cmd`.
pub open spec fn spec_args(cmd: UsersCmd) -> Seq<Seq<char>> {
    match cmd {
        UsersCmd::Add { user } => seq!["-m"@, user@],
        UsersCmd::Del { user } => seq!["-r"@, user@],
        UsersCmd::Passwd { user } => seq![user@],
        UsersCmd::List => seq!["-d:"@, "-f1"@, "/etc/passwd"@],
    }
}

/// The system call for `cmd`.
pub fn handle(cmd: UsersCmd) -> (r: Invocation)
    ensures
        r.program@ == spec_program(cmd),
        r.args.deep_view() == spec_args(cmd),
{
    let mut inv = match &cmd {
        UsersCmd::Add { user } => Invocation::new("useradd"),
        UsersCmd::Del { user } => Invocation::new("userdel"),
        UsersCmd::Passwd { user } => Invocation::new("passwd"),
        UsersCmd::List => Invocation::new("cut"),
    };
    match cmd {
        UsersCmd::Add { user } => {
            inv.arg("-m");
            inv.arg_string(user);
        },
        UsersCmd::Del { user } => {
            inv.arg("-r");
            inv.arg_string(user);
        },
        UsersCmd::Passwd { user } => {
            inv.arg_string(user);
        },
        UsersCmd::List => {
            inv.arg("-d:");
            inv.arg("-f1");
            inv.arg("/etc/passwd");
        },
    }
    proof {
        assert(inv.args.deep_view() =~~= spec_args(cmd));
    }
    inv
}

} // verus!
