//! AUR package management through the yay helper, which must be
//! installed; an install of a blank package name is refused.
use vstd::prelude::*;
use crate::cli::AurCmd;
use crate::cmd::{require_cmd, Invocation};
use crate::error::{AppError, AppResult};
use crate::text::trimmed;
use crate::text::trim;

verus! {

/// The program arguments for `cmd`, installs naming the trimmed
/// package.
pub open spec fn spec_args(cmd: AurCmd) -> Seq<Seq<char>> {
    match cmd {
        AurCmd::Install { pkg } => seq!["-S"@, trimmed(pkg@)],
        AurCmd::Update => seq!["-Syu"@],
    }
}

/// The yay call for `cmd`. The call is refused when yay is not
/// installed, and an install of a name that is blank after trimming
/// is refused with a message.
pub fn handle(cmd: AurCmd) -> (r: AppResult<Invocation>)
    ensures
        r matches Ok(inv) ==> inv.program@ == "yay"@ && inv.args.deep_view() == spec_args(cmd),
        r matches Err(e) ==> match e {
            AppError::MissingDependency(m) => m@ == "yay"@,
            AppError::Other(m) => m@ == "Package name cannot be empty"@ && (cmd matches
            AurCmd::Install { pkg } && trimmed(pkg@).len() == 0),
            _ => false,
        },
        (cmd matches AurCmd::Update || (cmd matches AurCmd::Install { pkg } && trimmed(
            pkg@,
        ).len() > 0)) ==> !(r matches Err(AppError::Other(m))),
{
    match require_cmd("yay") {
        Ok(u) => {
        },
        Err(e) => {
            return Err(e);
        },
    }
    let mut inv = Invocation::new("yay");
    match cmd {
        AurCmd::Install { pkg } => {
            let p = trim(pkg.as_str());
            if p.as_str().unicode_len() == 0 {
                return Err(AppError::Other(String::from_str("Package name cannot be empty")));
            }
            inv.arg("-S");
            inv.arg_string(p);
        },
        AurCmd::Update => {
            inv.arg("-Syu");
        },
    }
    proof {
        assert(inv.args.deep_view() =~~= spec_args(cmd));
    }
    Ok(inv)
}

} // verus!
