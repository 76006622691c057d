//! The plan for one external program call, and the check that a
//! program is installed. Spawning the process is left to the caller
//! outside this library; here an invocation is only data.
use vstd::prelude::*;
use crate::error::{AppError, AppResult};

verus! {

/// One external program call: the program name and its arguments.
pub struct Invocation {
    pub program: String,
    pub args: Vec<String>,
}

impl Invocation {
    /// A call of `program` with no arguments yet.
    pub fn new(program: &str) -> (r: Invocation)
        ensures
            r.program@ == program@,
            r.args.deep_view() == Seq::<Seq<char>>::empty(),
    {
        let r = Invocation { program: String::from_str(program), args: Vec::new() };
        proof {
            assert(r.args.deep_view() =~~= Seq::<Seq<char>>::empty());
        }
        r
    }

    /// Adds one argument.
    pub fn arg(&mut self, a: &str)
        ensures
            final(self).program == old(self).program,
            final(self).args.deep_view() == old(self).args.deep_view().push(a@),
    {
        let ghost old_dv = self.args.deep_view();
        self.args.push(String::from_str(a));
        proof {
            assert(self.args.deep_view() =~~= old_dv.push(a@));
        }
    }

    /// Adds one owned argument.
    pub fn arg_string(&mut self, a: String)
        ensures
            final(self).program == old(self).program,
            final(self).args.deep_view() == old(self).args.deep_view().push(a@),
    {
        let ghost old_dv = self.args.deep_view();
        self.args.push(a);
        proof {
            assert(self.args.deep_view() =~~= old_dv.push(a@));
        }
    }
}

/// Relies on which::which of the which crate: Ok exactly when a
/// program of that name resolves on the current search path. The
/// answer depends on the machine, so nothing is claimed of it.
#[verifier::external_body]
pub fn tool_on_path(name: &str) -> bool {
    which::which(name).is_ok()
}

/// Checks that `cmd` is installed, and names it in the error when it
/// is not.
pub fn require_cmd(cmd: &str) -> (r: AppResult<()>)
    ensures
        r is Err ==> (r matches Err(AppError::MissingDependency(m)) && m@ == cmd@),
{
    if tool_on_path(cmd) {
        Ok(())
    } else {
        Err(AppError::MissingDependency(String::from_str(cmd)))
    }
}

} // verus!
