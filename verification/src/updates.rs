//! Update checking: the calls that refresh and list pending
//! updates, and the report derived from what the listing returned.
use vstd::prelude::*;
use crate::cli::UpdatesCmd;
use crate::cmd::Invocation;
use crate::text::dec_str;
use crate::text::line_seq;
use crate::text::to_lines;
use crate::text::u64_to_string;

verus! {

/// Whether `cmd` asks for the pending updates to be listed one by
/// one, rather than counted alone.
pub fn handle(cmd: &UpdatesCmd) -> (r: bool)
    ensures
        r == (cmd is List),
{
    match cmd {
        UpdatesCmd::Check => false,
        UpdatesCmd::List => true,
    }
}

/// The call that lists pending updates.
pub fn checkupdates_invocation() -> (r: Invocation)
    ensures
        r.program@ == "checkupdates"@,
        r.args.deep_view() == Seq::<Seq<char>>::empty(),
{
    Invocation::new("checkupdates")
}

/// The lines joined again, one per line without a trailing newline.
pub open spec fn spec_joined_lines(ls: Seq<Seq<char>>) -> Seq<char>
    decreases ls.len(),
{
    if ls.len() == 0 {
        Seq::empty()
    } else if ls.len() == 1 {
        ls[0]
    } else {
        spec_joined_lines(ls.drop_last()) + "\n"@ + ls.last()
    }
}

/// The update report: a notice when the listing call failed, a
/// calming line when it printed nothing, else the count of its
/// lines, with the lines themselves appended when asked for.
pub open spec fn spec_check_updates_report(
    success: bool,
    stdout: Seq<char>,
    list: bool,
) -> Seq<char> {
    if !success {
        "No updates or checkupdates failed."@
    } else {
        let ls = line_seq(stdout);
        if ls.len() == 0 {
            "System is up to date."@
        } else {
            let head = "Updates available: "@ + dec_str(ls.len());
            if list {
                head + "\n"@ + spec_joined_lines(ls)
            } else {
                head
            }
        }
    }
}

/// Renders the update report from the listing call's exit state and
/// output.
#[verifier::loop_isolation(false)]
pub fn check_updates_report(success: bool, stdout: &str, list: bool) -> (r: String)
    ensures
        r@ == spec_check_updates_report(success, stdout@, list),
{
    if !success {
        return String::from_str("No updates or checkupdates failed.");
    }
    let ls = to_lines(stdout);
    let ghost dv = ls.deep_view();
    let n = ls.len();
    proof {
        assert(dv.len() == n);
    }
    if n == 0 {
        return String::from_str("System is up to date.");
    }
    let mut r = String::from_str("Updates available: ");
    let cnt = u64_to_string(n as u64);
    r.append(cnt.as_str());
    if list {
        r.append("\n");
        let ghost base = r@;
        let mut i: usize = 0;
        proof {
            assert(dv.take(0) =~= Seq::<Seq<char>>::empty());
        }
        while i < n
            invariant
                0 <= i <= n,
                n == dv.len(),
                n > 0,
                dv == ls.deep_view(),
                r@ == base + spec_joined_lines(dv.take(i as int)),
            decreases n - i,
        {
            proof {
                assert(dv[i as int] == ls@[i as int]@);
                assert(dv.take(i as int + 1).drop_last() =~= dv.take(i as int));
                assert(dv.take(i as int + 1).last() == dv[i as int]);
                assert(dv.take(i as int + 1)[0] == dv[0]);
            }
            if i > 0 {
                r.append("\n");
            }
            r.append(ls[i].as_str());
            proof {
                assert(r@ =~= base + spec_joined_lines(dv.take(i as int + 1)));
            }
            i = i + 1;
        }
        proof {
            assert(dv.take(n as int) =~= dv);
            assert(r@ =~= spec_check_updates_report(success, stdout@, list));
        }
    }
    r
}

} // verus!
