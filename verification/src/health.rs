//! Health reporting: the calls each section reads, the rules that
//! turn their output into report text, and the assembly of the
//! summary and full reports.
use vstd::prelude::*;
use crate::cli::HealthCmd;
use crate::cmd::Invocation;
use crate::error::{AppError, AppResult};
use crate::text::has_prefix;
use crate::text::line_seq;
use crate::text::starts_with;
use crate::text::to_lines;
use crate::text::trim;
use crate::text::trim_left;
use crate::text::trim_start;
use crate::text::trimmed;

verus! {

/// What a health subcommand asks for.
pub enum HealthTask {
    Summary,
    Full,
    Services,
    Disk,
    Memory,
    Cpu,
    Kernel,
}

/// The task for each health subcommand.
pub open spec fn spec_task(cmd: HealthCmd) -> HealthTask {
    match cmd {
        HealthCmd::Summary => HealthTask::Summary,
        HealthCmd::Full => HealthTask::Full,
        HealthCmd::Services => HealthTask::Services,
        HealthCmd::Disk => HealthTask::Disk,
        HealthCmd::Memory => HealthTask::Memory,
        HealthCmd::Cpu => HealthTask::Cpu,
        HealthCmd::Kernel => HealthTask::Kernel,
    }
}

/// Maps a health subcommand to its task.
pub fn handle(cmd: &HealthCmd) -> (r: HealthTask)
    ensures
        r == spec_task(*cmd),
{
    match cmd {
        HealthCmd::Summary => HealthTask::Summary,
        HealthCmd::Full => HealthTask::Full,
        HealthCmd::Services => HealthTask::Services,
        HealthCmd::Disk => HealthTask::Disk,
        HealthCmd::Memory => HealthTask::Memory,
        HealthCmd::Cpu => HealthTask::Cpu,
        HealthCmd::Kernel => HealthTask::Kernel,
    }
}

/// The disk-usage call.
pub fn disk() -> (r: Invocation)
    ensures
        r.program@ == "df"@,
        r.args.deep_view() == seq!["-h"@],
{
    let mut inv = Invocation::new("df");
    inv.arg("-h");
    proof {
        assert(inv.args.deep_view() =~~= seq!["-h"@]);
    }
    inv
}

/// The memory listing call.
pub fn memory() -> (r: Invocation)
    ensures
        r.program@ == "free"@,
        r.args.deep_view() == seq!["-h"@],
{
    let mut inv = Invocation::new("free");
    inv.arg("-h");
    proof {
        assert(inv.args.deep_view() =~~= seq!["-h"@]);
    }
    inv
}

/// The processor description call.
pub fn cpu() -> (r: Invocation)
    ensures
        r.program@ == "lscpu"@,
        r.args.deep_view() == Seq::<Seq<char>>::empty(),
{
    Invocation::new("lscpu")
}

/// The kernel description call.
pub fn kernel() -> (r: Invocation)
    ensures
        r.program@ == "uname"@,
        r.args.deep_view() == seq!["-a"@],
{
    let mut inv = Invocation::new("uname");
    inv.arg("-a");
    proof {
        assert(inv.args.deep_view() =~~= seq!["-a"@]);
    }
    inv
}

/// The failed-services listing call.
pub fn services() -> (r: Invocation)
    ensures
        r.program@ == "systemctl"@,
        r.args.deep_view() == seq!["--failed"@],
{
    let mut inv = Invocation::new("systemctl");
    inv.arg("--failed");
    proof {
        assert(inv.args.deep_view() =~~= seq!["--failed"@]);
    }
    inv
}

/// The services section: the listing when it shows more than its
/// header, a calming line when it does not, a notice when the call
/// failed.
pub open spec fn spec_services_value(success: bool, stdout: Seq<char>) -> Seq<char> {
    if success {
        if line_seq(stdout).len() <= 1 {
            "No failed services.\n"@
        } else {
            stdout + "\n"@
        }
    } else {
        "systemctl --failed returned error.\n"@
    }
}

/// Renders the services section from the listing call's exit state
/// and output.
pub fn services_value(success: bool, stdout: &str) -> (r: String)
    ensures
        r@ == spec_services_value(success, stdout@),
{
    if success {
        let ls = to_lines(stdout);
        proof {
            assert(ls.deep_view().len() == ls@.len());
        }
        if ls.len() <= 1 {
            String::from_str("No failed services.\n")
        } else {
            let mut r = String::from_str(stdout);
            r.append("\n");
            r
        }
    } else {
        String::from_str("systemctl --failed returned error.\n")
    }
}

/// An argument as it stands inside its quotes: each quote and
/// backslash preceded by a backslash.
pub open spec fn spec_escaped(s: Seq<char>) -> Seq<char>
    decreases s.len(),
{
    if s.len() == 0 {
        Seq::empty()
    } else {
        spec_escaped(s.drop_last()) + (if s.last() == '"' || s.last() == '\\' {
            seq!['\\', s.last()]
        } else {
            seq![s.last()]
        })
    }
}

/// How a failing call is reported: the program and its argument
/// list, each argument quoted and escaped.
pub open spec fn spec_args_list(args: Seq<Seq<char>>) -> Seq<char>
    decreases args.len(),
{
    if args.len() == 0 {
        Seq::empty()
    } else if args.len() == 1 {
        "\""@ + spec_escaped(args[0]) + "\""@
    } else {
        spec_args_list(args.drop_last()) + ", \""@ + spec_escaped(args.last()) + "\""@
    }
}

/// Writes `s` with each quote and backslash preceded by a
/// backslash.
#[verifier::loop_isolation(false)]
fn escape_arg(s: &str) -> (r: String)
    ensures
        r@ == spec_escaped(s@),
{
    let n = s.unicode_len();
    let mut r = String::new();
    let mut i: usize = 0;
    proof {
        assert(s@.take(0) =~= Seq::<char>::empty());
        assert(r@ =~= spec_escaped(s@.take(0)));
    }
    while i < n
        invariant
            0 <= i <= n,
            r@ == spec_escaped(s@.take(i as int)),
        decreases n - i,
    {
        proof {
            assert(s@.take(i as int + 1).drop_last() =~= s@.take(i as int));
            assert(s@.take(i as int + 1).last() == s@[i as int]);
        }
        let c = s.get_char(i);
        if c == '"' {
            proof {
                reveal_strlit("\\\"");
            }
            r.append("\\\"");
        } else if c == '\\' {
            proof {
                reveal_strlit("\\\\");
            }
            r.append("\\\\");
        } else {
            let piece = s.substring_char(i, i + 1);
            r.append(piece);
        }
        proof {
            assert(r@ =~= spec_escaped(s@.take(i as int + 1)));
        }
        i = i + 1;
    }
    proof {
        assert(s@.take(n as int) =~= s@);
    }
    r
}

/// The message naming a failed call.
pub open spec fn spec_failed_message(prog: Seq<char>, args: Seq<Seq<char>>) -> Seq<char> {
    prog + " ["@ + spec_args_list(args) + "]"@
}

/// Names a failed call: the program and its quoted argument list.
#[verifier::loop_isolation(false)]
pub fn failed_message(inv: &Invocation) -> (r: String)
    ensures
        r@ == spec_failed_message(inv.program@, inv.args.deep_view()),
{
    let ghost adv = inv.args.deep_view();
    let mut r = inv.program.clone();
    r.append(" [");
    let ghost head = r@;
    let n = inv.args.len();
    let mut i: usize = 0;
    proof {
        assert(adv.take(0) =~= Seq::<Seq<char>>::empty());
        assert(r@ =~= head + spec_args_list(adv.take(0)));
    }
    while i < n
        invariant
            0 <= i <= n,
            n == adv.len(),
            r@ == head + spec_args_list(adv.take(i as int)),
        decreases n - i,
    {
        proof {
            assert(adv[i as int] == inv.args@[i as int]@);
            assert(adv.take(i as int + 1).drop_last() =~= adv.take(i as int));
            assert(adv.take(i as int + 1).last() == adv[i as int]);
            assert(adv.take(i as int + 1)[0] == adv[0]);
        }
        let esc = escape_arg(inv.args[i].as_str());
        if i == 0 {
            r.append("\"");
            r.append(esc.as_str());
            r.append("\"");
        } else {
            r.append(", \"");
            r.append(esc.as_str());
            r.append("\"");
        }
        proof {
            assert(r@ =~= head + spec_args_list(adv.take(i as int + 1)));
        }
        i = i + 1;
    }
    r.append("]");
    proof {
        assert(adv.take(n as int) =~= adv);
        assert(r@ =~= spec_failed_message(inv.program@, adv));
    }
    r
}

/// Passes a call's output through when it succeeded, and names the
/// call in the error when it did not.
pub fn command_result(inv: &Invocation, success: bool, stdout: String) -> (r: AppResult<String>)
    ensures
        success ==> (r matches Ok(s) && s == stdout),
        !success ==> (r matches Err(AppError::CommandFailed(m)) && m@ == spec_failed_message(
            inv.program@,
            inv.args.deep_view(),
        )),
{
    if success {
        Ok(stdout)
    } else {
        Err(AppError::CommandFailed(failed_message(inv)))
    }
}

/// Picks a resolver line naming a name server.
pub open spec fn nameserver_p() -> spec_fn(Seq<char>) -> bool {
    |l: Seq<char>| has_prefix(trim_left(l), "nameserver"@)
}

/// The name-server lines of the resolver file, each with a newline.
pub open spec fn spec_dns_lines(ls: Seq<Seq<char>>) -> Seq<char>
    decreases ls.len(),
{
    if ls.len() == 0 {
        Seq::empty()
    } else {
        spec_dns_lines(ls.drop_last()) + (if nameserver_p()(ls.last()) {
            ls.last() + "\n"@
        } else {
            Seq::<char>::empty()
        })
    }
}

/// The network section: the interface, its addresses when the
/// address tool ran, its state when readable, and the name servers
/// when the resolver file is readable; or a notice when there is no
/// interface.
pub open spec fn spec_network_report(
    iface: Option<Seq<char>>,
    ip_out: Option<Seq<char>>,
    operstate: Option<Seq<char>>,
    resolv: Option<Seq<char>>,
) -> Seq<char> {
    match iface {
        None => "No active network interface detected.\n"@,
        Some(i) => {
            let head = "Interface: "@ + i + "\n"@;
            let ip_part = match ip_out {
                Some(o) => "IP:\n"@ + o,
                None => Seq::<char>::empty(),
            };
            let state_part = match operstate {
                Some(st) => "State: "@ + trimmed(st) + "\n"@,
                None => Seq::<char>::empty(),
            };
            let dns_part = match resolv {
                Some(rv) => "DNS:\n"@ + spec_dns_lines(line_seq(rv)),
                None => Seq::<char>::empty(),
            };
            head + ip_part + state_part + dns_part
        },
    }
}

/// Assembles the network section from the interface and what each
/// probe returned.
#[verifier::loop_isolation(false)]
pub fn network_report(
    iface: Option<&str>,
    ip_out: Option<&str>,
    operstate: Option<&str>,
    resolv: Option<&str>,
) -> (r: String)
    ensures
        r@ == spec_network_report(
            match iface {
                Some(i) => Some(i@),
                None => None,
            },
            match ip_out {
                Some(o) => Some(o@),
                None => None,
            },
            match operstate {
                Some(st) => Some(st@),
                None => None,
            },
            match resolv {
                Some(rv) => Some(rv@),
                None => None,
            },
        ),
{
    match iface {
        None => String::from_str("No active network interface detected.\n"),
        Some(i) => {
            let mut r = String::from_str("Interface: ");
            r.append(i);
            r.append("\n");
            match ip_out {
                Some(o) => {
                    r.append("IP:\n");
                    r.append(o);
                },
                None => {
                },
            }
            match operstate {
                Some(st) => {
                    r.append("State: ");
                    let t = trim(st);
                    r.append(t.as_str());
                    r.append("\n");
                },
                None => {
                },
            }
            match resolv {
                Some(rv) => {
                    r.append("DNS:\n");
                    let ls = to_lines(rv);
                    let ghost dv = ls.deep_view();
                    let ghost base = r@;
                    let n = ls.len();
                    let mut j: usize = 0;
                    proof {
                        assert(dv.take(0) =~= Seq::<Seq<char>>::empty());
                        assert(r@ =~= base + spec_dns_lines(dv.take(0)));
                    }
                    while j < n
                        invariant
                            0 <= j <= n,
                            n == dv.len(),
                            dv == ls.deep_view(),
                            r@ == base + spec_dns_lines(dv.take(j as int)),
                        decreases n - j,
                    {
                        proof {
                            assert(dv[j as int] == ls@[j as int]@);
                            assert(dv.take(j as int + 1).drop_last() =~= dv.take(j as int));
                            assert(dv.take(j as int + 1).last() == dv[j as int]);
                        }
                        let st = trim_start(ls[j].as_str());
                        if starts_with(st.as_str(), "nameserver") {
                            proof {
                                assert(nameserver_p()(dv[j as int]));
                            }
                            r.append(ls[j].as_str());
                            r.append("\n");
                        } else {
                            proof {
                                assert(!nameserver_p()(dv[j as int]));
                            }
                        }
                        proof {
                            assert(r@ =~= base + spec_dns_lines(dv.take(j as int + 1)));
                        }
                        j = j + 1;
                    }
                    proof {
                        assert(dv.take(n as int) =~= dv);
                    }
                },
                None => {
                },
            }
            proof {
                assert(r@ =~= spec_network_report(
                    Some(i@),
                    match ip_out {
                        Some(o) => Some(o@),
                        None => None,
                    },
                    match operstate {
                        Some(st) => Some(st@),
                        None => None,
                    },
                    match resolv {
                        Some(rv) => Some(rv@),
                        None => None,
                    },
                ));
            }
            r
        },
    }
}

/// The summary report: kernel, disk, memory, services and network
/// sections in order.
pub open spec fn spec_summary_value(
    kernel: Seq<char>,
    disk: Seq<char>,
    memory: Seq<char>,
    services: Seq<char>,
    network: Seq<char>,
) -> Seq<char> {
    kernel + disk + memory + services + network
}

/// Assembles the summary report from its five sections.
pub fn summary_value(
    kernel: &str,
    disk: &str,
    memory: &str,
    services: &str,
    network: &str,
) -> (r: String)
    ensures
        r@ == spec_summary_value(kernel@, disk@, memory@, services@, network@),
{
    let mut r = String::from_str(kernel);
    r.append(disk);
    r.append(memory);
    r.append(services);
    r.append(network);
    r
}

/// The full report: the summary, then updates, news and network
/// health under their headings.
pub open spec fn spec_full_value(
    summary: Seq<char>,
    updates: Seq<char>,
    news: Seq<char>,
    network: Seq<char>,
) -> Seq<char> {
    summary + "\nPackage Updates:\n"@ + updates + "\nArch News:\n"@ + news + "\nNetwork Health:\n"@
        + network
}

/// Assembles the full report from the summary and the three extra
/// sections.
pub fn full_value(summary: &str, updates: &str, news: &str, network: &str) -> (r: String)
    ensures
        r@ == spec_full_value(summary@, updates@, news@, network@),
{
    let mut r = String::from_str(summary);
    r.append("\nPackage Updates:\n");
    r.append(updates);
    r.append("\nArch News:\n");
    r.append(news);
    r.append("\nNetwork Health:\n");
    r.append(network);
    r
}

} // verus!
