//! The metrics layer: for each metric, the call or file read that
//! probes it, and the verified parsing and formatting of what the
//! probe returned. Every value function is total: it returns a
//! display string or a sentinel for every input, and never panics.
//! Reading files and spawning the probes is left to the thin
//! front-end around the library, which hands the raw text in.
use vstd::prelude::*;
use vstd::multiset::Multiset;
use crate::cli::MetricsCmd;
use crate::cmd::Invocation;
use crate::text::all_digits;
use crate::text::contains_str;
use crate::text::count_match;
use crate::text::dec_str;
use crate::text::digit_of;
use crate::text::digit_test;
use crate::text::digit_val;
use crate::text::digits_val;
use crate::text::first_match;
use crate::text::has_prefix;
use crate::text::has_substring;
use crate::text::is_digit;
use crate::text::last_match;
use crate::text::lemma_count_match_step;
use crate::text::lemma_first_match_step;
use crate::text::lemma_last_match_step;
use crate::text::line_seq;
use crate::text::parse_or_zero;
use crate::text::parse_u64;
use crate::text::parse_u64_or_zero;
use crate::text::parsed_u64;
use crate::text::split_ws;
use crate::text::starts_with;
use crate::text::str_eq;
use crate::text::strip_prefix_all;
use crate::text::strip_prefix_repeats;
use crate::text::tenths128_to_string;
use crate::text::tenths_str;
use crate::text::tenths_to_string;
use crate::text::to_lines;
use crate::text::token_seq;
use crate::text::trim;
use crate::text::trimmed;
use crate::text::u64_to_string;

verus! {

/// One metric that can be sampled and shown as a single value.
pub enum Metric {
    Ram,
    CpuTemp,
    CpuUsage,
    Gpu,
    GpuTemp,
    GpuUsage,
    Battery,
    BatteryHealth,
    Load,
    MemUsage,
    NetStatus,
    NetIp,
    NetTraffic,
    Orphans,
    Processes,
    Uptime,
}

/// What a metrics subcommand asks for: the full listing, one tool's
/// raw output streamed through, or one derived value.
pub enum MetricTask {
    All,
    StreamRam,
    StreamCpuTemp,
    StreamGpu,
    StreamBattery,
    StreamLoad,
    StreamUptime,
    Value(Metric),
}

/// What a stream probe resolves to once tool presence is known:
/// a program to run, or a text to show as the result.
pub enum MetricAction {
    Run(Invocation),
    Text(String),
}

/// The task for each metrics subcommand.
pub open spec fn spec_task(cmd: MetricsCmd) -> MetricTask {
    match cmd {
        MetricsCmd::All => MetricTask::All,
        MetricsCmd::Ram => MetricTask::StreamRam,
        MetricsCmd::CpuTemp => MetricTask::StreamCpuTemp,
        MetricsCmd::CpuUsage => MetricTask::Value(Metric::CpuUsage),
        MetricsCmd::Gpu => MetricTask::StreamGpu,
        MetricsCmd::GpuTemp => MetricTask::Value(Metric::GpuTemp),
        MetricsCmd::GpuUsage => MetricTask::Value(Metric::GpuUsage),
        MetricsCmd::Battery => MetricTask::StreamBattery,
        MetricsCmd::BatteryHealth => MetricTask::Value(Metric::BatteryHealth),
        MetricsCmd::Load => MetricTask::StreamLoad,
        MetricsCmd::MemUsage => MetricTask::Value(Metric::MemUsage),
        MetricsCmd::NetStatus => MetricTask::Value(Metric::NetStatus),
        MetricsCmd::NetIp => MetricTask::Value(Metric::NetIp),
        MetricsCmd::NetTraffic => MetricTask::Value(Metric::NetTraffic),
        MetricsCmd::Orphans => MetricTask::Value(Metric::Orphans),
        MetricsCmd::Processes => MetricTask::Value(Metric::Processes),
        MetricsCmd::Uptime => MetricTask::StreamUptime,
    }
}

/// Maps a metrics subcommand to its task.
pub fn handle(cmd: &MetricsCmd) -> (r: MetricTask)
    ensures
        r == spec_task(*cmd),
{
    match cmd {
        MetricsCmd::All => MetricTask::All,
        MetricsCmd::Ram => MetricTask::StreamRam,
        MetricsCmd::CpuTemp => MetricTask::StreamCpuTemp,
        MetricsCmd::CpuUsage => MetricTask::Value(Metric::CpuUsage),
        MetricsCmd::Gpu => MetricTask::StreamGpu,
        MetricsCmd::GpuTemp => MetricTask::Value(Metric::GpuTemp),
        MetricsCmd::GpuUsage => MetricTask::Value(Metric::GpuUsage),
        MetricsCmd::Battery => MetricTask::StreamBattery,
        MetricsCmd::BatteryHealth => MetricTask::Value(Metric::BatteryHealth),
        MetricsCmd::Load => MetricTask::StreamLoad,
        MetricsCmd::MemUsage => MetricTask::Value(Metric::MemUsage),
        MetricsCmd::NetStatus => MetricTask::Value(Metric::NetStatus),
        MetricsCmd::NetIp => MetricTask::Value(Metric::NetIp),
        MetricsCmd::NetTraffic => MetricTask::Value(Metric::NetTraffic),
        MetricsCmd::Orphans => MetricTask::Value(Metric::Orphans),
        MetricsCmd::Processes => MetricTask::Value(Metric::Processes),
        MetricsCmd::Uptime => MetricTask::StreamUptime,
    }
}

/// The heading under which each metric is listed.
pub open spec fn spec_label(m: Metric) -> Seq<char> {
    match m {
        Metric::Ram => "RAM"@,
        Metric::CpuTemp => "CPU_TEMP"@,
        Metric::CpuUsage => "CPU_USAGE"@,
        Metric::Gpu => "GPU"@,
        Metric::GpuTemp => "GPU_TEMP"@,
        Metric::GpuUsage => "GPU_USAGE"@,
        Metric::Battery => "BATTERY"@,
        Metric::BatteryHealth => "BATTERY_HEALTH"@,
        Metric::Load => "LOAD"@,
        Metric::MemUsage => "MEM_USAGE"@,
        Metric::NetStatus => "NET_STATUS"@,
        Metric::NetIp => "NET_IP"@,
        Metric::NetTraffic => "NET_TRAFFIC"@,
        Metric::Orphans => "ORPHANS"@,
        Metric::Processes => "PROCESSES"@,
        Metric::Uptime => "UPTIME"@,
    }
}

/// The heading under which `m` is listed.
pub fn metric_label(m: &Metric) -> (r: String)
    ensures
        r@ == spec_label(*m),
{
    match m {
        Metric::Ram => String::from_str("RAM"),
        Metric::CpuTemp => String::from_str("CPU_TEMP"),
        Metric::CpuUsage => String::from_str("CPU_USAGE"),
        Metric::Gpu => String::from_str("GPU"),
        Metric::GpuTemp => String::from_str("GPU_TEMP"),
        Metric::GpuUsage => String::from_str("GPU_USAGE"),
        Metric::Battery => String::from_str("BATTERY"),
        Metric::BatteryHealth => String::from_str("BATTERY_HEALTH"),
        Metric::Load => String::from_str("LOAD"),
        Metric::MemUsage => String::from_str("MEM_USAGE"),
        Metric::NetStatus => String::from_str("NET_STATUS"),
        Metric::NetIp => String::from_str("NET_IP"),
        Metric::NetTraffic => String::from_str("NET_TRAFFIC"),
        Metric::Orphans => String::from_str("ORPHANS"),
        Metric::Processes => String::from_str("PROCESSES"),
        Metric::Uptime => String::from_str("UPTIME"),
    }
}

/// The fixed order in which the full listing shows the metrics.
pub open spec fn spec_metric_order() -> Seq<Metric> {
    seq![
        Metric::Ram,
        Metric::CpuTemp,
        Metric::CpuUsage,
        Metric::Gpu,
        Metric::GpuTemp,
        Metric::GpuUsage,
        Metric::Battery,
        Metric::BatteryHealth,
        Metric::Load,
        Metric::MemUsage,
        Metric::NetStatus,
        Metric::NetIp,
        Metric::NetTraffic,
        Metric::Orphans,
        Metric::Processes,
        Metric::Uptime,
    ]
}

/// The fixed order in which the full listing shows the metrics.
pub fn metric_order() -> (r: Vec<Metric>)
    ensures
        r@ == spec_metric_order(),
{
    let mut r: Vec<Metric> = Vec::new();
    r.push(Metric::Ram);
    r.push(Metric::CpuTemp);
    r.push(Metric::CpuUsage);
    r.push(Metric::Gpu);
    r.push(Metric::GpuTemp);
    r.push(Metric::GpuUsage);
    r.push(Metric::Battery);
    r.push(Metric::BatteryHealth);
    r.push(Metric::Load);
    r.push(Metric::MemUsage);
    r.push(Metric::NetStatus);
    r.push(Metric::NetIp);
    r.push(Metric::NetTraffic);
    r.push(Metric::Orphans);
    r.push(Metric::Processes);
    r.push(Metric::Uptime);
    proof {
        assert(r@ =~= spec_metric_order());
    }
    r
}

/// The full listing: each metric's heading, a colon, its value, and
/// a newline, in the fixed order. `vals` pairs with the order by
/// position.
pub open spec fn all_lines(vals: Seq<Seq<char>>, i: int) -> Seq<char>
    decreases vals.len() - i,
{
    if i < 0 || i >= vals.len() || i >= spec_metric_order().len() {
        Seq::empty()
    } else {
        spec_label(spec_metric_order()[i]) + ": "@ + vals[i] + "\n"@ + all_lines(vals, i + 1)
    }
}

/// The full listing for the sixteen metric values, in order.
pub open spec fn spec_all_value(vals: Seq<Seq<char>>) -> Seq<char> {
    all_lines(vals, 0)
}

/// Renders the full listing from the sixteen metric values, given in
/// the fixed order.
pub fn all_value(values: &Vec<String>) -> (r: String)
    requires
        values@.len() == 16,
    ensures
        r@ == spec_all_value(values.deep_view()),
{
    let mut out = String::new();
    let order = metric_order();
    let mut i: usize = 0;
    let ghost vals = values.deep_view();
    proof {
        assert(vals.len() == 16);
    }
    while i < 16
        invariant
            0 <= i <= 16,
            values@.len() == 16,
            vals == values.deep_view(),
            order@ == spec_metric_order(),
            out@ + all_lines(vals, i as int) == spec_all_value(vals),
        decreases 16 - i,
    {
        let label = metric_label(&order[i]);
        out.append(label.as_str());
        out.append(": ");
        out.append(values[i].as_str());
        out.append("\n");
        proof {
            assert(vals[i as int] == values@[i as int]@);
        }
        i = i + 1;
    }
    proof {
        assert(all_lines(vals, 16) == Seq::<char>::empty());
        assert(out@ + Seq::<char>::empty() =~= out@);
    }
    out
}

/// Whether the action runs `prog` with `args`.
pub open spec fn is_run(r: MetricAction, prog: Seq<char>, args: Seq<Seq<char>>) -> bool {
    match r {
        MetricAction::Run(inv) => inv.program@ == prog && inv.args.deep_view() == args,
        _ => false,
    }
}

/// Whether the action shows the text `t`.
pub open spec fn is_text(r: MetricAction, t: Seq<char>) -> bool {
    match r {
        MetricAction::Text(s) => s@ == t,
        _ => false,
    }
}

/// The memory listing call whose output the RAM metric reads.
pub fn ram() -> (r: Invocation)
    ensures
        r.program@ == "free"@,
        r.args.deep_view() == seq!["-h"@],
{
    let mut inv = Invocation::new("free");
    inv.arg("-h");
    proof {
        assert(inv.args.deep_view() =~~= seq!["-h"@]);
    }
    inv
}

/// The load-average call streamed for the load metric.
pub fn load() -> (r: Invocation)
    ensures
        r.program@ == "uptime"@,
        r.args.deep_view() == Seq::<Seq<char>>::empty(),
{
    Invocation::new("uptime")
}

/// The uptime call streamed for the uptime metric.
pub fn uptime() -> (r: Invocation)
    ensures
        r.program@ == "uptime"@,
        r.args.deep_view() == seq!["-p"@],
{
    let mut inv = Invocation::new("uptime");
    inv.arg("-p");
    proof {
        assert(inv.args.deep_view() =~~= seq!["-p"@]);
    }
    inv
}

/// The temperature stream: the sensors tool when installed, a
/// sentinel otherwise.
pub fn cpu_temp(sensors_present: bool) -> (r: MetricAction)
    ensures
        sensors_present ==> is_run(r, "sensors"@, Seq::<Seq<char>>::empty()),
        !sensors_present ==> is_text(r, "sensors not installed"@),
{
    if sensors_present {
        MetricAction::Run(Invocation::new("sensors"))
    } else {
        MetricAction::Text(String::from_str("sensors not installed"))
    }
}

/// The graphics stream: the first installed of the two vendor tools,
/// a sentinel when neither is.
pub fn gpu(nvidia_present: bool, rocm_present: bool) -> (r: MetricAction)
    ensures
        nvidia_present ==> is_run(
            r,
            "nvidia-smi"@,
            seq!["--query-gpu=utilization.gpu,temperature.gpu"@, "--format=csv,noheader"@],
        ),
        !nvidia_present && rocm_present ==> is_run(r, "rocm-smi"@, seq!["--showuse"@]),
        !nvidia_present && !rocm_present ==> is_text(r, "No supported GPU monitor found."@),
{
    if nvidia_present {
        let mut inv = Invocation::new("nvidia-smi");
        inv.arg("--query-gpu=utilization.gpu,temperature.gpu");
        inv.arg("--format=csv,noheader");
        proof {
            assert(inv.args.deep_view() =~~= seq![
                "--query-gpu=utilization.gpu,temperature.gpu"@,
                "--format=csv,noheader"@,
            ]);
        }
        MetricAction::Run(inv)
    } else if rocm_present {
        let mut inv = Invocation::new("rocm-smi");
        inv.arg("--showuse");
        proof {
            assert(inv.args.deep_view() =~~= seq!["--showuse"@]);
        }
        MetricAction::Run(inv)
    } else {
        MetricAction::Text(String::from_str("No supported GPU monitor found."))
    }
}

/// Picks a line naming a battery device out of the device listing.
pub open spec fn battery_line_p() -> spec_fn(Seq<char>) -> bool {
    |l: Seq<char>| has_substring(l, "battery"@)
}

/// The first device in the listing whose line names a battery.
pub fn battery_device(listing: &str) -> (r: Option<String>)
    ensures
        match r {
            Some(d) => first_match(line_seq(listing@), battery_line_p()) == Some(d@),
            None => first_match(line_seq(listing@), battery_line_p()) is None,
        },
{
    let ls = to_lines(listing);
    let ghost dv = ls.deep_view();
    let n = ls.len();
    let mut i: usize = 0;
    proof {
        assert(dv.skip(0) =~= dv);
    }
    while i < n
        invariant
            0 <= i <= n,
            n == ls.len(),
            dv == ls.deep_view(),
            dv == line_seq(listing@),
            first_match(dv, battery_line_p()) == first_match(dv.skip(i as int), battery_line_p()),
        decreases n - i,
    {
        proof {
            lemma_first_match_step(dv, i as int, battery_line_p());
            assert(dv[i as int] == ls@[i as int]@);
        }
        if contains_str(ls[i].as_str(), "battery") {
            proof {
                assert(battery_line_p()(dv[i as int]));
            }
            let d = ls[i].clone();
            return Some(d);
        }
        proof {
            assert(!battery_line_p()(dv[i as int]));
        }
        i = i + 1;
    }
    proof {
        assert(dv.skip(n as int) =~= Seq::<Seq<char>>::empty());
    }
    None
}

/// The battery stream: the report for the first battery device when
/// the power tool is installed and lists one, a sentinel otherwise.
pub fn battery(upower_present: bool, listing: Option<&str>) -> (r: MetricAction)
    ensures
        !upower_present ==> is_text(r, "upower not installed"@),
        upower_present ==> match listing {
            Some(ls) => match first_match(line_seq(ls@), battery_line_p()) {
                Some(d) => is_run(r, "upower"@, seq!["-i"@, d]),
                None => is_text(r, "No battery detected."@),
            },
            None => is_text(r, "No battery detected."@),
        },
{
    if !upower_present {
        return MetricAction::Text(String::from_str("upower not installed"));
    }
    match listing {
        Some(ls) => {
            match battery_device(ls) {
                Some(dev) => {
                    let mut inv = Invocation::new("upower");
                    inv.arg("-i");
                    inv.arg_string(dev);
                    proof {
                        assert(inv.args.deep_view() =~~= seq![
                            "-i"@,
                            first_match(line_seq(ls@), battery_line_p()).unwrap(),
                        ]);
                    }
                    MetricAction::Run(inv)
                },
                None => MetricAction::Text(String::from_str("No battery detected.")),
            }
        },
        None => MetricAction::Text(String::from_str("No battery detected.")),
    }
}

/// The power-device listing call.
pub fn upower_list() -> (r: Invocation)
    ensures
        r.program@ == "upower"@,
        r.args.deep_view() == seq!["-e"@],
{
    let mut inv = Invocation::new("upower");
    inv.arg("-e");
    proof {
        assert(inv.args.deep_view() =~~= seq!["-e"@]);
    }
    inv
}

/// The report call for one power device.
pub fn upower_info(dev: &str) -> (r: Invocation)
    ensures
        r.program@ == "upower"@,
        r.args.deep_view() == seq!["-i"@, dev@],
{
    let mut inv = Invocation::new("upower");
    inv.arg("-i");
    inv.arg(dev);
    proof {
        assert(inv.args.deep_view() =~~= seq!["-i"@, dev@]);
    }
    inv
}

/// The vendor query call for the named graphics fields, without the
/// table header.
pub fn nvidia_query(fields: &str) -> (r: Invocation)
    ensures
        r.program@ == "nvidia-smi"@,
        r.args.deep_view() == seq!["--query-gpu="@ + fields@, "--format=csv,noheader"@],
{
    let mut inv = Invocation::new("nvidia-smi");
    let mut q = String::from_str("--query-gpu=");
    q.append(fields);
    inv.arg_string(q);
    inv.arg("--format=csv,noheader");
    proof {
        assert(inv.args.deep_view() =~~= seq![
            "--query-gpu="@ + fields@,
            "--format=csv,noheader"@,
        ]);
    }
    inv
}

/// The vendor call showing graphics use.
pub fn rocm_showuse() -> (r: Invocation)
    ensures
        r.program@ == "rocm-smi"@,
        r.args.deep_view() == seq!["--showuse"@],
{
    let mut inv = Invocation::new("rocm-smi");
    inv.arg("--showuse");
    proof {
        assert(inv.args.deep_view() =~~= seq!["--showuse"@]);
    }
    inv
}

/// The vendor call showing graphics temperature.
pub fn rocm_showtemp() -> (r: Invocation)
    ensures
        r.program@ == "rocm-smi"@,
        r.args.deep_view() == seq!["--showtemp"@],
{
    let mut inv = Invocation::new("rocm-smi");
    inv.arg("--showtemp");
    proof {
        assert(inv.args.deep_view() =~~= seq!["--showtemp"@]);
    }
    inv
}

/// The address listing call for one interface.
pub fn ip_addr_show(iface: &str) -> (r: Invocation)
    ensures
        r.program@ == "ip"@,
        r.args.deep_view() == seq!["-4"@, "addr"@, "show"@, "dev"@, iface@],
{
    let mut inv = Invocation::new("ip");
    inv.arg("-4");
    inv.arg("addr");
    inv.arg("show");
    inv.arg("dev");
    inv.arg(iface);
    proof {
        assert(inv.args.deep_view() =~~= seq!["-4"@, "addr"@, "show"@, "dev"@, iface@]);
    }
    inv
}

/// The process listing call, sorted by processor share.
pub fn ps_listing() -> (r: Invocation)
    ensures
        r.program@ == "ps"@,
        r.args.deep_view() == seq!["-eo"@, "pid,comm,%cpu,%mem"@, "--sort=-%cpu"@],
{
    let mut inv = Invocation::new("ps");
    inv.arg("-eo");
    inv.arg("pid,comm,%cpu,%mem");
    inv.arg("--sort=-%cpu");
    proof {
        assert(inv.args.deep_view() =~~= seq!["-eo"@, "pid,comm,%cpu,%mem"@, "--sort=-%cpu"@]);
    }
    inv
}

/// Picks the memory summary line with its used and total columns.
pub open spec fn ram_line_p() -> spec_fn(Seq<char>) -> bool {
    |l: Seq<char>| has_prefix(l, "Mem:"@) && token_seq(l).len() >= 3
}

/// The RAM value: used over total from the memory summary line, a
/// sentinel when no such line is found.
pub open spec fn spec_ram_value(s: Seq<char>) -> Seq<char> {
    match first_match(line_seq(s), ram_line_p()) {
        Some(l) => {
            let t = token_seq(l);
            t[2] + "/"@ + t[1]
        },
        None => "unknown"@,
    }
}

/// Reads used and total memory out of the memory listing.
pub fn ram_value(out: &str) -> (r: String)
    ensures
        r@ == spec_ram_value(out@),
{
    let ls = to_lines(out);
    let ghost dv = ls.deep_view();
    let n = ls.len();
    let mut i: usize = 0;
    proof {
        assert(dv.skip(0) =~= dv);
    }
    while i < n
        invariant
            0 <= i <= n,
            n == ls.len(),
            dv == ls.deep_view(),
            dv == line_seq(out@),
            first_match(dv, ram_line_p()) == first_match(dv.skip(i as int), ram_line_p()),
        decreases n - i,
    {
        proof {
            lemma_first_match_step(dv, i as int, ram_line_p());
            assert(dv[i as int] == ls@[i as int]@);
        }
        if starts_with(ls[i].as_str(), "Mem:") {
            let parts = split_ws(ls[i].as_str());
            if parts.len() >= 3 {
                proof {
                    assert(ram_line_p()(dv[i as int]));
                    assert(first_match(dv, ram_line_p()) == Some(dv[i as int]));
                }
                let mut r = String::new();
                r.append(parts[2].as_str());
                r.append("/");
                r.append(parts[1].as_str());
                proof {
                    assert(parts.deep_view()[2] == parts@[2]@);
                    assert(parts.deep_view()[1] == parts@[1]@);
                }
                return r;
            }
            proof {
                assert(!ram_line_p()(dv[i as int]));
            }
        } else {
            proof {
                assert(!ram_line_p()(dv[i as int]));
            }
        }
        i = i + 1;
    }
    proof {
        assert(dv.skip(n as int) =~= Seq::<Seq<char>>::empty());
    }
    String::from_str("unknown")
}

/// The load value: the three load averages from the load file, a
/// sentinel when the file is missing or too short.
pub open spec fn spec_load_value(content: Option<Seq<char>>) -> Seq<char> {
    match content {
        Some(s) => {
            let t = token_seq(s);
            if t.len() >= 3 {
                t[0] + " "@ + t[1] + " "@ + t[2]
            } else {
                "unknown"@
            }
        },
        None => "unknown"@,
    }
}

/// Reads the one, five and fifteen minute load averages out of the
/// load file's content, when it could be read.
pub fn load_value(content: Option<&str>) -> (r: String)
    ensures
        r@ == spec_load_value(match content {
            Some(c) => Some(c@),
            None => None,
        }),
{
    match content {
        Some(c) => {
            let parts = split_ws(c);
            if parts.len() >= 3 {
                let mut r = String::new();
                r.append(parts[0].as_str());
                r.append(" ");
                r.append(parts[1].as_str());
                r.append(" ");
                r.append(parts[2].as_str());
                proof {
                    assert(parts.deep_view()[0] == parts@[0]@);
                    assert(parts.deep_view()[1] == parts@[1]@);
                    assert(parts.deep_view()[2] == parts@[2]@);
                }
                r
            } else {
                String::from_str("unknown")
            }
        },
        None => String::from_str("unknown"),
    }
}

/// The uptime value: the report trimmed, a sentinel when it is
/// blank.
pub open spec fn spec_uptime_value(s: Seq<char>) -> Seq<char> {
    if trimmed(s).len() == 0 {
        "unknown"@
    } else {
        trimmed(s)
    }
}

/// Trims the uptime report, falling back to a sentinel when blank.
pub fn uptime_value(out: &str) -> (r: String)
    ensures
        r@ == spec_uptime_value(out@),
{
    let t = trim(out);
    if t.as_str().unicode_len() == 0 {
        String::from_str("unknown")
    } else {
        t
    }
}

/// Picks the lines carrying the named memory-file key.
pub open spec fn mem_line_p(key: Seq<char>) -> spec_fn(Seq<char>) -> bool {
    |l: Seq<char>| has_prefix(l, key)
}

/// The number in the second column of a matched line, zero when the
/// line is short, does not parse, or was never found.
pub open spec fn field_of(opt: Option<Seq<char>>) -> u64 {
    match opt {
        Some(l) => {
            let t = token_seq(l);
            if t.len() >= 2 {
                parse_or_zero(t[1])
            } else {
                0
            }
        },
        None => 0,
    }
}

/// The value reported under `key` in the memory file: the last line
/// carrying the key decides.
pub open spec fn meminfo_field(s: Seq<char>, key: Seq<char>) -> u64 {
    field_of(last_match(line_seq(s), mem_line_p(key)))
}

/// A thousandth-part ratio rounded to the nearest tenth, half up.
pub open spec fn ratio_tenths(num: nat, den: nat) -> nat
    recommends
        den > 0,
{
    (2000 * num + den) / (2 * den)
}

/// The memory-usage value: used percent of total to one decimal,
/// with used and total in mebibytes, all from the memory file's
/// total and available counts in kibibytes. A zero or missing total
/// gives the sentinel.
pub open spec fn spec_mem_usage_value(s: Seq<char>) -> Seq<char> {
    let total = meminfo_field(s, "MemTotal:"@);
    let avail = meminfo_field(s, "MemAvailable:"@);
    if total == 0 {
        "unknown"@
    } else {
        let used = total.saturating_sub(avail);
        tenths_str(ratio_tenths(used as nat, total as nat)) + "% ("@ + dec_str((used / 1024) as nat)
            + " / "@ + dec_str((total / 1024) as nat) + " MiB)"@
    }
}

/// Derives the memory-usage value from the memory file's content.
pub fn mem_usage_value(content: &str) -> (r: String)
    ensures
        r@ == spec_mem_usage_value(content@),
{
    let ls = to_lines(content);
    let ghost dv = ls.deep_view();
    let n = ls.len();
    let mut i: usize = 0;
    let mut total: u64 = 0;
    let mut avail: u64 = 0;
    proof {
        assert(dv.take(0) =~= Seq::<Seq<char>>::empty());
    }
    while i < n
        invariant
            0 <= i <= n,
            n == ls.len(),
            dv == ls.deep_view(),
            dv == line_seq(content@),
            total == field_of(last_match(dv.take(i as int), mem_line_p("MemTotal:"@))),
            avail == field_of(last_match(dv.take(i as int), mem_line_p("MemAvailable:"@))),
        decreases n - i,
    {
        proof {
            lemma_last_match_step(dv, i as int, mem_line_p("MemTotal:"@));
            lemma_last_match_step(dv, i as int, mem_line_p("MemAvailable:"@));
            assert(dv[i as int] == ls@[i as int]@);
        }
        if starts_with(ls[i].as_str(), "MemTotal:") {
            proof {
                assert(mem_line_p("MemTotal:"@)(dv[i as int]));
                reveal_strlit("MemTotal:");
                reveal_strlit("MemAvailable:");
                assert(dv[i as int].subrange(0, 9)[3] == dv[i as int][3]);
                if has_prefix(dv[i as int], "MemAvailable:"@) {
                    assert(dv[i as int].subrange(0, 13)[3] == dv[i as int][3]);
                    assert(false);
                }
                assert(!mem_line_p("MemAvailable:"@)(dv[i as int]));
            }
            let parts = split_ws(ls[i].as_str());
            if parts.len() >= 2 {
                proof {
                    assert(parts.deep_view()[1] == parts@[1]@);
                }
                total = parse_u64_or_zero(parts[1].as_str());
            } else {
                total = 0;
            }
        } else if starts_with(ls[i].as_str(), "MemAvailable:") {
            proof {
                assert(mem_line_p("MemAvailable:"@)(dv[i as int]));
                assert(!mem_line_p("MemTotal:"@)(dv[i as int]));
            }
            let parts = split_ws(ls[i].as_str());
            if parts.len() >= 2 {
                proof {
                    assert(parts.deep_view()[1] == parts@[1]@);
                }
                avail = parse_u64_or_zero(parts[1].as_str());
            } else {
                avail = 0;
            }
        } else {
            proof {
                assert(!mem_line_p("MemTotal:"@)(dv[i as int]));
                assert(!mem_line_p("MemAvailable:"@)(dv[i as int]));
            }
        }
        i = i + 1;
    }
    proof {
        assert(dv.take(n as int) =~= dv);
    }
    if total == 0 {
        return String::from_str("unknown");
    }
    let used = total.saturating_sub(avail);
    let t128: u128 = (2000u128 * (used as u128) + (total as u128)) / (2u128 * (total as u128));
    proof {
        assert(t128 == ratio_tenths(used as nat, total as nat));
        assert(t128 <= 1000) by (nonlinear_arith)
            requires
                t128 == (2000 * (used as nat) + (total as nat)) / (2 * (total as nat)),
                used <= total,
                total >= 1,
        ;
    }
    let tenths: u64 = t128 as u64;
    let mut r = tenths_to_string(tenths);
    r.append("% (");
    let us = u64_to_string(total.saturating_sub(avail) / 1024);
    r.append(us.as_str());
    r.append(" / ");
    let ts = u64_to_string(total / 1024);
    r.append(ts.as_str());
    r.append(" MiB)");
    proof {
        assert(r@ =~= spec_mem_usage_value(content@));
    }
    r
}

/// Picks a route-table row whose destination mask is all zeros.
pub open spec fn route_line_p() -> spec_fn(Seq<char>) -> bool {
    |l: Seq<char>| token_seq(l).len() >= 2 && token_seq(l)[1] == "00000000"@
}

/// The interface named by the first default route in the route
/// table, whose first line is a header.
pub open spec fn spec_route_iface(routes: Seq<char>) -> Option<Seq<char>> {
    let ls = line_seq(routes);
    if ls.len() == 0 {
        None
    } else {
        match first_match(ls.drop_first(), route_line_p()) {
            Some(l) => Some(token_seq(l)[0]),
            None => None,
        }
    }
}

/// Picks a device other than the loopback device.
pub open spec fn dev_line_p() -> spec_fn(Seq<char>) -> bool {
    |d: Seq<char>| d != "lo"@
}

/// The default interface: the first default-route row's interface,
/// else the first listed device that is not the loopback device.
pub open spec fn spec_default_interface(
    routes: Option<Seq<char>>,
    devices: Seq<Seq<char>>,
) -> Option<Seq<char>> {
    let from_route = match routes {
        Some(r) => spec_route_iface(r),
        None => None,
    };
    match from_route {
        Some(i) => Some(i),
        None => first_match(devices, dev_line_p()),
    }
}

/// Derives the default interface from the route table's content and
/// the device names listed under the network class, in order.
#[verifier::loop_isolation(false)]
pub fn default_interface(routes: Option<&str>, devices: &Vec<String>) -> (r: Option<String>)
    ensures
        match r {
            Some(i) => spec_default_interface(
                match routes {
                    Some(ro) => Some(ro@),
                    None => None,
                },
                devices.deep_view(),
            ) == Some(i@),
            None => spec_default_interface(
                match routes {
                    Some(ro) => Some(ro@),
                    None => None,
                },
                devices.deep_view(),
            ) is None,
        },
{
    match routes {
        Some(ro) => {
            let ls = to_lines(ro);
            let ghost dv = ls.deep_view();
            let n = ls.len();
            if n > 0 {
                let mut i: usize = 1;
                proof {
                    assert(dv.drop_first() =~= dv.skip(1));
                    assert(dv.len() == n);
                }
                while i < n
                    invariant
                        1 <= i <= n,
                        n == ls.len(),
                        dv == ls.deep_view(),
                        dv == line_seq(ro@),
                        n == dv.len(),
                        first_match(dv.drop_first(), route_line_p()) == first_match(
                            dv.skip(i as int),
                            route_line_p(),
                        ),
                    decreases n - i,
                {
                    proof {
                        lemma_first_match_step(dv, i as int, route_line_p());
                        assert(dv[i as int] == ls@[i as int]@);
                    }
                    let parts = split_ws(ls[i].as_str());
                    if parts.len() >= 2 && str_eq(parts[1].as_str(), "00000000") {
                        proof {
                            assert(parts.deep_view()[1] == parts@[1]@);
                            assert(parts.deep_view().len() == parts@.len());
                            assert(route_line_p()(dv[i as int]));
                            assert(parts.deep_view()[0] == parts@[0]@);
                            assert(first_match(dv.drop_first(), route_line_p()) == Some(
                                dv[i as int],
                            ));
                            assert(spec_route_iface(ro@) == Some(token_seq(dv[i as int])[0]));
                        }
                        let d = parts[0].clone();
                        return Some(d);
                    }
                    proof {
                        if parts@.len() >= 2 {
                            assert(parts.deep_view()[1] == parts@[1]@);
                        }
                        assert(!route_line_p()(dv[i as int]));
                    }
                    i = i + 1;
                }
                proof {
                    assert(dv.skip(n as int) =~= Seq::<Seq<char>>::empty());
                    assert(spec_route_iface(ro@) is None);
                }
            } else {
                proof {
                    assert(dv.len() == 0);
                    assert(spec_route_iface(ro@) is None);
                }
            }
        },
        None => {
        },
    }
    let ghost ddv = devices.deep_view();
    let m = devices.len();
    let mut j: usize = 0;
    proof {
        assert(ddv.skip(0) =~= ddv);
    }
    while j < m
        invariant
            0 <= j <= m,
            m == devices.len(),
            ddv == devices.deep_view(),
            first_match(ddv, dev_line_p()) == first_match(ddv.skip(j as int), dev_line_p()),
        decreases m - j,
    {
        proof {
            lemma_first_match_step(ddv, j as int, dev_line_p());
            assert(ddv[j as int] == devices@[j as int]@);
        }
        if !str_eq(devices[j].as_str(), "lo") {
            proof {
                assert(dev_line_p()(ddv[j as int]));
            }
            let d = devices[j].clone();
            return Some(d);
        }
        proof {
            assert(!dev_line_p()(ddv[j as int]));
        }
        j = j + 1;
    }
    proof {
        assert(ddv.skip(m as int) =~= Seq::<Seq<char>>::empty());
    }
    None
}

/// The interface status value: the interface and its trimmed
/// operational state, the sentinel when there is no interface, and
/// the sentinel as state when the state file could not be read.
pub open spec fn spec_net_status_value(
    iface: Option<Seq<char>>,
    oper: Option<Seq<char>>,
) -> Seq<char> {
    match iface {
        None => "unknown"@,
        Some(i) => {
            let st = match oper {
                Some(o) => trimmed(o),
                None => "unknown"@,
            };
            i + " ("@ + st + ")"@
        },
    }
}

/// Formats the interface status from the interface name and the
/// operational-state file's content.
pub fn net_status_value(iface: Option<&str>, operstate: Option<&str>) -> (r: String)
    ensures
        r@ == spec_net_status_value(
            match iface {
                Some(i) => Some(i@),
                None => None,
            },
            match operstate {
                Some(o) => Some(o@),
                None => None,
            },
        ),
{
    match iface {
        None => String::from_str("unknown"),
        Some(i) => {
            let st = match operstate {
                Some(o) => trim(o),
                None => String::from_str("unknown"),
            };
            let mut r = String::from_str(i);
            r.append(" (");
            r.append(st.as_str());
            r.append(")");
            r
        },
    }
}

/// Picks an address line: trimmed it starts with the inet marker and
/// has an address token after it.
pub open spec fn inet_line_p() -> spec_fn(Seq<char>) -> bool {
    |l: Seq<char>| has_prefix(trimmed(l), "inet "@) && token_seq(trimmed(l)).len() >= 2
}

/// The interface address value: the token after the inet marker on
/// the first address line, the sentinel when there is no interface,
/// no address tool, or no such line.
pub open spec fn spec_net_ip_value(
    iface: Option<Seq<char>>,
    ip_out: Option<Seq<char>>,
) -> Seq<char> {
    match iface {
        None => "unknown"@,
        Some(i) => match ip_out {
            None => "unknown"@,
            Some(o) => match first_match(line_seq(o), inet_line_p()) {
                Some(l) => token_seq(trimmed(l))[1],
                None => "unknown"@,
            },
        },
    }
}

/// Reads the interface address out of the address listing.
#[verifier::loop_isolation(false)]
pub fn net_ip_value(iface: Option<&str>, ip_out: Option<&str>) -> (r: String)
    ensures
        r@ == spec_net_ip_value(
            match iface {
                Some(i) => Some(i@),
                None => None,
            },
            match ip_out {
                Some(o) => Some(o@),
                None => None,
            },
        ),
{
    if iface.is_none() {
        return String::from_str("unknown");
    }
    match ip_out {
        None => String::from_str("unknown"),
        Some(o) => {
            let ls = to_lines(o);
            let ghost dv = ls.deep_view();
            let n = ls.len();
            let mut i: usize = 0;
            proof {
                assert(dv.skip(0) =~= dv);
            }
            while i < n
                invariant
                    0 <= i <= n,
                    n == ls.len(),
                    dv == ls.deep_view(),
                    dv == line_seq(o@),
                    first_match(dv, inet_line_p()) == first_match(
                        dv.skip(i as int),
                        inet_line_p(),
                    ),
                decreases n - i,
            {
                proof {
                    lemma_first_match_step(dv, i as int, inet_line_p());
                    assert(dv[i as int] == ls@[i as int]@);
                }
                let lt = trim(ls[i].as_str());
                if starts_with(lt.as_str(), "inet ") {
                    let parts = split_ws(lt.as_str());
                    if parts.len() >= 2 {
                        proof {
                            assert(parts.deep_view().len() == parts@.len());
                            assert(inet_line_p()(dv[i as int]));
                            assert(parts.deep_view()[1] == parts@[1]@);
                            assert(first_match(dv, inet_line_p()) == Some(dv[i as int]));
                        }
                        let a = parts[1].clone();
                        return a;
                    }
                    proof {
                        assert(!inet_line_p()(dv[i as int]));
                    }
                } else {
                    proof {
                        assert(!inet_line_p()(dv[i as int]));
                    }
                }
                i = i + 1;
            }
            proof {
                assert(dv.skip(n as int) =~= Seq::<Seq<char>>::empty());
            }
            String::from_str("unknown")
        },
    }
}

/// Byte counts as tenths of mebibytes, rounded to the nearest tenth,
/// half up.
pub open spec fn mib_tenths(b: u64) -> nat {
    ((20 * b + 1048576) / 2097152) as nat
}

/// The traffic value: received and sent byte counters as mebibytes
/// to one decimal, the sentinel when there is no interface. A
/// counter that could not be read counts as zero.
pub open spec fn spec_net_traffic_value(
    iface: Option<Seq<char>>,
    rx: Option<u64>,
    tx: Option<u64>,
) -> Seq<char> {
    match iface {
        None => "unknown"@,
        Some(i) => {
            let rv = match rx {
                Some(v) => v,
                None => 0,
            };
            let tv = match tx {
                Some(v) => v,
                None => 0,
            };
            "rx "@ + tenths_str(mib_tenths(rv)) + " MiB / tx "@ + tenths_str(mib_tenths(tv))
                + " MiB"@
        },
    }
}

/// Converts one byte counter to tenths of mebibytes.
fn mib_tenths_exec(b: u64) -> (r: u64)
    ensures
        r == mib_tenths(b),
{
    let t128: u128 = (20u128 * (b as u128) + 1048576u128) / 2097152u128;
    proof {
        assert(t128 == mib_tenths(b));
        assert((20 * (b as int) + 1048576) <= (20 * (u64::MAX as int) + 1048576));
        vstd::arithmetic::div_mod::lemma_div_is_ordered(
            20 * (b as int) + 1048576,
            20 * (u64::MAX as int) + 1048576,
            2097152,
        );
        assert((20 * (u64::MAX as int) + 1048576) / 2097152 < u64::MAX);
    }
    t128 as u64
}

/// Formats the traffic value from the interface and its two byte
/// counters.
pub fn net_traffic_value(iface: Option<&str>, rx: Option<u64>, tx: Option<u64>) -> (r: String)
    ensures
        r@ == spec_net_traffic_value(
            match iface {
                Some(i) => Some(i@),
                None => None,
            },
            rx,
            tx,
        ),
{
    if iface.is_none() {
        return String::from_str("unknown");
    }
    let rv = match rx {
        Some(v) => v,
        None => 0,
    };
    let tv = match tx {
        Some(v) => v,
        None => 0,
    };
    let mut r = String::from_str("rx ");
    let rs = tenths_to_string(mib_tenths_exec(rv));
    r.append(rs.as_str());
    r.append(" MiB / tx ");
    let ts = tenths_to_string(mib_tenths_exec(tv));
    r.append(ts.as_str());
    r.append(" MiB");
    proof {
        assert(r@ =~= spec_net_traffic_value(
            match iface {
                Some(i) => Some(i@),
                None => None,
            },
            rx,
            tx,
        ));
    }
    r
}

/// The jiffy counters summed over the fields of one stat line,
/// saturating rather than wrapping.
pub open spec fn sum_sat(toks: Seq<Seq<char>>) -> u64
    decreases toks.len(),
{
    if toks.len() == 0 {
        0
    } else {
        sum_sat(toks.drop_last()).saturating_add(parse_or_zero(toks.last()))
    }
}

/// Picks the aggregate processor line of the stat file.
pub open spec fn cpu_line_p() -> spec_fn(Seq<char>) -> bool {
    |l: Seq<char>| has_prefix(l, "cpu "@)
}

/// The two counters read from the stat file: total jiffies summed
/// over the aggregate line's fields, and its idle field. Zeros when
/// the line is missing or short.
pub open spec fn spec_cpu_totals(s: Seq<char>) -> (u64, u64) {
    match first_match(line_seq(s), cpu_line_p()) {
        Some(l) => {
            let t = token_seq(l);
            if t.len() >= 5 {
                (sum_sat(t.drop_first()), parse_or_zero(t[4]))
            } else {
                (0, 0)
            }
        },
        None => (0, 0),
    }
}

/// Reads total and idle jiffies out of the stat file's content.
#[verifier::loop_isolation(false)]
pub fn parse_cpu_stat(stat: &str) -> (r: (u64, u64))
    ensures
        r == spec_cpu_totals(stat@),
{
    let ls = to_lines(stat);
    let ghost dv = ls.deep_view();
    let n = ls.len();
    let mut i: usize = 0;
    proof {
        assert(dv.skip(0) =~= dv);
    }
    while i < n
        invariant
            0 <= i <= n,
            first_match(dv, cpu_line_p()) == first_match(dv.skip(i as int), cpu_line_p()),
        decreases n - i,
    {
        proof {
            lemma_first_match_step(dv, i as int, cpu_line_p());
            assert(dv[i as int] == ls@[i as int]@);
        }
        if starts_with(ls[i].as_str(), "cpu ") {
            proof {
                assert(cpu_line_p()(dv[i as int]));
            }
            let parts = split_ws(ls[i].as_str());
            let ghost tt = token_seq(dv[i as int]);
            if parts.len() >= 5 {
                let mut total: u64 = 0;
                let mut j: usize = 1;
                proof {
                    assert(tt.subrange(1, 1) =~= Seq::<Seq<char>>::empty());
                }
                while j < parts.len()
                    invariant
                        1 <= j <= parts.len(),
                        total == sum_sat(tt.subrange(1, j as int)),
                    decreases parts.len() - j,
                {
                    proof {
                        assert(tt.subrange(1, j as int + 1).drop_last() =~= tt.subrange(
                            1,
                            j as int,
                        ));
                        assert(tt.subrange(1, j as int + 1).last() == tt[j as int]);
                        assert(parts.deep_view()[j as int] == parts@[j as int]@);
                    }
                    total = total.saturating_add(parse_u64_or_zero(parts[j].as_str()));
                    j = j + 1;
                }
                proof {
                    assert(tt.subrange(1, parts@.len() as int) =~= tt.drop_first());
                    assert(parts.deep_view()[4] == parts@[4]@);
                }
                let idle = parse_u64_or_zero(parts[4].as_str());
                return (total, idle);
            }
            return (0, 0);
        }
        proof {
            assert(!cpu_line_p()(dv[i as int]));
        }
        i = i + 1;
    }
    proof {
        assert(dv.skip(n as int) =~= Seq::<Seq<char>>::empty());
    }
    (0, 0)
}

/// The processor-usage value across two stat samples: the share of
/// elapsed jiffies not idle, to one decimal, the sentinel when no
/// jiffies elapsed. A sample pair whose idle delta outruns its total
/// delta reads as a negative share.
pub open spec fn spec_cpu_usage_value(ta: u64, ia: u64, tb: u64, ib: u64) -> Seq<char> {
    let dt = tb.saturating_sub(ta);
    let di = ib.saturating_sub(ia);
    if dt == 0 {
        "unknown"@
    } else if di <= dt {
        tenths_str(ratio_tenths((dt - di) as nat, dt as nat)) + "%"@
    } else {
        "-"@ + tenths_str(ratio_tenths((di - dt) as nat, dt as nat)) + "%"@
    }
}

/// Derives the usage percentage from the two samples' total and
/// idle counters.
pub fn cpu_usage_value(total_a: u64, idle_a: u64, total_b: u64, idle_b: u64) -> (r: String)
    ensures
        r@ == spec_cpu_usage_value(total_a, idle_a, total_b, idle_b),
{
    let dt = total_b.saturating_sub(total_a);
    let di = idle_b.saturating_sub(idle_a);
    if dt == 0 {
        return String::from_str("unknown");
    }
    if di <= dt {
        let num = dt - di;
        let t128: u128 = (2000u128 * (num as u128) + (dt as u128)) / (2u128 * (dt as u128));
        proof {
            assert(t128 == ratio_tenths(num as nat, dt as nat));
            assert(t128 <= 1000) by (nonlinear_arith)
                requires
                    t128 == (2000 * (num as nat) + (dt as nat)) / (2 * (dt as nat)),
                    num <= dt,
                    dt >= 1,
            ;
        }
        let mut r = tenths_to_string(t128 as u64);
        r.append("%");
        proof {
            assert(r@ =~= spec_cpu_usage_value(total_a, idle_a, total_b, idle_b));
        }
        r
    } else {
        let num = di - dt;
        let t128: u128 = (2000u128 * (num as u128) + (dt as u128)) / (2u128 * (dt as u128));
        proof {
            assert(t128 == ratio_tenths(num as nat, dt as nat));
        }
        let mut r = String::from_str("-");
        let ts = tenths128_to_string(t128);
        r.append(ts.as_str());
        r.append("%");
        proof {
            assert(r@ =~= spec_cpu_usage_value(total_a, idle_a, total_b, idle_b));
        }
        r
    }
}

/// Picks a sensors line reporting the package temperature.
pub open spec fn sensors_line_p() -> spec_fn(Seq<char>) -> bool {
    |l: Seq<char>|
        has_substring(l, "Package id"@) || has_substring(l, "Tctl"@) || has_substring(
            l,
            "CPU Temp"@,
        )
}

/// Picks a thermal reading that parses to a positive millidegree
/// count.
pub open spec fn thermal_p() -> spec_fn(Seq<char>) -> bool {
    |v: Seq<char>|
        match parsed_u64(trimmed(v)) {
            Some(x) => x > 0,
            None => false,
        }
}

/// Millidegrees written as degrees to one decimal place, rounded
/// half up.
pub open spec fn millideg_str(x: u64) -> Seq<char> {
    tenths_str(((x + 50) / 100) as nat) + "°C"@
}

/// The first positive thermal reading formatted as degrees, when
/// one of the readings parses.
pub open spec fn spec_first_temp(vals: Seq<Seq<char>>) -> Option<Seq<char>> {
    match first_match(vals, thermal_p()) {
        Some(v) => match parsed_u64(trimmed(v)) {
            Some(x) => Some(millideg_str(x)),
            None => None,
        },
        None => None,
    }
}

/// Formats the first positive reading out of a list of thermal file
/// contents.
#[verifier::loop_isolation(false)]
fn first_temp(vals: &Vec<String>) -> (r: Option<String>)
    ensures
        match r {
            Some(t) => spec_first_temp(vals.deep_view()) == Some(t@),
            None => spec_first_temp(vals.deep_view()) is None,
        },
{
    let ghost dv = vals.deep_view();
    let n = vals.len();
    let mut i: usize = 0;
    proof {
        assert(dv.skip(0) =~= dv);
    }
    while i < n
        invariant
            0 <= i <= n,
            first_match(dv, thermal_p()) == first_match(dv.skip(i as int), thermal_p()),
        decreases n - i,
    {
        proof {
            lemma_first_match_step(dv, i as int, thermal_p());
            assert(dv[i as int] == vals@[i as int]@);
        }
        let t = trim(vals[i].as_str());
        match parse_u64(t.as_str()) {
            Some(x) => {
                if x > 0 {
                    proof {
                        assert(thermal_p()(dv[i as int]));
                    }
                    let deg128: u128 = ((x as u128) + 50) / 100;
                    proof {
                        vstd::arithmetic::div_mod::lemma_div_is_ordered(
                            (x as int) + 50,
                            (u64::MAX as int) + 50,
                            100,
                        );
                    }
                    let mut s = tenths_to_string(deg128 as u64);
                    s.append("°C");
                    proof {
                        assert(s@ =~= millideg_str(x));
                    }
                    return Some(s);
                }
                proof {
                    assert(!thermal_p()(dv[i as int]));
                }
            },
            None => {
                proof {
                    assert(!thermal_p()(dv[i as int]));
                }
            },
        }
        i = i + 1;
    }
    proof {
        assert(dv.skip(n as int) =~= Seq::<Seq<char>>::empty());
    }
    None
}

/// The processor-temperature value: the first matching sensors line
/// trimmed, else the first positive thermal reading, else the
/// sentinel.
pub open spec fn spec_cpu_temp_value(
    sensors: Option<Seq<char>>,
    thermal: Seq<Seq<char>>,
) -> Seq<char> {
    let from_sensors = match sensors {
        Some(s) => first_match(line_seq(s), sensors_line_p()),
        None => None,
    };
    match from_sensors {
        Some(l) => trimmed(l),
        None => match spec_first_temp(thermal) {
            Some(t) => t,
            None => "unknown"@,
        },
    }
}

/// Derives the processor temperature from the sensors output when
/// available, with the thermal class files as fallback.
#[verifier::loop_isolation(false)]
pub fn cpu_temp_value(sensors_out: Option<&str>, thermal: &Vec<String>) -> (r: String)
    ensures
        r@ == spec_cpu_temp_value(
            match sensors_out {
                Some(s) => Some(s@),
                None => None,
            },
            thermal.deep_view(),
        ),
{
    match sensors_out {
        Some(s) => {
            let ls = to_lines(s);
            let ghost dv = ls.deep_view();
            let n = ls.len();
            let mut i: usize = 0;
            proof {
                assert(dv.skip(0) =~= dv);
            }
            while i < n
                invariant
                    0 <= i <= n,
                    first_match(dv, sensors_line_p()) == first_match(
                        dv.skip(i as int),
                        sensors_line_p(),
                    ),
                decreases n - i,
            {
                proof {
                    lemma_first_match_step(dv, i as int, sensors_line_p());
                    assert(dv[i as int] == ls@[i as int]@);
                }
                if contains_str(ls[i].as_str(), "Package id") || contains_str(
                    ls[i].as_str(),
                    "Tctl",
                ) || contains_str(ls[i].as_str(), "CPU Temp") {
                    proof {
                        assert(sensors_line_p()(dv[i as int]));
                    }
                    return trim(ls[i].as_str());
                }
                proof {
                    assert(!sensors_line_p()(dv[i as int]));
                }
                i = i + 1;
            }
            proof {
                assert(dv.skip(n as int) =~= Seq::<Seq<char>>::empty());
            }
        },
        None => {
        },
    }
    match first_temp(thermal) {
        Some(t) => t,
        None => String::from_str("unknown"),
    }
}

/// Picks a vendor-tool line reporting graphics use.
pub open spec fn rocm_line_p() -> spec_fn(Seq<char>) -> bool {
    |l: Seq<char>| has_substring(l, "GPU"@) && has_substring(l, "%"@)
}

/// Picks a vendor-tool line reporting temperature.
pub open spec fn rocm_temp_line_p() -> spec_fn(Seq<char>) -> bool {
    |l: Seq<char>| has_substring(l, "Temperature"@)
}

/// A graphics reading assembled from the probes in priority order:
/// the first vendor tool's trimmed output when not blank, else the
/// second tool's matching line, else the busy-file percentage, else
/// the sentinel.
pub open spec fn spec_gpu_pick(
    nvidia: Option<Seq<char>>,
    rocm: Option<Seq<char>>,
    busy: Option<Seq<char>>,
) -> Seq<char> {
    let nv = match nvidia {
        Some(s) => trimmed(s),
        None => Seq::empty(),
    };
    if nv.len() > 0 {
        nv
    } else {
        let rl = match rocm {
            Some(s) => first_match(line_seq(s), rocm_line_p()),
            None => None,
        };
        match rl {
            Some(l) => trimmed(l),
            None => {
                let bz = match busy {
                    Some(s) => trimmed(s),
                    None => Seq::empty(),
                };
                if bz.len() > 0 {
                    bz + "%"@
                } else {
                    "unavailable"@
                }
            },
        }
    }
}

/// Assembles a graphics reading from the three probes' outputs.
#[verifier::loop_isolation(false)]
fn gpu_pick(nvidia: Option<&str>, rocm: Option<&str>, busy: Option<&str>) -> (r: String)
    ensures
        r@ == spec_gpu_pick(
            match nvidia {
                Some(s) => Some(s@),
                None => None,
            },
            match rocm {
                Some(s) => Some(s@),
                None => None,
            },
            match busy {
                Some(s) => Some(s@),
                None => None,
            },
        ),
{
    match nvidia {
        Some(s) => {
            let t = trim(s);
            if t.as_str().unicode_len() > 0 {
                return t;
            }
        },
        None => {
        },
    }
    match rocm {
        Some(s) => {
            let ls = to_lines(s);
            let ghost dv = ls.deep_view();
            let n = ls.len();
            let mut i: usize = 0;
            proof {
                assert(dv.skip(0) =~= dv);
            }
            while i < n
                invariant
                    0 <= i <= n,
                    first_match(dv, rocm_line_p()) == first_match(
                        dv.skip(i as int),
                        rocm_line_p(),
                    ),
                decreases n - i,
            {
                proof {
                    lemma_first_match_step(dv, i as int, rocm_line_p());
                    assert(dv[i as int] == ls@[i as int]@);
                }
                if contains_str(ls[i].as_str(), "GPU") && contains_str(ls[i].as_str(), "%") {
                    proof {
                        assert(rocm_line_p()(dv[i as int]));
                    }
                    return trim(ls[i].as_str());
                }
                proof {
                    assert(!rocm_line_p()(dv[i as int]));
                }
                i = i + 1;
            }
            proof {
                assert(dv.skip(n as int) =~= Seq::<Seq<char>>::empty());
            }
        },
        None => {
        },
    }
    match busy {
        Some(s) => {
            let t = trim(s);
            if t.as_str().unicode_len() > 0 {
                let mut r = t;
                r.append("%");
                return r;
            }
        },
        None => {
        },
    }
    String::from_str("unavailable")
}

/// The graphics identity value, from the vendor name query, the
/// second tool's use line, or the busy file.
pub open spec fn spec_gpu_value(
    nvidia: Option<Seq<char>>,
    rocm: Option<Seq<char>>,
    busy: Option<Seq<char>>,
) -> Seq<char> {
    spec_gpu_pick(nvidia, rocm, busy)
}

/// Derives the graphics identity value from the probes' outputs.
pub fn gpu_value(nvidia: Option<&str>, rocm: Option<&str>, busy: Option<&str>) -> (r: String)
    ensures
        r@ == spec_gpu_value(
            match nvidia {
                Some(s) => Some(s@),
                None => None,
            },
            match rocm {
                Some(s) => Some(s@),
                None => None,
            },
            match busy {
                Some(s) => Some(s@),
                None => None,
            },
        ),
{
    gpu_pick(nvidia, rocm, busy)
}

/// The graphics-usage value, from the vendor usage query, the
/// second tool's use line, or the busy file.
pub open spec fn spec_gpu_usage_value(
    nvidia: Option<Seq<char>>,
    rocm: Option<Seq<char>>,
    busy: Option<Seq<char>>,
) -> Seq<char> {
    spec_gpu_pick(nvidia, rocm, busy)
}

/// Derives the graphics-usage value from the probes' outputs.
pub fn gpu_usage_value(nvidia: Option<&str>, rocm: Option<&str>, busy: Option<&str>) -> (r: String)
    ensures
        r@ == spec_gpu_usage_value(
            match nvidia {
                Some(s) => Some(s@),
                None => None,
            },
            match rocm {
                Some(s) => Some(s@),
                None => None,
            },
            match busy {
                Some(s) => Some(s@),
                None => None,
            },
        ),
{
    gpu_pick(nvidia, rocm, busy)
}

/// The graphics-temperature value: the vendor degree count suffixed
/// with the degree sign, else the second tool's temperature line,
/// else the first positive reading among the monitor files, else the
/// sentinel.
pub open spec fn spec_gpu_temp_value(
    nvidia: Option<Seq<char>>,
    rocm: Option<Seq<char>>,
    hwmon: Seq<Seq<char>>,
) -> Seq<char> {
    let nv = match nvidia {
        Some(s) => trimmed(s),
        None => Seq::empty(),
    };
    if nv.len() > 0 {
        nv + "°C"@
    } else {
        let rl = match rocm {
            Some(s) => first_match(line_seq(s), rocm_temp_line_p()),
            None => None,
        };
        match rl {
            Some(l) => trimmed(l),
            None => match spec_first_temp(hwmon) {
                Some(t) => t,
                None => "unavailable"@,
            },
        }
    }
}

/// Derives the graphics temperature from the probes' outputs, with
/// the monitor files as last fallback.
#[verifier::loop_isolation(false)]
pub fn gpu_temp_value(nvidia: Option<&str>, rocm: Option<&str>, hwmon: &Vec<String>) -> (r: String)
    ensures
        r@ == spec_gpu_temp_value(
            match nvidia {
                Some(s) => Some(s@),
                None => None,
            },
            match rocm {
                Some(s) => Some(s@),
                None => None,
            },
            hwmon.deep_view(),
        ),
{
    match nvidia {
        Some(s) => {
            let t = trim(s);
            if t.as_str().unicode_len() > 0 {
                let mut r = t;
                r.append("°C");
                return r;
            }
        },
        None => {
        },
    }
    match rocm {
        Some(s) => {
            let ls = to_lines(s);
            let ghost dv = ls.deep_view();
            let n = ls.len();
            let mut i: usize = 0;
            proof {
                assert(dv.skip(0) =~= dv);
            }
            while i < n
                invariant
                    0 <= i <= n,
                    first_match(dv, rocm_temp_line_p()) == first_match(
                        dv.skip(i as int),
                        rocm_temp_line_p(),
                    ),
                decreases n - i,
            {
                proof {
                    lemma_first_match_step(dv, i as int, rocm_temp_line_p());
                    assert(dv[i as int] == ls@[i as int]@);
                }
                if contains_str(ls[i].as_str(), "Temperature") {
                    proof {
                        assert(rocm_temp_line_p()(dv[i as int]));
                    }
                    return trim(ls[i].as_str());
                }
                proof {
                    assert(!rocm_temp_line_p()(dv[i as int]));
                }
                i = i + 1;
            }
            proof {
                assert(dv.skip(n as int) =~= Seq::<Seq<char>>::empty());
            }
        },
        None => {
        },
    }
    match first_temp(hwmon) {
        Some(t) => t,
        None => String::from_str("unavailable"),
    }
}

/// Picks the report lines carrying the named field, the line
/// trimmed first.
pub open spec fn field_line_p(key: Seq<char>) -> spec_fn(Seq<char>) -> bool {
    |l: Seq<char>| has_prefix(trimmed(l), key)
}

/// What one matched report line says under its key: the rest of the
/// line, key stripped, trimmed.
pub open spec fn field_text(opt: Option<Seq<char>>, key: Seq<char>) -> Seq<char> {
    match opt {
        Some(l) => trimmed(strip_prefix_all(trimmed(l), key)),
        None => Seq::empty(),
    }
}

/// The value reported under `key` in the device report: the last
/// line carrying the key decides, and a key never seen reads as
/// empty.
pub open spec fn spec_info_field(info: Seq<char>, key: Seq<char>) -> Seq<char> {
    field_text(last_match(line_seq(info), field_line_p(key)), key)
}

/// The battery value: percentage and capacity joined out of the
/// device report; sentinels when the power tool is missing, no
/// device is listed, or the report shows neither field.
pub open spec fn spec_battery_value(
    present: bool,
    device: Option<Seq<char>>,
    info: Option<Seq<char>>,
) -> Seq<char> {
    if !present {
        "upower not installed"@
    } else {
        match device {
            None => "no battery"@,
            Some(d) => match info {
                None => "unknown"@,
                Some(inf) => {
                    let p = spec_info_field(inf, "percentage:"@);
                    let c = spec_info_field(inf, "capacity:"@);
                    if p.len() > 0 || c.len() > 0 {
                        trimmed(p + " "@ + c)
                    } else {
                        "unknown"@
                    }
                },
            },
        }
    }
}

/// Derives the battery value from tool presence, the device found
/// in the listing, and that device's report.
#[verifier::loop_isolation(false)]
pub fn battery_value(present: bool, device: Option<&str>, info: Option<&str>) -> (r: String)
    ensures
        r@ == spec_battery_value(
            present,
            match device {
                Some(d) => Some(d@),
                None => None,
            },
            match info {
                Some(inf) => Some(inf@),
                None => None,
            },
        ),
{
    if !present {
        return String::from_str("upower not installed");
    }
    if device.is_none() {
        return String::from_str("no battery");
    }
    match info {
        None => String::from_str("unknown"),
        Some(inf) => {
            let ls = to_lines(inf);
            let ghost dv = ls.deep_view();
            let n = ls.len();
            let mut i: usize = 0;
            let mut percent = String::new();
            let mut capacity = String::new();
            proof {
                assert(dv.take(0) =~= Seq::<Seq<char>>::empty());
            }
            while i < n
                invariant
                    0 <= i <= n,
                    percent@ == field_text(
                        last_match(dv.take(i as int), field_line_p("percentage:"@)),
                        "percentage:"@,
                    ),
                    capacity@ == field_text(
                        last_match(dv.take(i as int), field_line_p("capacity:"@)),
                        "capacity:"@,
                    ),
                decreases n - i,
            {
                proof {
                    lemma_last_match_step(dv, i as int, field_line_p("percentage:"@));
                    lemma_last_match_step(dv, i as int, field_line_p("capacity:"@));
                    assert(dv[i as int] == ls@[i as int]@);
                }
                let lt = trim(ls[i].as_str());
                let is_p = starts_with(lt.as_str(), "percentage:");
                let is_c = starts_with(lt.as_str(), "capacity:");
                if is_p {
                    proof {
                        assert(field_line_p("percentage:"@)(dv[i as int]));
                    }
                    let stripped = strip_prefix_repeats(lt.as_str(), "percentage:");
                    percent = trim(stripped.as_str());
                }
                if is_c {
                    proof {
                        assert(field_line_p("capacity:"@)(dv[i as int]));
                    }
                    let stripped = strip_prefix_repeats(lt.as_str(), "capacity:");
                    capacity = trim(stripped.as_str());
                }
                proof {
                    if !is_p {
                        assert(!field_line_p("percentage:"@)(dv[i as int]));
                    }
                    if !is_c {
                        assert(!field_line_p("capacity:"@)(dv[i as int]));
                    }
                }
                i = i + 1;
            }
            proof {
                assert(dv.take(n as int) =~= dv);
            }
            if percent.as_str().unicode_len() > 0 || capacity.as_str().unicode_len() > 0 {
                let mut joined = percent;
                joined.append(" ");
                joined.append(capacity.as_str());
                trim(joined.as_str())
            } else {
                String::from_str("unknown")
            }
        },
    }
}

/// The files read for one power-supply entry: the entry's name and
/// the raw content of each charge file, where it could be read.
pub struct PowerSupply {
    pub name: String,
    pub energy_full: Option<String>,
    pub charge_full: Option<String>,
    pub energy_full_design: Option<String>,
    pub charge_full_design: Option<String>,
    pub capacity: Option<String>,
}

/// The positive count a charge file holds, zero when it is missing,
/// does not parse, or is not positive.
pub open spec fn pos_val(o: Option<String>) -> u64 {
    match o {
        Some(s) => parse_or_zero(trimmed(s@)),
        None => 0,
    }
}

/// A supply's full charge: the energy reading when positive, else
/// the charge reading.
pub open spec fn supply_full(e: PowerSupply) -> u64 {
    if pos_val(e.energy_full) > 0 {
        pos_val(e.energy_full)
    } else {
        pos_val(e.charge_full)
    }
}

/// A supply's designed charge: the designed energy reading when
/// positive, else the designed charge reading.
pub open spec fn supply_design(e: PowerSupply) -> u64 {
    if pos_val(e.energy_full_design) > 0 {
        pos_val(e.energy_full_design)
    } else {
        pos_val(e.charge_full_design)
    }
}

/// What one power-supply entry yields: for a battery-named entry,
/// full over designed charge as a percentage to one decimal place,
/// else the capacity file's trimmed content with a percent sign;
/// nothing when neither is usable or the entry is not a battery.
pub open spec fn supply_result(e: PowerSupply) -> Option<Seq<char>> {
    if !has_prefix(e.name@, "BAT"@) {
        None
    } else {
        let full = supply_full(e);
        let design = supply_design(e);
        if full > 0 && design > 0 {
            Some(tenths_str(ratio_tenths(full as nat, design as nat)) + "%"@)
        } else {
            match e.capacity {
                Some(c) => if trimmed(c@).len() > 0 {
                    Some(trimmed(c@) + "%"@)
                } else {
                    None
                },
                None => None,
            }
        }
    }
}

/// The first usable battery entry's yield, in listing order.
pub open spec fn spec_entries_result(es: Seq<PowerSupply>) -> Option<Seq<char>>
    decreases es.len(),
{
    if es.len() == 0 {
        None
    } else {
        match supply_result(es[0]) {
            Some(r) => Some(r),
            None => spec_entries_result(es.drop_first()),
        }
    }
}

/// The capacity field on the first matching line of the power
/// tool's device report.
pub open spec fn spec_upower_capacity(info: Seq<char>) -> Option<Seq<char>> {
    match first_match(line_seq(info), field_line_p("capacity:"@)) {
        Some(l) => Some(field_text(Some(l), "capacity:"@)),
        None => None,
    }
}

/// The battery-health value: the first usable supply entry decides;
/// else the power tool's reported capacity; else the sentinel.
pub open spec fn spec_battery_health_value(
    es: Seq<PowerSupply>,
    upower_info: Option<Seq<char>>,
) -> Seq<char> {
    match spec_entries_result(es) {
        Some(r) => r,
        None => match upower_info {
            Some(inf) => match spec_upower_capacity(inf) {
                Some(c) => c,
                None => "unknown"@,
            },
            None => "unknown"@,
        },
    }
}

/// The positive count a charge file holds, zero otherwise.
fn pos_val_exec(o: &Option<String>) -> (r: u64)
    ensures
        r == pos_val(*o),
{
    match o {
        Some(s) => {
            let t = trim(s.as_str());
            parse_u64_or_zero(t.as_str())
        },
        None => 0,
    }
}

/// What one power-supply entry yields.
fn supply_result_exec(e: &PowerSupply) -> (r: Option<String>)
    ensures
        match r {
            Some(s) => supply_result(*e) == Some(s@),
            None => supply_result(*e) is None,
        },
{
    if !starts_with(e.name.as_str(), "BAT") {
        return None;
    }
    let ef = pos_val_exec(&e.energy_full);
    let full = if ef > 0 {
        ef
    } else {
        pos_val_exec(&e.charge_full)
    };
    let dd = pos_val_exec(&e.energy_full_design);
    let design = if dd > 0 {
        dd
    } else {
        pos_val_exec(&e.charge_full_design)
    };
    if full > 0 && design > 0 {
        let t128: u128 = (2000u128 * (full as u128) + (design as u128)) / (2u128 * (design
            as u128));
        proof {
            assert(t128 == ratio_tenths(full as nat, design as nat));
        }
        let mut s = tenths128_to_string(t128);
        s.append("%");
        proof {
            assert(s@ =~= tenths_str(ratio_tenths(full as nat, design as nat)) + "%"@);
        }
        return Some(s);
    }
    match &e.capacity {
        Some(c) => {
            let t = trim(c.as_str());
            if t.as_str().unicode_len() > 0 {
                let mut s = t;
                s.append("%");
                proof {
                    assert(s@ =~= trimmed(match e.capacity {
                        Some(cc) => cc@,
                        None => Seq::<char>::empty(),
                    }) + "%"@);
                }
                Some(s)
            } else {
                None
            }
        },
        None => None,
    }
}

/// Derives the battery health from the power-supply entries read in
/// listing order, with the power tool's device report as fallback.
#[verifier::loop_isolation(false)]
pub fn battery_health_value(entries: &Vec<PowerSupply>, upower_info: Option<&str>) -> (r: String)
    ensures
        r@ == spec_battery_health_value(
            entries@,
            match upower_info {
                Some(inf) => Some(inf@),
                None => None,
            },
        ),
{
    let ghost es = entries@;
    let n = entries.len();
    let mut i: usize = 0;
    proof {
        assert(es.skip(0) =~= es);
    }
    while i < n
        invariant
            0 <= i <= n,
            spec_entries_result(es) == spec_entries_result(es.skip(i as int)),
        decreases n - i,
    {
        proof {
            assert(es.skip(i as int).len() == n - i);
            assert(es.skip(i as int)[0] == es[i as int]);
            assert(es.skip(i as int).drop_first() =~= es.skip(i as int + 1));
        }
        match supply_result_exec(&entries[i]) {
            Some(s) => {
                return s;
            },
            None => {
            },
        }
        i = i + 1;
    }
    proof {
        assert(es.skip(n as int) =~= Seq::<PowerSupply>::empty());
    }
    match upower_info {
        None => String::from_str("unknown"),
        Some(inf) => {
            let ls = to_lines(inf);
            let ghost dv = ls.deep_view();
            let m = ls.len();
            let mut j: usize = 0;
            proof {
                assert(dv.skip(0) =~= dv);
            }
            while j < m
                invariant
                    0 <= j <= m,
                    first_match(dv, field_line_p("capacity:"@)) == first_match(
                        dv.skip(j as int),
                        field_line_p("capacity:"@),
                    ),
                decreases m - j,
            {
                proof {
                    lemma_first_match_step(dv, j as int, field_line_p("capacity:"@));
                    assert(dv[j as int] == ls@[j as int]@);
                }
                let lt = trim(ls[j].as_str());
                if starts_with(lt.as_str(), "capacity:") {
                    proof {
                        assert(field_line_p("capacity:"@)(dv[j as int]));
                    }
                    let stripped = strip_prefix_repeats(lt.as_str(), "capacity:");
                    return trim(stripped.as_str());
                }
                proof {
                    assert(!field_line_p("capacity:"@)(dv[j as int]));
                }
                j = j + 1;
            }
            proof {
                assert(dv.skip(m as int) =~= Seq::<Seq<char>>::empty());
            }
            String::from_str("unknown")
        },
    }
}

/// A tool that can list orphaned packages, in fallback order.
#[derive(Clone, Copy)]
pub enum OrphanTool {
    Pacman,
    Deborphan,
    Dnf,
    Zypper,
}

/// The first orphan-listing tool present, tried in the fixed order.
pub open spec fn spec_orphans_tool(
    pacman: bool,
    deborphan: bool,
    dnf: bool,
    zypper: bool,
) -> Option<OrphanTool> {
    if pacman {
        Some(OrphanTool::Pacman)
    } else if deborphan {
        Some(OrphanTool::Deborphan)
    } else if dnf {
        Some(OrphanTool::Dnf)
    } else if zypper {
        Some(OrphanTool::Zypper)
    } else {
        None
    }
}

/// Picks the first present orphan-listing tool, in the fixed order.
pub fn orphans_tool(pacman: bool, deborphan: bool, dnf: bool, zypper: bool) -> (r: Option<
    OrphanTool,
>)
    ensures
        r == spec_orphans_tool(pacman, deborphan, dnf, zypper),
{
    if pacman {
        Some(OrphanTool::Pacman)
    } else if deborphan {
        Some(OrphanTool::Deborphan)
    } else if dnf {
        Some(OrphanTool::Dnf)
    } else if zypper {
        Some(OrphanTool::Zypper)
    } else {
        None
    }
}

/// Checks the search path for each orphan-listing tool, in the
/// fixed order, and picks the first found. What is installed
/// depends on the machine, so nothing more is claimed.
pub fn orphans_probe() -> Option<OrphanTool> {
    let pacman = crate::cmd::tool_on_path("pacman");
    if pacman {
        return orphans_tool(true, false, false, false);
    }
    let deborphan = crate::cmd::tool_on_path("deborphan");
    if deborphan {
        return orphans_tool(false, true, false, false);
    }
    let dnf = crate::cmd::tool_on_path("dnf");
    if dnf {
        return orphans_tool(false, false, true, false);
    }
    let zypper = crate::cmd::tool_on_path("zypper");
    orphans_tool(false, false, false, zypper)
}

/// The listing call each orphan tool answers.
pub fn orphans_invocation(tool: OrphanTool) -> (r: Invocation)
    ensures
        match tool {
            OrphanTool::Pacman => r.program@ == "pacman"@ && r.args.deep_view() == seq!["-Qtdq"@],
            OrphanTool::Deborphan => r.program@ == "deborphan"@ && r.args.deep_view()
                == Seq::<Seq<char>>::empty(),
            OrphanTool::Dnf => r.program@ == "dnf"@ && r.args.deep_view() == seq![
                "repoquery"@,
                "--unneeded"@,
            ],
            OrphanTool::Zypper => r.program@ == "zypper"@ && r.args.deep_view() == seq![
                "packages"@,
                "--orphaned"@,
            ],
        },
{
    match tool {
        OrphanTool::Pacman => {
            let mut inv = Invocation::new("pacman");
            inv.arg("-Qtdq");
            proof {
                assert(inv.args.deep_view() =~~= seq!["-Qtdq"@]);
            }
            inv
        },
        OrphanTool::Deborphan => Invocation::new("deborphan"),
        OrphanTool::Dnf => {
            let mut inv = Invocation::new("dnf");
            inv.arg("repoquery");
            inv.arg("--unneeded");
            proof {
                assert(inv.args.deep_view() =~~= seq!["repoquery"@, "--unneeded"@]);
            }
            inv
        },
        OrphanTool::Zypper => {
            let mut inv = Invocation::new("zypper");
            inv.arg("packages");
            inv.arg("--orphaned");
            proof {
                assert(inv.args.deep_view() =~~= seq!["packages"@, "--orphaned"@]);
            }
            inv
        },
    }
}

/// The name an orphan count is tagged with.
pub open spec fn spec_tool_name(t: OrphanTool) -> Seq<char> {
    match t {
        OrphanTool::Pacman => "pacman"@,
        OrphanTool::Deborphan => "deborphan"@,
        OrphanTool::Dnf => "dnf"@,
        OrphanTool::Zypper => "zypper"@,
    }
}

/// Picks a line that is not blank.
pub open spec fn nonblank_p() -> spec_fn(Seq<char>) -> bool {
    |l: Seq<char>| trimmed(l).len() > 0
}

/// Picks an installed-package row of the zypper listing.
pub open spec fn zypper_row_p() -> spec_fn(Seq<char>) -> bool {
    |l: Seq<char>| has_prefix(crate::text::trim_left(l), "i"@)
}

/// How an orphan listing's rows are counted for each tool.
pub open spec fn tool_row_p(t: OrphanTool) -> spec_fn(Seq<char>) -> bool {
    match t {
        OrphanTool::Zypper => zypper_row_p(),
        _ => nonblank_p(),
    }
}

/// The orphan value: the count of listing rows tagged with the tool
/// that produced them, or the sentinel when no tool is installed.
pub open spec fn spec_orphans_value(tool: Option<OrphanTool>, out: Seq<char>) -> Seq<char> {
    match tool {
        None => "unsupported"@,
        Some(t) => dec_str(count_match(line_seq(out), tool_row_p(t))) + " ("@ + spec_tool_name(t)
            + ")"@,
    }
}

/// Counts the orphan listing's rows for the tool that produced it
/// and tags the count with the tool's name.
#[verifier::loop_isolation(false)]
pub fn orphans_value(tool: Option<OrphanTool>, out: &str) -> (r: String)
    ensures
        r@ == spec_orphans_value(tool, out@),
{
    match tool {
        None => String::from_str("unsupported"),
        Some(t) => {
            let ls = to_lines(out);
            let ghost dv = ls.deep_view();
            let ghost p = tool_row_p(t);
            let n = ls.len();
            let mut i: usize = 0;
            let mut cnt: u64 = 0;
            proof {
                assert(dv.take(0) =~= Seq::<Seq<char>>::empty());
            }
            while i < n
                invariant
                    0 <= i <= n,
                    cnt <= i,
                    cnt == count_match(dv.take(i as int), p),
                decreases n - i,
            {
                proof {
                    lemma_count_match_step(dv, i as int, p);
                    assert(dv[i as int] == ls@[i as int]@);
                }
                let hit = match t {
                    OrphanTool::Zypper => {
                        let st = crate::text::trim_start(ls[i].as_str());
                        starts_with(st.as_str(), "i")
                    },
                    _ => {
                        let tr = trim(ls[i].as_str());
                        tr.as_str().unicode_len() > 0
                    },
                };
                if hit {
                    proof {
                        assert(p(dv[i as int]));
                    }
                    cnt = cnt + 1;
                } else {
                    proof {
                        assert(!p(dv[i as int]));
                    }
                }
                i = i + 1;
            }
            proof {
                assert(dv.take(n as int) =~= dv);
            }
            let mut r = u64_to_string(cnt);
            r.append(" (");
            match t {
                OrphanTool::Pacman => r.append("pacman"),
                OrphanTool::Deborphan => r.append("deborphan"),
                OrphanTool::Dnf => r.append("dnf"),
                OrphanTool::Zypper => r.append("zypper"),
            }
            r.append(")");
            proof {
                assert(r@ =~= spec_orphans_value(tool, out@));
            }
            r
        },
    }
}

/// The first dot in `s` at or after `i`, or the length when there
/// is none.
pub open spec fn dot_idx(s: Seq<char>, i: int) -> int
    decreases s.len() - i,
{
    if i < 0 || i >= s.len() {
        s.len() as int
    } else if s[i] == '.' {
        i
    } else {
        dot_idx(s, i + 1)
    }
}

/// Ten to the power `k`.
pub open spec fn pow10(k: nat) -> nat
    decreases k,
{
    if k == 0 {
        1
    } else {
        10 * pow10((k - 1) as nat)
    }
}

/// A digit string's value stays under ten to its length.
proof fn lemma_digits_val_bound(s: Seq<char>)
    requires
        all_digits(s),
    ensures
        digits_val(s) < pow10(s.len()),
    decreases s.len(),
{
    if s.len() > 0 {
        assert(all_digits(s.drop_last())) by {
            assert(forall|k: int|
                0 <= k < s.drop_last().len() ==> s.drop_last()[k] == s[k] && is_digit(s[k]));
        }
        lemma_digits_val_bound(s.drop_last());
        assert(is_digit(s.last()));
        assert(digit_val(s.last()) <= 9);
    }
}

/// Powers of ten multiply by adding exponents.
proof fn lemma_pow10_adds(a: nat, b: nat)
    ensures
        pow10(a) * pow10(b) == pow10(a + b),
    decreases a,
{
    if a > 0 {
        lemma_pow10_adds((a - 1) as nat, b);
        assert((10 * pow10((a - 1) as nat)) * pow10(b) == 10 * (pow10((a - 1) as nat) * pow10(b)))
            by (nonlinear_arith);
        assert(pow10(a) == 10 * pow10((a - 1) as nat));
        assert(pow10(a + b) == 10 * pow10((a + b - 1) as nat));
        assert(pow10((a - 1) as nat + b) == pow10((a + b - 1) as nat));
        assert(pow10(a) * pow10(b) == pow10(a + b)) by (nonlinear_arith)
            requires
                pow10(a) == 10 * pow10((a - 1) as nat),
                pow10((a - 1) as nat) * pow10(b) == pow10((a - 1) as nat + b),
                pow10(a + b) == 10 * pow10((a + b - 1) as nat),
                pow10((a - 1) as nat + b) == pow10((a + b - 1) as nat),
                a > 0,
        ;
    } else {
        assert(pow10(a) == 1);
        assert(pow10(a) * pow10(b) == pow10(b)) by (nonlinear_arith)
            requires
                pow10(a) == 1,
        ;
        assert(a + b == b);
    }
}

/// The value of a fraction's first six digits, scaled to millionth
/// parts.
pub open spec fn frac6(fr: Seq<char>) -> nat {
    let f = if fr.len() > 6 {
        fr.take(6)
    } else {
        fr
    };
    digits_val(f) * pow10((6 - f.len()) as nat)
}

/// A processor-share column in millionth parts: digits with an
/// optional fraction, the whole part capped, anything else zero.
pub open spec fn fixed_val(s: Seq<char>) -> nat {
    let d = dot_idx(s, 0);
    let ip = s.take(d);
    let fp = if d < s.len() {
        s.skip(d + 1)
    } else {
        Seq::empty()
    };
    if ip.len() > 0 && all_digits(ip) && all_digits(fp) {
        if digits_val(ip) >= 1000000000000 {
            1000000000000000000
        } else {
            digits_val(ip) * 1000000 + frac6(fp)
        }
    } else {
        0
    }
}

/// The key a process row is ordered by: its third column as a
/// share, zero when the row is short.
pub open spec fn cpu_key(row: Seq<char>) -> nat {
    let t = token_seq(row);
    if t.len() >= 3 {
        fixed_val(t[2])
    } else {
        0
    }
}

/// Powers of ten grow with the exponent.
proof fn lemma_pow10_le(a: nat, b: nat)
    requires
        a <= b,
    ensures
        pow10(a) <= pow10(b),
    decreases b,
{
    if a < b {
        lemma_pow10_le(a, (b - 1) as nat);
    }
}

/// The first seven powers of ten.
proof fn lemma_pow10_vals()
    ensures
        pow10(0) == 1,
        pow10(1) == 10,
        pow10(2) == 100,
        pow10(3) == 1000,
        pow10(4) == 10000,
        pow10(5) == 100000,
        pow10(6) == 1000000,
{
    assert(pow10(0) == 1);
    assert(pow10(1) == 10);
    assert(pow10(2) == 100);
    assert(pow10(3) == 1000);
    assert(pow10(4) == 10000);
    assert(pow10(5) == 100000);
    assert(pow10(6) == 1000000);
}

/// Parses a share column into millionth parts.
#[verifier::loop_isolation(false)]
fn fixed_val_exec(s: &str) -> (r: u64)
    ensures
        r == fixed_val(s@),
{
    let n = s.unicode_len();
    let mut d: usize = 0;
    while d < n && s.get_char(d) != '.'
        invariant
            0 <= d <= n,
            n == s@.len(),
            dot_idx(s@, 0) == dot_idx(s@, d as int),
        decreases n - d,
    {
        d = d + 1;
    }
    proof {
        assert(dot_idx(s@, 0) == d as int);
    }
    let ghost ip = s@.take(d as int);
    let ghost fp = if (d as int) < s@.len() {
        s@.skip(d as int + 1)
    } else {
        Seq::<char>::empty()
    };
    if d == 0 {
        return 0;
    }
    let mut val: u64 = 0;
    let mut sat = false;
    let mut j: usize = 0;
    proof {
        assert(ip.take(0) =~= Seq::<char>::empty());
    }
    while j < d
        invariant
            0 <= j <= d,
            d <= n,
            n == s@.len(),
            ip == s@.take(d as int),
            ip.len() == d,
            forall|k: int| 0 <= k < j ==> is_digit(ip[k]),
            !sat ==> val == digits_val(ip.take(j as int)) && val < 1000000000000,
            sat ==> digits_val(ip.take(j as int)) >= 1000000000000,
        decreases d - j,
    {
        let c = s.get_char(j);
        proof {
            assert(ip[j as int] == s@[j as int]);
        }
        if !digit_test(c) {
            assert(!all_digits(ip));
            return 0;
        }
        let dg = digit_of(c);
        proof {
            assert(ip.take(j as int + 1).drop_last() =~= ip.take(j as int));
            assert(ip.take(j as int + 1).last() == ip[j as int]);
        }
        if !sat {
            let next = val * 10 + dg;
            proof {
                assert(digits_val(ip.take(j as int + 1)) == next);
            }
            if next >= 1000000000000 {
                sat = true;
            } else {
                val = next;
            }
        } else {
            proof {
                assert(digits_val(ip.take(j as int + 1)) >= digits_val(ip.take(j as int)));
            }
        }
        j = j + 1;
    }
    proof {
        assert(ip.take(d as int) =~= ip);
        assert(all_digits(ip));
    }
    let start: usize = if d < n {
        d + 1
    } else {
        n
    };
    let mut fval: u64 = 0;
    let mut flen: usize = 0;
    let ghost f = if fp.len() > 6 {
        fp.take(6)
    } else {
        fp
    };
    proof {
        assert(f.take(0) =~= Seq::<char>::empty());
        assert(fp.len() == n - start);
    }
    let mut k: usize = start;
    while k < n
        invariant
            start <= k <= n,
            n == s@.len(),
            start == (if (d as int) < s@.len() {
                d as int + 1
            } else {
                n as int
            }),
            fp == (if (d as int) < s@.len() {
                s@.skip(d as int + 1)
            } else {
                Seq::<char>::empty()
            }),
            f == (if fp.len() > 6 {
                fp.take(6)
            } else {
                fp
            }),
            fp.len() == n - start,
            flen == (if k - start > 6 {
                6int
            } else {
                k - start
            }),
            forall|q: int| 0 <= q < k - start ==> is_digit(fp[q]),
            fval == digits_val(f.take(flen as int)),
            fval < 1000000,
        decreases n - k,
    {
        let c = s.get_char(k);
        proof {
            assert(fp[k - start] == s@[k as int]);
        }
        if !digit_test(c) {
            assert(!all_digits(fp));
            return 0;
        }
        let dg = digit_of(c);
        if flen < 6 {
            proof {
                assert(f[flen as int] == fp[flen as int]);
                assert(f.take(flen as int + 1).drop_last() =~= f.take(flen as int));
                assert(f.take(flen as int + 1).last() == f[flen as int]);
            }
            fval = fval * 10 + dg;
            flen = flen + 1;
            proof {
                assert(forall|q: int| 0 <= q < flen ==> is_digit(f.take(flen as int)[q]));
                lemma_digits_val_bound(f.take(flen as int));
                lemma_pow10_le(flen as nat, 6);
                lemma_pow10_vals();
            }
        }
        k = k + 1;
    }
    proof {
        assert(all_digits(fp)) by {
            assert(forall|q: int| 0 <= q < fp.len() ==> is_digit(fp[q]));
        }
        assert(f.len() == flen);
        assert(f.take(flen as int) =~= f);
    }
    let mult: u64 = if flen == 0 {
        1000000
    } else if flen == 1 {
        100000
    } else if flen == 2 {
        10000
    } else if flen == 3 {
        1000
    } else if flen == 4 {
        100
    } else if flen == 5 {
        10
    } else {
        1
    };
    proof {
        lemma_pow10_vals();
        assert(mult == pow10((6 - flen) as nat));
        assert(fval * mult == frac6(fp));
        assert(fval * mult <= 999999 * 1000000) by (nonlinear_arith)
            requires
                fval < 1000000,
                mult <= 1000000,
        ;
        lemma_digits_val_bound(f);
        lemma_pow10_adds(f.len(), (6 - f.len()) as nat);
        assert(frac6(fp) < pow10(6)) by (nonlinear_arith)
            requires
                digits_val(f) < pow10(f.len()),
                frac6(fp) == digits_val(f) * pow10((6 - f.len()) as nat),
                pow10(f.len()) * pow10((6 - f.len()) as nat) == pow10(6),
                pow10((6 - f.len()) as nat) > 0,
        ;
    }
    let fscaled: u64 = fval * mult;
    if sat {
        return 1000000000000u64 * 1000000u64;
    }
    proof {
        lemma_pow10_vals();
        assert(val * 1000000 <= 999999999999u64 * 1000000) by (nonlinear_arith)
            requires
                val < 1000000000000,
        ;
    }
    val * 1000000 + fscaled
}

/// The key a process row is ordered by.
fn cpu_key_exec(row: &str) -> (r: u64)
    ensures
        r == cpu_key(row@),
{
    let parts = split_ws(row);
    if parts.len() >= 3 {
        proof {
            assert(parts.deep_view()[2] == parts@[2]@);
            assert(parts.deep_view().len() == parts@.len());
        }
        fixed_val_exec(parts[2].as_str())
    } else {
        proof {
            assert(parts.deep_view().len() == parts@.len());
        }
        0
    }
}

/// Places a row among already-ordered rows: before the first row
/// with a strictly smaller key, after every row with an equal one.
pub open spec fn insert_row(row: Seq<char>, sorted: Seq<Seq<char>>) -> Seq<Seq<char>>
    decreases sorted.len(),
{
    if sorted.len() == 0 {
        seq![row]
    } else if cpu_key(sorted[0]) < cpu_key(row) {
        seq![row] + sorted
    } else {
        seq![sorted[0]] + insert_row(row, sorted.drop_first())
    }
}

/// The rows ordered by descending key; rows with equal keys keep
/// their relative order.
pub open spec fn sort_rows(rows: Seq<Seq<char>>) -> Seq<Seq<char>>
    decreases rows.len(),
{
    if rows.len() == 0 {
        Seq::empty()
    } else {
        insert_row(rows.last(), sort_rows(rows.drop_last()))
    }
}

/// Where a row lands when inserted at the first strictly-smaller
/// key.
proof fn lemma_insert_at(row: Seq<char>, sorted: Seq<Seq<char>>, j: int)
    requires
        0 <= j <= sorted.len(),
        forall|k: int| 0 <= k < j ==> cpu_key(sorted[k]) >= cpu_key(row),
        j == sorted.len() || cpu_key(sorted[j]) < cpu_key(row),
    ensures
        insert_row(row, sorted) == sorted.take(j) + seq![row] + sorted.skip(j),
    decreases j,
{
    if j == 0 {
        if sorted.len() == 0 {
            assert(seq![row] =~= sorted.take(0) + seq![row] + sorted.skip(0));
        } else {
            assert(cpu_key(sorted[0]) < cpu_key(row));
            assert(seq![row] + sorted =~= sorted.take(0) + seq![row] + sorted.skip(0));
        }
    } else {
        assert(cpu_key(sorted[0]) >= cpu_key(row));
        let rest = sorted.drop_first();
        assert(forall|k: int| 0 <= k < j - 1 ==> cpu_key(rest[k]) >= cpu_key(row));
        assert(j - 1 == rest.len() || cpu_key(rest[j - 1]) < cpu_key(row));
        lemma_insert_at(row, rest, j - 1);
        assert(seq![sorted[0]] + (rest.take(j - 1) + seq![row] + rest.skip(j - 1)) =~= sorted.take(
            j,
        ) + seq![row] + sorted.skip(j));
    }
}

/// Orders the rows by descending key, keeping the relative order of
/// rows with equal keys.
#[verifier::loop_isolation(false)]
fn sort_rows_exec(rows: &Vec<String>) -> (r: Vec<String>)
    ensures
        r.deep_view() == sort_rows(rows.deep_view()),
{
    let ghost rdv = rows.deep_view();
    let mut out: Vec<String> = Vec::new();
    let mut i: usize = 0;
    proof {
        assert(rdv.take(0) =~= Seq::<Seq<char>>::empty());
        assert(out.deep_view() =~~= Seq::<Seq<char>>::empty());
    }
    while i < rows.len()
        invariant
            0 <= i <= rows.len(),
            out.deep_view() == sort_rows(rdv.take(i as int)),
            out@.len() == i,
        decreases rows.len() - i,
    {
        proof {
            assert(rdv[i as int] == rows@[i as int]@);
        }
        let key = cpu_key_exec(rows[i].as_str());
        let ghost old_dv = out.deep_view();
        let mut j: usize = 0;
        while j < out.len() && cpu_key_exec(out[j].as_str()) >= key
            invariant
                0 <= j <= out.len(),
                forall|k: int| 0 <= k < j ==> cpu_key(old_dv[k]) >= cpu_key(rdv[i as int]),
            decreases out.len() - j,
        {
            proof {
                assert(old_dv[j as int] == out@[j as int]@);
            }
            j = j + 1;
        }
        proof {
            if j < out@.len() {
                assert(old_dv[j as int] == out@[j as int]@);
                assert(cpu_key(old_dv[j as int]) < cpu_key(rdv[i as int]));
            }
            lemma_insert_at(rdv[i as int], old_dv, j as int);
        }
        out.insert(j, rows[i].clone());
        proof {
            assert(out.deep_view() =~~= old_dv.take(j as int) + seq![rdv[i as int]] + old_dv.skip(
                j as int,
            ));
            assert(rdv.take(i as int + 1).drop_last() =~= rdv.take(i as int));
            assert(rdv.take(i as int + 1).last() == rdv[i as int]);
            assert(out.deep_view() == sort_rows(rdv.take(i as int + 1)));
        }
        i = i + 1;
    }
    proof {
        assert(rdv.take(rows@.len() as int) =~= rdv);
    }
    out
}

/// Descending order by key, allowing equals.
pub open spec fn rows_sorted_desc(s: Seq<Seq<char>>) -> bool {
    forall|i: int, j: int| 0 <= i <= j < s.len() ==> cpu_key(s[i]) >= cpu_key(s[j])
}

/// Inserting a row adds exactly that row.
proof fn lemma_insert_row_multiset(row: Seq<char>, s: Seq<Seq<char>>)
    ensures
        insert_row(row, s).to_multiset() =~= s.to_multiset().insert(row),
    decreases s.len(),
{
    broadcast use vstd::seq_lib::group_to_multiset_ensures;

    if s.len() == 0 {
        assert(seq![row] =~= Seq::<Seq<char>>::empty().push(row));
        assert(s.to_multiset().len() == 0);
        assert(s.to_multiset() =~= Multiset::<Seq<char>>::empty());
    } else if cpu_key(s[0]) < cpu_key(row) {
        assert(seq![row] + s =~= s.insert(0, row));
        vstd::seq_lib::lemma_multiset_commutative(seq![row], s);
        assert(seq![row] =~= Seq::<Seq<char>>::empty().push(row));
        assert(Seq::<Seq<char>>::empty().to_multiset() =~= Multiset::<Seq<char>>::empty());
        assert(seq![row].to_multiset() =~= Multiset::<Seq<char>>::empty().insert(row));
        assert(Multiset::<Seq<char>>::empty().insert(row).add(s.to_multiset())
            =~= s.to_multiset().insert(row));
    } else {
        let rest = s.drop_first();
        lemma_insert_row_multiset(row, rest);
        vstd::seq_lib::lemma_multiset_commutative(seq![s[0]], insert_row(row, rest));
        assert(s =~= seq![s[0]] + rest);
        vstd::seq_lib::lemma_multiset_commutative(seq![s[0]], rest);
        assert(seq![s[0]].to_multiset().add(rest.to_multiset().insert(row)) =~= (seq![s[0]]
            .to_multiset()
            .add(rest.to_multiset())).insert(row));
    }
}

/// Inserting a row into rows in descending order keeps them in
/// descending order.
proof fn lemma_insert_row_sorted(row: Seq<char>, s: Seq<Seq<char>>)
    requires
        rows_sorted_desc(s),
    ensures
        rows_sorted_desc(insert_row(row, s)),
    decreases s.len(),
{
    broadcast use vstd::seq_lib::group_to_multiset_ensures;

    if s.len() == 0 {
    } else if cpu_key(s[0]) < cpu_key(row) {
        let r = seq![row] + s;
        assert forall|i: int, j: int| 0 <= i <= j < r.len() implies cpu_key(r[i]) >= cpu_key(
            r[j],
        ) by {
            if i == 0 && j > 0 {
                assert(cpu_key(s[0]) >= cpu_key(s[j - 1]));
            }
        }
    } else {
        let rest = s.drop_first();
        assert(rows_sorted_desc(rest)) by {
            assert forall|i: int, j: int| 0 <= i <= j < rest.len() implies cpu_key(rest[i])
                >= cpu_key(rest[j]) by {
                assert(rest[i] == s[i + 1]);
                assert(rest[j] == s[j + 1]);
                assert(cpu_key(s[i + 1]) >= cpu_key(s[j + 1]));
            }
        }
        lemma_insert_row_sorted(row, rest);
        lemma_insert_row_multiset(row, rest);
        let inner = insert_row(row, rest);
        let r = seq![s[0]] + inner;
        assert forall|k: int| 0 <= k < inner.len() implies cpu_key(s[0]) >= cpu_key(
            inner[k],
        ) by {
            assert(inner.contains(inner[k]));
            assert(inner.to_multiset().count(inner[k]) > 0);
            if inner[k] == row {
            } else {
                assert(rest.to_multiset().count(inner[k]) > 0);
                assert(rest.contains(inner[k]));
                let w = choose|w: int| 0 <= w < rest.len() && rest[w] == inner[k];
                assert(cpu_key(s[0]) >= cpu_key(s[w + 1]));
            }
        }
        assert forall|i: int, j: int| 0 <= i <= j < r.len() implies cpu_key(r[i]) >= cpu_key(
            r[j],
        ) by {
            if i == 0 && j > 0 {
                assert(cpu_key(s[0]) >= cpu_key(inner[j - 1]));
            } else if i > 0 {
                assert(cpu_key(inner[i - 1]) >= cpu_key(inner[j - 1]));
            }
        }
    }
}

/// The re-ordered rows are exactly the given rows: none is lost,
/// none is invented.
pub proof fn lemma_sort_rows_permutes(rows: Seq<Seq<char>>)
    ensures
        sort_rows(rows).to_multiset() =~= rows.to_multiset(),
    decreases rows.len(),
{
    broadcast use vstd::seq_lib::group_to_multiset_ensures;

    if rows.len() == 0 {
    } else {
        lemma_sort_rows_permutes(rows.drop_last());
        lemma_insert_row_multiset(rows.last(), sort_rows(rows.drop_last()));
        assert(rows =~= rows.drop_last().push(rows.last()));
    }
}

/// The re-ordered rows stand in descending order of their share
/// key.
pub proof fn lemma_sort_rows_sorted(rows: Seq<Seq<char>>)
    ensures
        rows_sorted_desc(sort_rows(rows)),
    decreases rows.len(),
{
    if rows.len() > 0 {
        lemma_sort_rows_sorted(rows.drop_last());
        lemma_insert_row_sorted(rows.last(), sort_rows(rows.drop_last()));
    }
}

/// Picks the rows whose key is `k`.
pub open spec fn key_is(k: nat) -> spec_fn(Seq<char>) -> bool {
    |r: Seq<char>| cpu_key(r) == k
}

/// Filtering rows none of which carry the key gives nothing.
proof fn lemma_filter_no_match(s: Seq<Seq<char>>, k: nat)
    requires
        forall|i: int| 0 <= i < s.len() ==> cpu_key(s[i]) != k,
    ensures
        s.filter(key_is(k)) == Seq::<Seq<char>>::empty(),
    decreases s.len(),
{
    reveal_with_fuel(Seq::filter, 2);
    if s.len() > 0 {
        assert(forall|i: int|
            0 <= i < s.drop_last().len() ==> cpu_key(s.drop_last()[i]) != k);
        lemma_filter_no_match(s.drop_last(), k);
        assert(!key_is(k)(s.last()));
    }
}

/// Where an inserted row lands among the rows that share its key:
/// after all of them, and rows with other keys are untouched.
proof fn lemma_insert_row_filter(row: Seq<char>, s: Seq<Seq<char>>, k: nat)
    requires
        rows_sorted_desc(s),
    ensures
        insert_row(row, s).filter(key_is(k)) == if k == cpu_key(row) {
            s.filter(key_is(k)).push(row)
        } else {
            s.filter(key_is(k))
        },
    decreases s.len(),
{
    reveal_with_fuel(Seq::filter, 2);
    if s.len() == 0 {
        assert(seq![row].drop_last() =~= Seq::<Seq<char>>::empty());
        assert(seq![row].filter(key_is(k)) == if key_is(k)(row) {
            Seq::<Seq<char>>::empty().push(row)
        } else {
            Seq::<Seq<char>>::empty()
        });
        if k == cpu_key(row) {
            assert(Seq::<Seq<char>>::empty().push(row) =~= s.filter(key_is(k)).push(row));
        }
    } else if cpu_key(s[0]) < cpu_key(row) {
        Seq::filter_distributes_over_add(seq![row], s, key_is(k));
        assert(seq![row].drop_last() =~= Seq::<Seq<char>>::empty());
        if k == cpu_key(row) {
            assert forall|i: int| 0 <= i < s.len() implies cpu_key(s[i]) != k by {
                assert(cpu_key(s[0]) >= cpu_key(s[i]));
            }
            lemma_filter_no_match(s, k);
            assert(seq![row].filter(key_is(k)) =~= Seq::<Seq<char>>::empty().push(row));
            assert(seq![row].filter(key_is(k)) + Seq::<Seq<char>>::empty() =~= s.filter(
                key_is(k),
            ).push(row));
        } else {
            assert(seq![row].filter(key_is(k)) =~= Seq::<Seq<char>>::empty());
            assert(Seq::<Seq<char>>::empty() + s.filter(key_is(k)) =~= s.filter(key_is(k)));
        }
    } else {
        let rest = s.drop_first();
        assert(rows_sorted_desc(rest)) by {
            assert forall|i: int, j: int| 0 <= i <= j < rest.len() implies cpu_key(rest[i])
                >= cpu_key(rest[j]) by {
                assert(rest[i] == s[i + 1]);
                assert(rest[j] == s[j + 1]);
                assert(cpu_key(s[i + 1]) >= cpu_key(s[j + 1]));
            }
        }
        lemma_insert_row_filter(row, rest, k);
        let inner = insert_row(row, rest);
        Seq::filter_distributes_over_add(seq![s[0]], inner, key_is(k));
        Seq::filter_distributes_over_add(seq![s[0]], rest, key_is(k));
        assert(s =~= seq![s[0]] + rest);
        if k == cpu_key(row) {
            assert(seq![s[0]].filter(key_is(k)) + rest.filter(key_is(k)).push(row) =~= (seq![
                s[0],
            ].filter(key_is(k)) + rest.filter(key_is(k))).push(row));
        }
    }
}

/// Rows that share a key keep their relative order: for every key,
/// the re-ordered rows filtered to that key are exactly the given
/// rows filtered to it, in the same order.
pub proof fn lemma_sort_rows_stable(rows: Seq<Seq<char>>, k: nat)
    ensures
        sort_rows(rows).filter(key_is(k)) == rows.filter(key_is(k)),
    decreases rows.len(),
{
    reveal_with_fuel(Seq::filter, 2);
    if rows.len() > 0 {
        lemma_sort_rows_stable(rows.drop_last(), k);
        lemma_sort_rows_sorted(rows.drop_last());
        lemma_insert_row_filter(rows.last(), sort_rows(rows.drop_last()), k);
    }
}

/// Rows joined after the header, each preceded by a separator.
pub open spec fn join_rows(rows: Seq<Seq<char>>) -> Seq<char>
    decreases rows.len(),
{
    if rows.len() == 0 {
        Seq::empty()
    } else {
        join_rows(rows.drop_last()) + " | "@ + rows.last()
    }
}

/// Trims each row.
pub open spec fn trim_map() -> spec_fn(Seq<char>) -> Seq<char> {
    |l: Seq<char>| trimmed(l)
}

/// The process listing value: the header line kept as it is, then
/// at most eight rows, trimmed, re-ordered by descending share with
/// ties keeping their order, each after a separator. The sentinel
/// when the listing tool is not installed, and a default header
/// when the listing is empty.
pub open spec fn spec_processes_value(out: Option<Seq<char>>) -> Seq<char> {
    match out {
        None => "ps not installed"@,
        Some(s) => {
            let ls = line_seq(s);
            let header = if ls.len() == 0 {
                "PID COMMAND %CPU %MEM"@
            } else {
                ls[0]
            };
            let rows0 = if ls.len() == 0 {
                Seq::empty()
            } else {
                ls.drop_first()
            };
            let rows1 = if rows0.len() > 8 {
                rows0.take(8)
            } else {
                rows0
            };
            header + join_rows(sort_rows(rows1.map_values(trim_map())))
        },
    }
}

/// Derives the process listing value from the listing tool's
/// output, when the tool is installed.
#[verifier::loop_isolation(false)]
pub fn processes_value(out: Option<&str>) -> (r: String)
    ensures
        r@ == spec_processes_value(match out {
            Some(s) => Some(s@),
            None => None,
        }),
{
    match out {
        None => String::from_str("ps not installed"),
        Some(s) => {
            let ls = to_lines(s);
            let ghost dv = ls.deep_view();
            let n = ls.len();
            let header = if n == 0 {
                String::from_str("PID COMMAND %CPU %MEM")
            } else {
                ls[0].clone()
            };
            let ghost rows0 = if dv.len() == 0 {
                Seq::<Seq<char>>::empty()
            } else {
                dv.drop_first()
            };
            let ghost rows1 = if rows0.len() > 8 {
                rows0.take(8)
            } else {
                rows0
            };
            let m: usize = if n >= 9 {
                9
            } else {
                n
            };
            let mut rows: Vec<String> = Vec::new();
            let mut t: usize = 1;
            proof {
                assert(rows.deep_view() =~~= Seq::<Seq<char>>::empty());
                if dv.len() > 0 {
                    assert(dv.subrange(1, 1) =~= Seq::<Seq<char>>::empty());
                    assert(dv.subrange(1, 1).map_values(trim_map()) =~~= Seq::<Seq<char>>::empty());
                }
            }
            while t < m
                invariant
                    1 <= t <= m || (m == 0 && t == 1),
                    m <= n,
                    n == dv.len(),
                    m == if n >= 9 {
                        9int
                    } else {
                        n as int
                    },
                    n > 0 ==> rows.deep_view() == dv.subrange(1, t as int).map_values(trim_map()),
                    n == 0 ==> rows.deep_view() == Seq::<Seq<char>>::empty(),
                decreases m - t,
            {
                proof {
                    assert(dv[t as int] == ls@[t as int]@);
                }
                let tr = trim(ls[t].as_str());
                let ghost old_rdv = rows.deep_view();
                rows.push(tr);
                proof {
                    assert(rows.deep_view() =~~= old_rdv.push(trimmed(dv[t as int])));
                    assert(dv.subrange(1, t as int + 1).map_values(trim_map()) =~~= dv.subrange(
                        1,
                        t as int,
                    ).map_values(trim_map()).push(trim_map()(dv[t as int])));
                }
                t = t + 1;
            }
            proof {
                if n > 0 {
                    assert(dv.subrange(1, m as int) =~= rows1);
                    assert(rows.deep_view() == rows1.map_values(trim_map()));
                } else {
                    assert(rows1 =~= Seq::<Seq<char>>::empty());
                    assert(rows1.map_values(trim_map()) =~~= Seq::<Seq<char>>::empty());
                    assert(rows.deep_view() =~~= rows1.map_values(trim_map()));
                }
            }
            let sorted = sort_rows_exec(&rows);
            let ghost sdv = sorted.deep_view();
            let mut outstr = header;
            let ghost hdr = outstr@;
            let sn = sorted.len();
            let mut q: usize = 0;
            proof {
                assert(sdv.take(0) =~= Seq::<Seq<char>>::empty());
                assert(outstr@ + join_rows(sdv.take(0)) =~= outstr@);
            }
            while q < sn
                invariant
                    0 <= q <= sn,
                    sn == sdv.len(),
                    outstr@ == hdr + join_rows(sdv.take(q as int)),
                decreases sn - q,
            {
                proof {
                    assert(sdv[q as int] == sorted@[q as int]@);
                    assert(sdv.take(q as int + 1).drop_last() =~= sdv.take(q as int));
                    assert(sdv.take(q as int + 1).last() == sdv[q as int]);
                }
                outstr.append(" | ");
                outstr.append(sorted[q].as_str());
                proof {
                    assert(outstr@ =~= hdr + join_rows(sdv.take(q as int + 1)));
                }
                q = q + 1;
            }
            proof {
                assert(sdv.take(sn as int) =~= sdv);
                assert(outstr@ =~= spec_processes_value(Some(s@)));
            }
            outstr
        },
    }
}

/// When no jiffies elapse between the two samples, the usage value
/// is the sentinel: the elapsed count is never divided by.
pub proof fn lemma_cpu_usage_no_elapsed(ta: u64, ia: u64, tb: u64, ib: u64)
    requires
        tb.saturating_sub(ta) == 0,
    ensures
        spec_cpu_usage_value(ta, ia, tb, ib) == "unknown"@,
{
}

/// Without a default interface every interface metric reads as the
/// sentinel, whatever the other probes returned.
pub proof fn lemma_net_unknown_without_interface(
    routes: Option<Seq<char>>,
    devices: Seq<Seq<char>>,
    oper: Option<Seq<char>>,
    ip_out: Option<Seq<char>>,
    rx: Option<u64>,
    tx: Option<u64>,
)
    requires
        spec_default_interface(routes, devices) is None,
    ensures
        spec_net_status_value(spec_default_interface(routes, devices), oper) == "unknown"@,
        spec_net_ip_value(spec_default_interface(routes, devices), ip_out) == "unknown"@,
        spec_net_traffic_value(spec_default_interface(routes, devices), rx, tx) == "unknown"@,
{
}

} // verus!
