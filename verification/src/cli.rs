//! The subcommand surface: one enum per command group. These carry no
//! argument-parser attributes; the thin front-end around the library
//! mirrors them for its command line and converts.
use vstd::prelude::*;

verus! {

pub struct Cli {
    pub command: Commands,
}

pub enum Commands {
    Pacman(PacmanCmd),
    Aur(AurCmd),
    Systemd(SystemdCmd),
    Users(UsersCmd),
    Network(NetworkCmd),
    Logs(LogsCmd),
    Hardware(HardwareCmd),
    Disks(DisksCmd),
    Snapshots(SnapshotsCmd),
    Health(HealthCmd),
    Updates(UpdatesCmd),
    News(NewsCmd),
    Metrics(MetricsCmd),
}

pub enum PacmanCmd {
    Update,
    Upgrade,
    Install { pkgs: Vec<String> },
    Remove { pkgs: Vec<String> },
    Search { query: String },
    Info { pkg: String },
    Clean,
}

pub enum AurCmd {
    Install { pkg: String },
    Update,
}

pub enum SystemdCmd {
    Status { service: String },
    Start { service: String },
    Stop { service: String },
    Restart { service: String },
    Enable { service: String },
    Disable { service: String },
    List,
}

pub enum UsersCmd {
    Add { user: String },
    Del { user: String },
    Passwd { user: String },
    List,
}

pub enum NetworkCmd {
    List,
    Up { iface: String },
    Down { iface: String },
    WifiScan,
}

pub enum LogsCmd {
    Tail { lines: u32 },
    Service { service: String },
    Boot,
}

pub enum HardwareCmd {
    Cpu,
    Mem,
    Gpu,
    Usb,
    Pci,
}

pub enum DisksCmd {
    List,
    Mounts,
}

pub enum SnapshotsCmd {
    List,
    Create { name: String },
    Delete { name: String },
}

pub enum HealthCmd {
    Summary,
    Full,
    Services,
    Disk,
    Memory,
    Cpu,
    Kernel,
}

pub enum MetricsCmd {
    All,
    Ram,
    CpuTemp,
    CpuUsage,
    Gpu,
    GpuTemp,
    GpuUsage,
    Battery,
    BatteryHealth,
    Load,
    MemUsage,
    NetStatus,
    NetIp,
    NetTraffic,
    Orphans,
    Processes,
    Uptime,
}

pub enum UpdatesCmd {
    Check,
    List,
}

pub enum NewsCmd {
    Latest,
}

} // verus!
