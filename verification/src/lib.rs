//! Verified core of a system-administration front-end: planning of the
//! external commands each subcommand runs, and the metrics layer that
//! parses and formats what system tools and kernel pseudo-files report.
pub mod aur;
pub mod cli;
pub mod cmd;
pub mod disks;
pub mod error;
pub mod hardware;
pub mod health;
pub mod logs;
pub mod metrics;
pub mod network;
pub mod news;
pub mod pacman;
pub mod snapshots;
pub mod systemd;
pub mod text;
pub mod updates;
pub mod users;
