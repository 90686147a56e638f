//! The daemon's configuration, with its stock values. Loading the file and
//! creating directories are I/O left to the surrounding program.

use vstd::prelude::*;
use vstd::string::StringExecFns;

verus! {

/// Everything the daemon reads from its configuration file.
pub struct Config {
    pub socket_path: String,
    pub max_concurrent_jobs: usize,
    pub max_job_queue_size: usize,
    pub default_block_size: u64,
    pub max_rate_mbps: Option<u64>,
    pub metrics_bind_addr: Option<String>,
    pub log_level: String,
    pub job_history_days: u32,
    pub checkpoint_interval_secs: u64,
    pub temp_dir: String,
    pub enable_compression: bool,
    pub enable_encryption: bool,
    pub io_uring_entries: u32,
    pub watchdog_enabled: bool,
    pub checkpoint_dir: String,
}

/// Relies on num_cpus::get: the number of available logical CPUs, which is
/// always at least one.
#[verifier::external_body]
fn logical_cpus() -> (r: usize)
    ensures
        r >= 1,
{
    num_cpus::get()
}

impl Default for Config {
    /// The stock configuration: the well-known socket path, one concurrent
    /// job per logical CPU, 1 MiB blocks, metrics on the local loopback,
    /// and the standard state directories.
    fn default() -> (r: Config)
        ensures
            r.socket_path@ == "/run/copyd/copyd.sock"@,
            r.max_concurrent_jobs >= 1,
            r.max_job_queue_size == 1000,
            r.default_block_size == 0x100000,
            r.max_rate_mbps is None,
            r.metrics_bind_addr matches Some(a) && a@ == "127.0.0.1:9090"@,
            r.log_level@ == "info"@,
            r.job_history_days == 30,
            r.checkpoint_interval_secs == 5,
            r.temp_dir@ == "/tmp/copyd"@,
            !r.enable_compression,
            !r.enable_encryption,
            r.io_uring_entries == 256,
            r.watchdog_enabled,
            r.checkpoint_dir@ == "/var/lib/copyd/checkpoints"@,
    {
        Config {
            socket_path: "/run/copyd/copyd.sock".to_owned(),
            max_concurrent_jobs: logical_cpus(),
            max_job_queue_size: 1000,
            default_block_size: 0x100000,
            max_rate_mbps: None,
            metrics_bind_addr: Some("127.0.0.1:9090".to_owned()),
            log_level: "info".to_owned(),
            job_history_days: 30,
            checkpoint_interval_secs: 5,
            temp_dir: "/tmp/copyd".to_owned(),
            enable_compression: false,
            enable_encryption: false,
            io_uring_entries: 256,
            watchdog_enabled: true,
            checkpoint_dir: "/var/lib/copyd/checkpoints".to_owned(),
        }
    }
}

} // verus!
