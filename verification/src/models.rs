//! The data model: device records, statistics snapshots, configurations,
//! credentials, commands and results.
//!
//! Hashrates are held in thousandths of a TH/s and temperatures in
//! thousandths of a degree Celsius, so that every reading is an exact
//! integer. A field that a vendor or firmware does not report is `None`,
//! never a sentinel zero: zero is a valid reading.

use vstd::prelude::*;

verus! {

/// Health state of a miner.
#[derive(Debug, Clone, Copy, PartialEq, Eq, Structural)]
pub enum MinerStatus {
    /// Responding, temperature below threshold, hashrate positive.
    Active,
    /// Responding, but too hot or not hashing.
    Warning,
    /// Connection timeout or no response.
    Dead,
    /// Initial discovery phase; never re-entered.
    Scanning,
}

/// One normalized statistics snapshot.
pub struct MinerStats {
    /// Real-time hashrate, thousandths of a TH/s.
    pub hashrate_rt: i64,
    /// Average hashrate, thousandths of a TH/s.
    pub hashrate_avg: i64,
    /// Chip-side temperatures per hash board, thousandths of a degree.
    pub temp_outlet_min: Vec<Option<i64>>,
    pub temp_outlet_max: Vec<Option<i64>>,
    /// Board-side temperatures per hash board, thousandths of a degree.
    pub temp_inlet_min: Vec<Option<i64>>,
    pub temp_inlet_max: Vec<Option<i64>>,
    /// Fan speeds in RPM.
    pub fan_speeds: Vec<Option<u32>>,
    /// Uptime in seconds.
    pub uptime: u64,
    pub pool1: Option<String>,
    pub worker1: Option<String>,
    pub pool2: Option<String>,
    pub worker2: Option<String>,
    pub pool3: Option<String>,
    pub worker3: Option<String>,
    pub model: Option<String>,
    pub firmware: Option<String>,
    pub software: Option<String>,
    pub hardware: Option<String>,
    pub mac_address: Option<String>,
}

/// Value equality of two snapshots: scalar fields equal, sequence fields
/// equal element for element.
pub open spec fn stats_eq(a: MinerStats, b: MinerStats) -> bool {
    &&& a.hashrate_rt == b.hashrate_rt
    &&& a.hashrate_avg == b.hashrate_avg
    &&& a.temp_outlet_min@ == b.temp_outlet_min@
    &&& a.temp_outlet_max@ == b.temp_outlet_max@
    &&& a.temp_inlet_min@ == b.temp_inlet_min@
    &&& a.temp_inlet_max@ == b.temp_inlet_max@
    &&& a.fan_speeds@ == b.fan_speeds@
    &&& a.uptime == b.uptime
    &&& a.pool1 == b.pool1
    &&& a.worker1 == b.worker1
    &&& a.pool2 == b.pool2
    &&& a.worker2 == b.worker2
    &&& a.pool3 == b.pool3
    &&& a.worker3 == b.worker3
    &&& a.model == b.model
    &&& a.firmware == b.firmware
    &&& a.software == b.software
    &&& a.hardware == b.hardware
    &&& a.mac_address == b.mac_address
}

fn clone_opt_i64_vec(v: &Vec<Option<i64>>) -> (r: Vec<Option<i64>>)
    ensures
        r@ == v@,
{
    let mut out: Vec<Option<i64>> = Vec::new();
    let mut i: usize = 0;
    while i < v.len()
        invariant
            0 <= i <= v@.len(),
            out@ == v@.subrange(0, i as int),
        decreases v@.len() - i,
    {
        out.push(v[i]);
        proof {
            assert(v@.subrange(0, i + 1) =~= v@.subrange(0, i as int).push(v@[i as int]));
        }
        i = i + 1;
    }
    proof {
        assert(v@.subrange(0, v@.len() as int) =~= v@);
    }
    out
}

fn clone_opt_u32_vec(v: &Vec<Option<u32>>) -> (r: Vec<Option<u32>>)
    ensures
        r@ == v@,
{
    let mut out: Vec<Option<u32>> = Vec::new();
    let mut i: usize = 0;
    while i < v.len()
        invariant
            0 <= i <= v@.len(),
            out@ == v@.subrange(0, i as int),
        decreases v@.len() - i,
    {
        out.push(v[i]);
        proof {
            assert(v@.subrange(0, i + 1) =~= v@.subrange(0, i as int).push(v@[i as int]));
        }
        i = i + 1;
    }
    proof {
        assert(v@.subrange(0, v@.len() as int) =~= v@);
    }
    out
}

/// Copy an optional string, preserving its value exactly.
pub fn clone_opt_string(o: &Option<String>) -> (r: Option<String>)
    ensures
        r == *o,
{
    match o {
        Some(s) => Some(s.clone()),
        None => None,
    }
}

impl MinerStats {
    /// An exact copy of the snapshot.
    pub fn duplicate(&self) -> (r: MinerStats)
        ensures
            stats_eq(r, *self),
    {
        MinerStats {
            hashrate_rt: self.hashrate_rt,
            hashrate_avg: self.hashrate_avg,
            temp_outlet_min: clone_opt_i64_vec(&self.temp_outlet_min),
            temp_outlet_max: clone_opt_i64_vec(&self.temp_outlet_max),
            temp_inlet_min: clone_opt_i64_vec(&self.temp_inlet_min),
            temp_inlet_max: clone_opt_i64_vec(&self.temp_inlet_max),
            fan_speeds: clone_opt_u32_vec(&self.fan_speeds),
            uptime: self.uptime,
            pool1: clone_opt_string(&self.pool1),
            worker1: clone_opt_string(&self.worker1),
            pool2: clone_opt_string(&self.pool2),
            worker2: clone_opt_string(&self.worker2),
            pool3: clone_opt_string(&self.pool3),
            worker3: clone_opt_string(&self.worker3),
            model: clone_opt_string(&self.model),
            firmware: clone_opt_string(&self.firmware),
            software: clone_opt_string(&self.software),
            hardware: clone_opt_string(&self.hardware),
            mac_address: clone_opt_string(&self.mac_address),
        }
    }
}

/// Whether a snapshot is the all-empty one: no readings, zero rates.
pub open spec fn stats_is_default(s: MinerStats) -> bool {
    &&& s.hashrate_rt == 0
    &&& s.hashrate_avg == 0
    &&& s.temp_outlet_min@ == seq![None::<i64>, None::<i64>, None::<i64>]
    &&& s.temp_outlet_max@ == seq![None::<i64>, None::<i64>, None::<i64>]
    &&& s.temp_inlet_min@ == seq![None::<i64>, None::<i64>, None::<i64>]
    &&& s.temp_inlet_max@ == seq![None::<i64>, None::<i64>, None::<i64>]
    &&& s.fan_speeds@ == seq![None::<u32>, None::<u32>, None::<u32>, None::<u32>]
    &&& s.uptime == 0
    &&& s.pool1 is None && s.worker1 is None
    &&& s.pool2 is None && s.worker2 is None
    &&& s.pool3 is None && s.worker3 is None
    &&& s.model is None && s.firmware is None && s.software is None
    &&& s.hardware is None && s.mac_address is None
}

impl Default for MinerStats {
    /// The empty snapshot: three vacant temperature slots per group,
    /// four vacant fan slots, zero rates and uptime, no labels.
    fn default() -> (r: MinerStats)
        ensures
            stats_is_default(r),
    {
        let mut tom: Vec<Option<i64>> = Vec::new();
        tom.push(None);
        tom.push(None);
        tom.push(None);
        let mut tox: Vec<Option<i64>> = Vec::new();
        tox.push(None);
        tox.push(None);
        tox.push(None);
        let mut tim: Vec<Option<i64>> = Vec::new();
        tim.push(None);
        tim.push(None);
        tim.push(None);
        let mut tix: Vec<Option<i64>> = Vec::new();
        tix.push(None);
        tix.push(None);
        tix.push(None);
        let mut fans: Vec<Option<u32>> = Vec::new();
        fans.push(None);
        fans.push(None);
        fans.push(None);
        fans.push(None);
        proof {
            assert(tom@ =~= seq![None::<i64>, None::<i64>, None::<i64>]);
            assert(tox@ =~= seq![None::<i64>, None::<i64>, None::<i64>]);
            assert(tim@ =~= seq![None::<i64>, None::<i64>, None::<i64>]);
            assert(tix@ =~= seq![None::<i64>, None::<i64>, None::<i64>]);
            assert(fans@ =~= seq![None::<u32>, None::<u32>, None::<u32>, None::<u32>]);
        }
        MinerStats {
            hashrate_rt: 0,
            hashrate_avg: 0,
            temp_outlet_min: tom,
            temp_outlet_max: tox,
            temp_inlet_min: tim,
            temp_inlet_max: tix,
            fan_speeds: fans,
            uptime: 0,
            pool1: None,
            worker1: None,
            pool2: None,
            worker2: None,
            pool3: None,
            worker3: None,
            model: None,
            firmware: None,
            software: None,
            hardware: None,
            mac_address: None,
        }
    }
}

/// Identity and last known state of one appliance. The address is its
/// unique key and never changes once the record exists.
pub struct Miner {
    pub ip: String,
    pub model: Option<String>,
    pub status: MinerStatus,
    pub stats: MinerStats,
    /// Unix timestamp of the last successful or failed poll attempt.
    pub last_updated: u64,
}

/// Value equality of two device records.
pub open spec fn miner_eq(a: Miner, b: Miner) -> bool {
    &&& a.ip == b.ip
    &&& a.model == b.model
    &&& a.status == b.status
    &&& stats_eq(a.stats, b.stats)
    &&& a.last_updated == b.last_updated
}

impl Miner {
    /// An exact copy of the record.
    pub fn duplicate(&self) -> (r: Miner)
        ensures
            miner_eq(r, *self),
    {
        Miner {
            ip: self.ip.clone(),
            model: clone_opt_string(&self.model),
            status: self.status,
            stats: self.stats.duplicate(),
            last_updated: self.last_updated,
        }
    }
}

/// A username/password pair for one vendor family.
#[derive(Debug, Clone)]
pub struct MinerCredentials {
    pub username: String,
    pub password: String,
}

impl MinerCredentials {
    pub fn new(username: String, password: String) -> (r: MinerCredentials)
        ensures
            r.username == username,
            r.password == password,
    {
        MinerCredentials { username, password }
    }
}

impl Default for MinerCredentials {
    fn default() -> (r: MinerCredentials)
        ensures
            r.username@ == "root"@,
            r.password@ == "root"@,
    {
        MinerCredentials {
            username: String::from_str("root"),
            password: String::from_str("root"),
        }
    }
}

/// Externally persisted user settings handed into the core.
#[derive(Debug, Clone)]
pub struct AppSettings {
    pub antminer_credentials: MinerCredentials,
    pub whatsminer_credentials: MinerCredentials,
    pub scan_thread_count: u32,
    pub monitor_interval: u64,
}

impl Default for AppSettings {
    fn default() -> (r: AppSettings)
        ensures
            r.antminer_credentials.username@ == "root"@,
            r.antminer_credentials.password@ == "root"@,
            r.whatsminer_credentials.username@ == "admin"@,
            r.whatsminer_credentials.password@ == "admin"@,
            r.scan_thread_count == 32,
            r.monitor_interval == 30,
    {
        AppSettings {
            antminer_credentials: MinerCredentials::default(),
            whatsminer_credentials: MinerCredentials::new(
                String::from_str("admin"),
                String::from_str("admin"),
            ),
            scan_thread_count: 32,
            monitor_interval: 30,
        }
    }
}

/// A mining pool configuration entry.
#[derive(Debug, Clone)]
pub struct PoolConfig {
    pub url: String,
    pub worker: String,
    pub password: String,
}

/// Command to execute on miners.
#[derive(Debug, Clone)]
pub enum MinerCommand {
    Reboot,
    BlinkLed,
    StopBlink,
    SetPools { pools: Vec<PoolConfig> },
    SetPowerMode { sleep: bool },
}

/// Result of one address within a batch command execution.
#[derive(Debug, Clone)]
pub struct CommandResult {
    pub ip: String,
    pub success: bool,
    pub error: Option<String>,
}

/// Configuration for network scanning.
#[derive(Debug, Clone)]
pub struct ScanConfig {
    pub timeout_ms: u64,
    pub max_concurrent: usize,
    /// Candidate status ports, tried in order; first responder wins.
    pub ports: Vec<u16>,
}

impl Default for ScanConfig {
    fn default() -> (r: ScanConfig)
        ensures
            r.timeout_ms == 500,
            r.max_concurrent == 100,
            r.ports@ == seq![4028u16],
    {
        let mut ports: Vec<u16> = Vec::new();
        ports.push(4028);
        proof {
            assert(ports@ =~= seq![4028u16]);
        }
        ScanConfig { timeout_ms: 500, max_concurrent: 100, ports }
    }
}

/// Configuration for the monitor's polling loop.
#[derive(Debug, Clone)]
pub struct MonitorConfig {
    pub poll_interval_ms: u64,
    pub retry_attempts: u8,
    /// Warning threshold, thousandths of a degree Celsius.
    pub warning_temp_threshold: i64,
    /// Hashrate-ratio warning threshold in thousandths; declared but not
    /// evaluated against a baseline by the current transition rule.
    pub warning_hashrate_ratio: u32,
    pub timeout_ms: u64,
    pub port: u16,
}

impl Default for MonitorConfig {
    fn default() -> (r: MonitorConfig)
        ensures
            r.poll_interval_ms == 10000,
            r.retry_attempts == 2,
            r.warning_temp_threshold == 85000,
            r.warning_hashrate_ratio == 900,
            r.timeout_ms == 1500,
            r.port == 4028,
    {
        MonitorConfig {
            poll_interval_ms: 10000,
            retry_attempts: 2,
            warning_temp_threshold: 85000,
            warning_hashrate_ratio: 900,
            timeout_ms: 1500,
            port: 4028,
        }
    }
}

} // verus!
