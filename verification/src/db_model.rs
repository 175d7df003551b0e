//! Values read from the database: connection settings, the scheduler's
//! runtime settings with their limits, and the fingerprint of the
//! topology tables by which a reload is skipped when nothing changed.

use vstd::prelude::*;

verus! {

/// How to reach PostgreSQL.
#[derive(Clone, Debug)]
pub struct DbConfig {
    pub host: String,
    pub port: u16,
    pub db: String,
    pub user: String,
    pub pass: String,
}

/// Runtime settings of the scheduler, as stored in `scheduler_runtime_cfg`.
#[derive(Clone, Copy, Debug, PartialEq, Eq)]
pub struct SchedulerRuntimeCfg {
    pub no_response_failures: u8,
    pub no_response_backoff_sec: u64,
    pub metrics_p95_warn_ms: u64,
    pub metrics_p95_crit_ms: u64,
    pub modbus_a_timeout_ms: u64,
    pub modbus_script_timeout_ms: u64,
}

/// `v` limited to `lo..=hi`.
pub open spec fn clamp_spec(v: int, lo: int, hi: int) -> int {
    if v < lo { lo } else if v > hi { hi } else { v }
}

fn clamp_i64(v: i64, lo: i64, hi: i64) -> (r: i64)
    requires
        lo <= hi,
    ensures
        r == clamp_spec(v as int, lo as int, hi as int),
{
    if v < lo {
        lo
    } else if v > hi {
        hi
    } else {
        v
    }
}

/// The runtime settings from a full row, each limited to its range:
/// failures 1..=20, back-off 1..=86400 s, p95 warning 100..=60000 ms, p95
/// critical from the stored warning value up to 120000 ms, timeouts
/// 200..=30000 ms.
pub fn runtime_cfg_from_row(fails: i32, backoff: i64, p95_warn: i64, p95_crit: i64, a_timeout: i64, script_timeout: i64)
    -> (c: SchedulerRuntimeCfg)
    requires
        p95_warn <= 120_000,
    ensures
        c.no_response_failures == clamp_spec(fails as int, 1, 20),
        c.no_response_backoff_sec == clamp_spec(backoff as int, 1, 86_400),
        c.metrics_p95_warn_ms == clamp_spec(p95_warn as int, 100, 60_000),
        c.metrics_p95_crit_ms == clamp_spec(p95_crit as int, p95_warn as int, 120_000) as u64,
        c.modbus_a_timeout_ms == clamp_spec(a_timeout as int, 200, 30_000),
        c.modbus_script_timeout_ms == clamp_spec(script_timeout as int, 200, 30_000),
{
    let f = clamp_i64(fails as i64, 1, 20);
    let b = clamp_i64(backoff, 1, 86_400);
    let w = clamp_i64(p95_warn, 100, 60_000);
    let c = clamp_i64(p95_crit, p95_warn, 120_000);
    let at = clamp_i64(a_timeout, 200, 30_000);
    let st = clamp_i64(script_timeout, 200, 30_000);
    SchedulerRuntimeCfg {
        no_response_failures: f as u8,
        no_response_backoff_sec: b as u64,
        metrics_p95_warn_ms: w as u64,
        metrics_p95_crit_ms: c as u64,
        modbus_a_timeout_ms: at as u64,
        modbus_script_timeout_ms: st as u64,
    }
}

/// The runtime settings from a row of the older table, which has no
/// metrics or timeout columns: those take 1000 / 3000 / 6000 / 6000 ms.
pub fn runtime_cfg_from_legacy_row(fails: i32, backoff: i64) -> (c: SchedulerRuntimeCfg)
    ensures
        c.no_response_failures == clamp_spec(fails as int, 1, 20),
        c.no_response_backoff_sec == clamp_spec(backoff as int, 1, 86_400),
        c.metrics_p95_warn_ms == 1000,
        c.metrics_p95_crit_ms == 3000,
        c.modbus_a_timeout_ms == 6000,
        c.modbus_script_timeout_ms == 6000,
{
    let f = clamp_i64(fails as i64, 1, 20);
    let b = clamp_i64(backoff, 1, 86_400);
    SchedulerRuntimeCfg {
        no_response_failures: f as u8,
        no_response_backoff_sec: b as u64,
        metrics_p95_warn_ms: 1000,
        metrics_p95_crit_ms: 3000,
        modbus_a_timeout_ms: 6000,
        modbus_script_timeout_ms: 6000,
    }
}

/// The settings the scheduler applies from a stored row: at least one
/// failure and one second of back-off, a p95 warning of at least 100 ms
/// and a critical level not below it, timeouts of at least 200 ms.
pub open spec fn effective_runtime_spec(c: SchedulerRuntimeCfg) -> SchedulerRuntimeCfg {
    let warn: u64 = if c.metrics_p95_warn_ms < 100 { 100 } else { c.metrics_p95_warn_ms };
    SchedulerRuntimeCfg {
        no_response_failures: if c.no_response_failures < 1 { 1 } else { c.no_response_failures },
        no_response_backoff_sec: if c.no_response_backoff_sec < 1 { 1 } else { c.no_response_backoff_sec },
        metrics_p95_warn_ms: warn,
        metrics_p95_crit_ms: if c.metrics_p95_crit_ms < warn { warn } else { c.metrics_p95_crit_ms },
        modbus_a_timeout_ms: if c.modbus_a_timeout_ms < 200 { 200 } else { c.modbus_a_timeout_ms },
        modbus_script_timeout_ms: if c.modbus_script_timeout_ms < 200 { 200 } else { c.modbus_script_timeout_ms },
    }
}

/// The settings applied from a stored row, as `effective_runtime_spec`
/// says.
pub fn effective_runtime_cfg(c: SchedulerRuntimeCfg) -> (r: SchedulerRuntimeCfg)
    ensures
        r == effective_runtime_spec(c),
        r.no_response_failures >= 1,
        r.no_response_backoff_sec >= 1,
        100 <= r.metrics_p95_warn_ms <= r.metrics_p95_crit_ms,
        r.modbus_a_timeout_ms >= 200,
        r.modbus_script_timeout_ms >= 200,
{
    let warn = if c.metrics_p95_warn_ms < 100 { 100 } else { c.metrics_p95_warn_ms };
    SchedulerRuntimeCfg {
        no_response_failures: if c.no_response_failures < 1 { 1 } else { c.no_response_failures },
        no_response_backoff_sec: if c.no_response_backoff_sec < 1 { 1 } else { c.no_response_backoff_sec },
        metrics_p95_warn_ms: warn,
        metrics_p95_crit_ms: if c.metrics_p95_crit_ms < warn { warn } else { c.metrics_p95_crit_ms },
        modbus_a_timeout_ms: if c.modbus_a_timeout_ms < 200 { 200 } else { c.modbus_a_timeout_ms },
        modbus_script_timeout_ms: if c.modbus_script_timeout_ms < 200 { 200 } else { c.modbus_script_timeout_ms },
    }
}

/// Fingerprints of the topology tables.
#[derive(Clone, Copy, Debug, PartialEq, Eq)]
pub struct TopologyFingerprint {
    pub kpz_sig: i64,
    pub obj_sig: i64,
    pub ip_sig: i64,
    pub port_sig: i64,
    pub n_mb_sig: i64,
    pub reg_sig: i64,
    pub g_script_sig: i64,
    pub binding_sig: i64,
}

/// The fingerprint of one table from its row count, largest id and a
/// third aggregate (latest change time or a column sum): the count xor the
/// id shifted by one xor the aggregate shifted by two (bits shifted out
/// are dropped).
pub open spec fn table_sig_spec(count: i64, max_id: i64, third: i64) -> i64 {
    count ^ (max_id << 1u32) ^ (third << 2u32)
}

/// Combines the aggregates of a table into its fingerprint.
pub fn table_sig(count: i64, max_id: i64, third: i64) -> (r: i64)
    ensures
        r == table_sig_spec(count, max_id, third),
{
    count ^ (max_id << 1u32) ^ (third << 2u32)
}

} // verus!
