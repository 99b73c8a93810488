//! Configuration of the daemon: the `[heart]` section of `~/.autonomic/config.toml`.

use vstd::prelude::*;
use vstd::string::*;

use crate::text::{join_path, path_join};

verus! {

/// When the garbage-collection pass runs.
#[derive(Debug, Clone)]
pub struct ScheduleConfig {
    /// Six-field cron expression (seconds first).
    pub cron: String,
    pub enabled: bool,
}

impl Default for ScheduleConfig {
    /// Daily at 3 AM, enabled.
    fn default() -> (c: Self)
        ensures
            c.cron@ == "0 0 3 * * *"@,
            c.enabled,
    {
        ScheduleConfig { cron: String::from_str("0 0 3 * * *"), enabled: true }
    }
}

/// Where the agent-brain binary lives, when configured.
#[derive(Debug, Clone)]
pub struct BrainConfig {
    pub binary_path: Option<String>,
}

impl Default for BrainConfig {
    /// No configured binary.
    fn default() -> (c: Self)
        ensures
            c.binary_path is None,
    {
        BrainConfig { binary_path: None }
    }
}

/// Limits of the token budget.
#[derive(Debug, Clone)]
pub struct TokenBudgetConfig {
    pub enabled: bool,
    /// The hard ceiling of tokens for one route.
    pub max_tokens_per_route: u64,
    /// The z-score above which an estimate is a statistical anomaly, in thousandths.
    pub anomaly_multiplier_milli: u64,
    /// How many days of history the statistics report covers; the budget check looks at
    /// the last 24 hours.
    pub lookback_days: u32,
    /// A minimum history size kept in the configuration file; the budget check does not
    /// read it.
    pub min_samples: u64,
    /// Where brain.db is, when configured.
    pub brain_db_path: Option<String>,
}

impl Default for TokenBudgetConfig {
    /// Enabled, ceiling 8000, anomaly multiplier 2.5, a week of history, 5 samples.
    fn default() -> (c: Self)
        ensures
            c.enabled,
            c.max_tokens_per_route == 8000,
            c.anomaly_multiplier_milli == 2500,
            c.lookback_days == 7,
            c.min_samples == 5,
            c.brain_db_path is None,
    {
        TokenBudgetConfig {
            enabled: true,
            max_tokens_per_route: 8000,
            anomaly_multiplier_milli: 2500,
            lookback_days: 7,
            min_samples: 5,
            brain_db_path: None,
        }
    }
}

/// The HTTP server of the daemon.
#[derive(Debug, Clone)]
pub struct ServerConfig {
    pub port: u16,
}

impl Default for ServerConfig {
    /// Port 3101.
    fn default() -> (c: Self)
        ensures
            c.port == 3101,
    {
        ServerConfig { port: 3101 }
    }
}

/// Where agent-spine listens.
#[derive(Debug, Clone)]
pub struct SpineConfig {
    pub url: String,
}

impl Default for SpineConfig {
    /// `http://localhost:3100`.
    fn default() -> (c: Self)
        ensures
            c.url@ == "http://localhost:3100"@,
    {
        SpineConfig { url: String::from_str("http://localhost:3100") }
    }
}

/// Logging level and optional log file.
#[derive(Debug, Clone)]
pub struct LoggingConfig {
    pub level: String,
    pub file: Option<String>,
}

impl Default for LoggingConfig {
    /// Level `info`, no file.
    fn default() -> (c: Self)
        ensures
            c.level@ == "info"@,
            c.file is None,
    {
        LoggingConfig { level: String::from_str("info"), file: None }
    }
}

/// The configuration file under a home directory: `<home>/.autonomic/config.toml`.
pub open spec fn config_path_under(home: Seq<char>) -> Seq<char> {
    path_join(path_join(home, ".autonomic"@), "config.toml"@)
}

/// The daemon's state directory under a home directory: `<home>/.autonomic/state/heart`.
pub open spec fn state_dir_under(home: Seq<char>) -> Seq<char> {
    path_join(path_join(path_join(home, ".autonomic"@), "state"@), "heart"@)
}

/// The configuration file under the given home directory.
pub fn config_path(home: &str) -> (p: String)
    ensures
        p@ == config_path_under(home@),
{
    let root = join_path(home, ".autonomic");
    join_path(root.as_str(), "config.toml")
}

/// The state directory of the daemon under the given home directory.
pub fn state_dir(home: &str) -> (p: String)
    ensures
        p@ == state_dir_under(home@),
{
    let root = join_path(home, ".autonomic");
    let state = join_path(root.as_str(), "state");
    join_path(state.as_str(), "heart")
}

} // verus!
