//! The configuration, resolved once at startup from the parsed command line
//! and the supervisor's heartbeat variable.
use vstd::prelude::*;
use libc::pid_t;
use crate::text::{decimal_pid, decimal_u64, parse_pid, parse_u64_decimal};

verus! {

/// What reading the supervisor's heartbeat variable (`WATCHDOG_USEC`)
/// gave: nothing, a value that is not valid Unicode, or a string.
#[derive(Clone, Debug, PartialEq, Eq)]
pub enum WatchdogVar {
    Absent,
    NotUnicode,
    Value(String),
}

/// A configuration error: fatal, found before anything is spawned.
#[derive(Clone, Debug, PartialEq, Eq)]
pub enum ConfigError {
    /// The heartbeat variable holds something other than a `u64`.
    InvalidWatchdogUsec(String),
    /// The heartbeat variable is present but cannot be read as text.
    UnreadableWatchdogUsec,
    /// The watched process identifier is not an `i32`.
    InvalidPid(String),
    /// No target command follows the options.
    MissingCommand,
}

/// The resolved configuration.
#[derive(Clone, Debug, PartialEq, Eq)]
pub struct Args {
    /// The process to forward liveness for; present in the forwarder role.
    pub pid: Option<pid_t>,
    /// The health check command.
    pub healthcheck: String,
    /// Whether the usage text was asked for.
    pub help: bool,
    /// The target command and its arguments.
    pub free: Vec<String>,
    /// The forwarding tick in microseconds; absent when no supervisor watches.
    pub interval: Option<u64>,
}

/// The forwarding tick for a declared heartbeat period: half of it, with
/// the fractional microsecond dropped.
pub open spec fn half_period(usec: u64) -> u64 {
    usec / 2
}

/// The interval that the heartbeat variable gives, or the error it causes.
pub open spec fn watchdog_interval(var: WatchdogVar) -> Result<Option<u64>, ConfigError> {
    match var {
        WatchdogVar::Absent => Ok(None),
        WatchdogVar::NotUnicode => Err(ConfigError::UnreadableWatchdogUsec),
        WatchdogVar::Value(s) => match decimal_u64(s@) {
            Some(v) => Ok(Some(half_period(v))),
            None => Err(ConfigError::InvalidWatchdogUsec(s)),
        },
    }
}

/// Derives the forwarding tick, in microseconds, from the heartbeat
/// variable: `None` when it is absent, half its value when it is a `u64`,
/// an error otherwise.
pub fn get_watchdog_interval(var: WatchdogVar) -> (r: Result<Option<u64>, ConfigError>)
    ensures
        r == watchdog_interval(var),
{
    match var {
        WatchdogVar::Absent => Ok(None),
        WatchdogVar::NotUnicode => Err(ConfigError::UnreadableWatchdogUsec),
        WatchdogVar::Value(s) => match parse_u64_decimal(s.as_str()) {
            Some(usec) => Ok(Some(usec / 2)),
            None => Err(ConfigError::InvalidWatchdogUsec(s)),
        },
    }
}

/// The configuration for the parsed command line and the heartbeat
/// variable: a malformed identifier is reported first, then a malformed
/// heartbeat variable, then a missing target command where one is needed
/// (no watched identifier is given and no usage text is asked for).
pub open spec fn resolved_args(
    pid: Option<String>,
    healthcheck: String,
    help: bool,
    free: Vec<String>,
    var: WatchdogVar,
) -> Result<Args, ConfigError> {
    if pid is Some && decimal_pid(pid->Some_0@) is None {
        Err(ConfigError::InvalidPid(pid->Some_0))
    } else {
        match watchdog_interval(var) {
            Err(e) => Err(e),
            Ok(interval) => if pid is None && !help && free@.len() == 0 {
                Err(ConfigError::MissingCommand)
            } else {
                Ok(
                Args {
                    pid: match pid {
                        Some(p) => decimal_pid(p@),
                        None => None,
                    },
                    healthcheck,
                    help,
                    free,
                    interval,
                },
            )
            },
        }
    }
}

/// Resolves the configuration from the values of the command line options
/// and the heartbeat variable. Without a watched identifier and without a
/// request for the usage text, a target command is required.
pub fn populate_args(
    pid: Option<String>,
    healthcheck: String,
    help: bool,
    free: Vec<String>,
    var: WatchdogVar,
) -> (r: Result<Args, ConfigError>)
    ensures
        r == resolved_args(pid, healthcheck, help, free, var),
{
    let pid = match pid {
        Some(p) => match parse_pid(p.as_str()) {
            Some(n) => Some(n),
            None => {
                return Err(ConfigError::InvalidPid(p));
            },
        },
        None => None,
    };
    let interval = match get_watchdog_interval(var) {
        Ok(i) => i,
        Err(e) => {
            return Err(e);
        },
    };
    if pid.is_none() && !help && free.len() == 0 {
        return Err(ConfigError::MissingCommand);
    }
    Ok(Args { pid, healthcheck, help, free, interval })
}

/// The forwarding tick for a heartbeat period of `v` microseconds is `v / 2`.
pub proof fn heartbeat_tick_is_half(s: String, v: u64)
    requires
        decimal_u64(s@) == Some(v),
    ensures
        watchdog_interval(WatchdogVar::Value(s)) == Ok::<Option<u64>, ConfigError>(Some(v / 2)),
{
}

/// A heartbeat variable that is not a number is a configuration error,
/// whatever else the command line holds, unless the watched identifier is
/// malformed too: no configuration comes out, so nothing is spawned and
/// nothing is replaced.
pub proof fn malformed_heartbeat_is_rejected(
    pid: Option<String>,
    healthcheck: String,
    help: bool,
    free: Vec<String>,
    s: String,
)
    requires
        decimal_u64(s@) is None,
        pid is Some ==> decimal_pid(pid->Some_0@) is Some,
    ensures
        resolved_args(pid, healthcheck, help, free, WatchdogVar::Value(s)) == Err::<Args, ConfigError>(
            ConfigError::InvalidWatchdogUsec(s),
        ),
{
}

/// A launch with no target command is a configuration error, found before
/// anything is spawned, unless the heartbeat variable is malformed, which
/// is reported first.
pub proof fn missing_target_is_rejected(healthcheck: String, free: Vec<String>, var: WatchdogVar)
    requires
        free@.len() == 0,
        watchdog_interval(var) is Ok,
    ensures
        resolved_args(None, healthcheck, false, free, var) == Err::<Args, ConfigError>(
            ConfigError::MissingCommand,
        ),
{
}

} // verus!
