//! Configuration assembly: a snapshot of the environment values the service
//! reads is turned into one immutable runtime configuration, every field
//! with an explicit default policy. A bad port value is the one fatal
//! failure; everything else degrades to a default or to "disabled".

use vstd::prelude::*;
use vstd::string::StringExecFns;

use crate::parse::all_digits;
use crate::parse::bool_str_val;
use crate::parse::dec_val;
use crate::parse::lower_seq;
use crate::parse::parse_bool_str;
use crate::parse::parse_dec_bounded;
use crate::parse::parse_u16_str;
use crate::parse::str_chars;
use crate::parse::eq_ignore_ascii_case_chars;
use crate::parse::u16_str_val;

verus! {

/// The environment values consumed by configuration assembly, each absent
/// or present as the process environment had it. The caller collects them
/// once at startup and hands them in as plain values.
pub struct EnvSnapshot {
    pub service_name: Option<String>,
    pub port: Option<String>,
    pub host: Option<String>,
    pub db_main_addr: Option<String>,
    pub db_replica_addr: Option<String>,
    pub redis_host: Option<String>,
    pub redis_port: Option<String>,
    pub redis_usr: Option<String>,
    pub redis_pwd: Option<String>,
    pub metric_endpoint: Option<String>,
    pub enable_log_file: Option<String>,
    pub enable_stdout: Option<String>,
    pub log_level: Option<String>,
}

impl EnvSnapshot {
    /// A snapshot with every variable absent.
    pub fn empty() -> (r: Self)
        ensures
            r.service_name is None,
            r.port is None,
            r.host is None,
            r.db_main_addr is None,
            r.db_replica_addr is None,
            r.redis_host is None,
            r.redis_port is None,
            r.redis_usr is None,
            r.redis_pwd is None,
            r.metric_endpoint is None,
            r.enable_log_file is None,
            r.enable_stdout is None,
            r.log_level is None,
    {
        EnvSnapshot {
            service_name: None,
            port: None,
            host: None,
            db_main_addr: None,
            db_replica_addr: None,
            redis_host: None,
            redis_port: None,
            redis_usr: None,
            redis_pwd: None,
            metric_endpoint: None,
            enable_log_file: None,
            enable_stdout: None,
            log_level: None,
        }
    }
}

/// The characters of an optional value, or the given default when absent.
pub open spec fn or_default(o: Option<String>, d: Seq<char>) -> Seq<char> {
    match o {
        Some(s) => s@,
        None => d,
    }
}

/// A configuration value that could not be read; assembly fails fast on it.
#[derive(Debug)]
pub enum ConfigError {
    /// The bind port value does not parse as an unsigned 16-bit integer.
    InvalidPort(String),
    /// A boolean switch holds neither `true` nor `false`.
    InvalidFlag(String),
}

impl ConfigError {
    /// The rendered description of this configuration failure.
    pub fn message(&self) -> (r: String)
        ensures
            self matches ConfigError::InvalidPort(p) ==> r@ == "PORT is not an unsigned 16-bit integer: "@
                + p@,
            self matches ConfigError::InvalidFlag(f) ==> r@ == "expected true or false: "@ + f@,
    {
        match self {
            ConfigError::InvalidPort(p) => {
                let mut m = String::from_str("PORT is not an unsigned 16-bit integer: ");
                m.append(p.as_str());
                m
            },
            ConfigError::InvalidFlag(f) => {
                let mut m = String::from_str("expected true or false: ");
                m.append(f.as_str());
                m
            },
        }
    }
}

/// Data-store settings: the primary address is required but soft-fails to a
/// sentinel scheme so that the failure surfaces at connection time; an empty
/// replica address means "replica disabled"; cache-store settings are all
/// optional.
#[derive(Debug, Clone)]
pub struct DaoSetting {
    pub db_main_addr: String,
    pub db_replica_addr: String,
    pub redis_host: Option<String>,
    pub redis_port: Option<String>,
    pub redis_usr: Option<String>,
    pub redis_pwd: Option<String>,
}

impl DaoSetting {
    /// Assembles the data-store settings from the environment snapshot.
    pub fn new(env: &EnvSnapshot) -> (r: Self)
        ensures
            r.db_main_addr@ == or_default(env.db_main_addr, "mysql://unknown"@),
            r.db_replica_addr@ == or_default(env.db_replica_addr, ""@),
            r.redis_host.deep_view() == env.redis_host.deep_view(),
            r.redis_port.deep_view() == env.redis_port.deep_view(),
            r.redis_usr.deep_view() == env.redis_usr.deep_view(),
            r.redis_pwd.deep_view() == env.redis_pwd.deep_view(),
    {
        proof {
            reveal_strlit("");
            assert(""@ =~= Seq::<char>::empty());
        }
        DaoSetting {
            db_main_addr: match &env.db_main_addr {
                Some(s) => s.clone(),
                None => String::from_str("mysql://unknown"),
            },
            db_replica_addr: match &env.db_replica_addr {
                Some(s) => s.clone(),
                None => String::new(),
            },
            redis_host: clone_opt(&env.redis_host),
            redis_port: clone_opt(&env.redis_port),
            redis_usr: clone_opt(&env.redis_usr),
            redis_pwd: clone_opt(&env.redis_pwd),
        }
    }

    /// Whether a read replica is configured: a non-empty replica address.
    pub fn replica_enabled(&self) -> (r: bool)
        ensures
            r == (self.db_replica_addr@.len() > 0),
    {
        self.db_replica_addr.as_str().unicode_len() > 0
    }
}

/// A copy of an optional string, equal to the given one character for
/// character.
fn clone_opt(o: &Option<String>) -> (r: Option<String>)
    ensures
        r.deep_view() == o.deep_view(),
        r is Some <==> o is Some,
{
    match o {
        Some(s) => Some(s.clone()),
        None => None,
    }
}

/// Base service identity: name, bind host and bind port.
#[derive(Debug, Clone)]
pub struct SvrBase {
    pub svr_name: String,
    pub port: u16,
    pub host: String,
}

/// Metrics-exporter settings; the value exists only when an endpoint was
/// configured, and its absence means the metrics subsystem is skipped.
#[derive(Debug, Clone)]
pub struct Metrics {
    pub end_point: String,
}

/// Object-storage region settings, supplied by a side configuration source;
/// absent when that source is missing.
#[derive(Debug, Clone)]
pub struct S3RegionSetting {
    pub region: String,
}

/// The immutable runtime configuration snapshot, built once at process
/// start and shared read-only for the process lifetime.
#[derive(Debug, Clone)]
pub struct RuntimeSetting {
    pub base: SvrBase,
    pub dao: DaoSetting,
    pub metrics: Option<Metrics>,
    pub s3: Option<S3RegionSetting>,
}

/// The bind port decided by the snapshot: the default when absent, the
/// parsed value when readable, nothing when assembly must fail.
pub open spec fn port_of(env: EnvSnapshot) -> Option<u16> {
    match env.port {
        None => Some(12121),
        Some(p) => u16_str_val(p@),
    }
}

impl RuntimeSetting {
    /// Assembles the whole runtime configuration from the environment
    /// snapshot and an already-loaded optional object-storage setting.
    /// Fails if and only if a present bind port value does not parse.
    pub fn assemble(env: &EnvSnapshot, s3: Option<S3RegionSetting>) -> (r: Result<
        Self,
        ConfigError,
    >)
        ensures
            r is Ok <==> port_of(*env) is Some,
            r matches Ok(c) ==> {
                &&& Some(c.base.port) == port_of(*env)
                &&& c.base.svr_name@ == or_default(env.service_name, "UNKNOWN SERVICE"@)
                &&& c.base.host@ == or_default(env.host, "0.0.0.0"@)
                &&& c.dao.db_main_addr@ == or_default(env.db_main_addr, "mysql://unknown"@)
                &&& c.dao.db_replica_addr@ == or_default(env.db_replica_addr, ""@)
                &&& c.dao.redis_host.deep_view() == env.redis_host.deep_view()
                &&& c.dao.redis_port.deep_view() == env.redis_port.deep_view()
                &&& c.dao.redis_usr.deep_view() == env.redis_usr.deep_view()
                &&& c.dao.redis_pwd.deep_view() == env.redis_pwd.deep_view()
                &&& (c.metrics is Some <==> env.metric_endpoint is Some)
                &&& (c.metrics matches Some(m) ==> env.metric_endpoint matches Some(e)
                    && m.end_point@ == e@)
                &&& c.s3 == s3
            },
            r matches Err(e) ==> (e matches ConfigError::InvalidPort(p) && Some(p.deep_view())
                == env.port.deep_view()),
    {
        let port: u16 = match &env.port {
            None => 12121,
            Some(p) => match parse_u16_str(p.as_str()) {
                Some(v) => v,
                None => {
                    return Err(ConfigError::InvalidPort(p.clone()));
                },
            },
        };
        Ok(RuntimeSetting {
            base: SvrBase {
                svr_name: match &env.service_name {
                    Some(s) => s.clone(),
                    None => String::from_str("UNKNOWN SERVICE"),
                },
                port,
                host: match &env.host {
                    Some(s) => s.clone(),
                    None => String::from_str("0.0.0.0"),
                },
            },
            dao: DaoSetting::new(env),
            metrics: Self::try_load_metrics(env),
            s3,
        })
    }

    /// The metrics settings decided by the snapshot: present exactly when
    /// the endpoint variable is set; its absence disables metrics without
    /// failing assembly.
    pub fn try_load_metrics(env: &EnvSnapshot) -> (r: Option<Metrics>)
        ensures
            r is Some <==> env.metric_endpoint is Some,
            r matches Some(m) ==> (env.metric_endpoint matches Some(e) && m.end_point@ == e@),
    {
        match &env.metric_endpoint {
            Some(e) => Some(Metrics { end_point: e.clone() }),
            None => None,
        }
    }
}

/// Logging-sink configuration: whether the file sink and the stdout sink
/// are enabled, and the requested verbosity.
#[derive(Debug, Clone)]
pub struct LogConfig {
    pub enable_log_file: bool,
    pub enable_stdout: bool,
    pub level: String,
}

/// The value of an optional boolean switch: enabled when absent, else its
/// parse as a boolean literal.
pub open spec fn flag_of(o: Option<String>) -> Option<bool> {
    match o {
        None => Some(true),
        Some(s) => bool_str_val(s@),
    }
}

impl LogConfig {
    /// Assembles the logging configuration from the environment snapshot:
    /// both sinks default to enabled, the verbosity defaults to `info`.
    /// Fails if and only if a present switch is neither `true` nor `false`,
    /// naming the first bad switch value.
    pub fn from_env(env: &EnvSnapshot) -> (r: Result<Self, ConfigError>)
        ensures
            r is Ok <==> flag_of(env.enable_log_file) is Some && flag_of(env.enable_stdout)
                is Some,
            r matches Ok(c) ==> {
                &&& Some(c.enable_log_file) == flag_of(env.enable_log_file)
                &&& Some(c.enable_stdout) == flag_of(env.enable_stdout)
                &&& c.level@ == or_default(env.log_level, "info"@)
            },
            r matches Err(e) ==> e matches ConfigError::InvalidFlag(f) && (if flag_of(
                env.enable_log_file,
            ) is None {
                Some(f.deep_view()) == env.enable_log_file.deep_view()
            } else {
                Some(f.deep_view()) == env.enable_stdout.deep_view()
            }),
    {
        let enable_log_file: bool = match &env.enable_log_file {
            None => true,
            Some(s) => match parse_bool_str(s.as_str()) {
                Some(b) => b,
                None => {
                    return Err(ConfigError::InvalidFlag(s.clone()));
                },
            },
        };
        let enable_stdout: bool = match &env.enable_stdout {
            None => true,
            Some(s) => match parse_bool_str(s.as_str()) {
                Some(b) => b,
                None => {
                    return Err(ConfigError::InvalidFlag(s.clone()));
                },
            },
        };
        Ok(LogConfig {
            enable_log_file,
            enable_stdout,
            level: match &env.log_level {
                Some(s) => s.clone(),
                None => String::from_str("info"),
            },
        })
    }
}

/// Log verbosity, from fully silent to fully verbose.
#[derive(PartialEq, Eq, Structural, Clone, Copy, Debug)]
pub enum LogLevel {
    Off,
    Error,
    Warn,
    Info,
    Debug,
    Trace,
}

/// The verbosity named by `s`: an empty value names `Error`; a decimal
/// number (optionally `+`-signed) names the level of that rank when it is
/// at most five; otherwise a case-insensitive level name decides; anything
/// else is unreadable.
pub open spec fn level_of(s: Seq<char>) -> Option<LogLevel> {
    if s.len() == 0 {
        Some(LogLevel::Error)
    } else {
        let body = if s[0] == '+' {
            s.drop_first()
        } else {
            s
        };
        if body.len() > 0 && all_digits(body) {
            if dec_val(body) == 0 {
                Some(LogLevel::Off)
            } else if dec_val(body) == 1 {
                Some(LogLevel::Error)
            } else if dec_val(body) == 2 {
                Some(LogLevel::Warn)
            } else if dec_val(body) == 3 {
                Some(LogLevel::Info)
            } else if dec_val(body) == 4 {
                Some(LogLevel::Debug)
            } else if dec_val(body) == 5 {
                Some(LogLevel::Trace)
            } else {
                None
            }
        } else {
            let l = lower_seq(s);
            if l == lower_seq("error"@) {
                Some(LogLevel::Error)
            } else if l == lower_seq("warn"@) {
                Some(LogLevel::Warn)
            } else if l == lower_seq("info"@) {
                Some(LogLevel::Info)
            } else if l == lower_seq("debug"@) {
                Some(LogLevel::Debug)
            } else if l == lower_seq("trace"@) {
                Some(LogLevel::Trace)
            } else if l == lower_seq("off"@) {
                Some(LogLevel::Off)
            } else {
                None
            }
        }
    }
}

/// The verbosity used when the requested one is unreadable.
pub open spec fn level_or_info(s: Seq<char>) -> LogLevel {
    match level_of(s) {
        Some(l) => l,
        None => LogLevel::Info,
    }
}

/// Parses a verbosity value.
pub fn parse_level(s: &str) -> (r: Option<LogLevel>)
    ensures
        r == level_of(s@),
{
    let v = str_chars(s);
    if v.len() == 0 {
        return Some(LogLevel::Error);
    }
    let from: usize = if v[0] == '+' {
        1
    } else {
        0
    };
    proof {
        if s@[0] == '+' {
            assert(s@.drop_first() =~= s@.subrange(1, s@.len() as int));
        } else {
            assert(s@ =~= s@.subrange(0, s@.len() as int));
        }
    }
    let digits = digits_in_range(&v, from, v.len());
    if from < v.len() && digits {
        match parse_dec_bounded(&v, from, v.len(), 5) {
            Some(x) => {
                if x == 0 {
                    Some(LogLevel::Off)
                } else if x == 1 {
                    Some(LogLevel::Error)
                } else if x == 2 {
                    Some(LogLevel::Warn)
                } else if x == 3 {
                    Some(LogLevel::Info)
                } else if x == 4 {
                    Some(LogLevel::Debug)
                } else {
                    Some(LogLevel::Trace)
                }
            },
            None => None,
        }
    } else {
        if eq_ignore_ascii_case_chars(&v, "error") {
            Some(LogLevel::Error)
        } else if eq_ignore_ascii_case_chars(&v, "warn") {
            Some(LogLevel::Warn)
        } else if eq_ignore_ascii_case_chars(&v, "info") {
            Some(LogLevel::Info)
        } else if eq_ignore_ascii_case_chars(&v, "debug") {
            Some(LogLevel::Debug)
        } else if eq_ignore_ascii_case_chars(&v, "trace") {
            Some(LogLevel::Trace)
        } else if eq_ignore_ascii_case_chars(&v, "off") {
            Some(LogLevel::Off)
        } else {
            None
        }
    }
}

/// Whether every character of `v[from..to]` is a decimal digit.
fn digits_in_range(v: &Vec<char>, from: usize, to: usize) -> (r: bool)
    requires
        from <= to <= v@.len(),
    ensures
        r == all_digits(v@.subrange(from as int, to as int)),
{
    let mut i: usize = from;
    while i < to
        invariant
            from <= i <= to <= v@.len(),
            forall|j: int| from <= j < i ==> crate::parse::is_dec_digit(#[trigger] v@[j]),
        decreases to - i,
    {
        let c = v[i];
        if c < '0' || c > '9' {
            proof {
                assert(v@.subrange(from as int, to as int)[i - from] == v@[i as int]);
            }
            return false;
        }
        i += 1;
    }
    proof {
        assert forall|j: int| 0 <= j < to - from implies crate::parse::is_dec_digit(
            #[trigger] v@.subrange(from as int, to as int)[j],
        ) by {
            assert(v@.subrange(from as int, to as int)[j] == v@[from + j]);
        }
    }
    true
}

/// The plan the logging initializer follows: which sinks to build and at
/// what verbosity, the unreadable-verbosity fallback already applied.
pub struct LogPlan {
    pub file: bool,
    pub stdout: bool,
    pub level: LogLevel,
}

/// Decides the logging plan from the configuration: one sink per enabled
/// switch, both filtered at the requested verbosity, falling back to
/// `Info` when the requested verbosity is unreadable.
pub fn logger_plan(cfg: &LogConfig) -> (r: LogPlan)
    ensures
        r.file == cfg.enable_log_file,
        r.stdout == cfg.enable_stdout,
        r.level == level_or_info(cfg.level@),
{
    let level = match parse_level(cfg.level.as_str()) {
        Some(l) => l,
        None => LogLevel::Info,
    };
    LogPlan { file: cfg.enable_log_file, stdout: cfg.enable_stdout, level }
}

} // verus!
