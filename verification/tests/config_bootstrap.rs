use wirerope_core::bootstrap::AppState;
use wirerope_core::bootstrap::BootPhase;
use wirerope_core::bootstrap::StepResult;
use wirerope_core::bootstrap::next_phase;
use wirerope_core::bootstrap::plan_connections;
use wirerope_core::config::ConfigError;
use wirerope_core::config::EnvSnapshot;
use wirerope_core::config::LogConfig;
use wirerope_core::config::LogLevel;
use wirerope_core::config::RuntimeSetting;
use wirerope_core::config::S3RegionSetting;
use wirerope_core::config::logger_plan;
use wirerope_core::config::parse_level;
use wirerope_core::error::DError;
use wirerope_core::metrics::SlsMetadata;
use wirerope_core::error::LogicErr;
use wirerope_core::parse::parse_u16_str;
use wirerope_core::pool::PoolConfig;
use wirerope_core::pool::PoolState;
use wirerope_core::pool::connect_failed;

#[test]
fn empty_environment_yields_all_defaults() {
    let env = EnvSnapshot::empty();
    let cfg = RuntimeSetting::assemble(&env, None).unwrap();
    assert_eq!(cfg.base.port, 12121);
    assert_eq!(cfg.base.host, "0.0.0.0");
    assert_eq!(cfg.base.svr_name, "UNKNOWN SERVICE");
    assert_eq!(cfg.dao.db_main_addr, "mysql://unknown");
    assert_eq!(cfg.dao.db_replica_addr, "");
    assert!(!cfg.dao.replica_enabled());
    assert!(cfg.metrics.is_none());
    assert!(cfg.s3.is_none());
    assert!(cfg.dao.redis_host.is_none());
}

#[test]
fn unparseable_port_fails_fast() {
    let mut env = EnvSnapshot::empty();
    env.port = Some("not-a-number".to_string());
    let r = RuntimeSetting::assemble(&env, None);
    match r {
        Err(ConfigError::InvalidPort(p)) => assert_eq!(p, "not-a-number"),
        _ => panic!("expected the port failure"),
    }
}

#[test]
fn port_parsing_follows_the_unsigned_16_bit_rule() {
    assert_eq!(parse_u16_str("12121"), Some(12121));
    assert_eq!(parse_u16_str("+8080"), Some(8080));
    assert_eq!(parse_u16_str("0"), Some(0));
    assert_eq!(parse_u16_str("65535"), Some(65535));
    assert_eq!(parse_u16_str("65536"), None);
    assert_eq!(parse_u16_str(""), None);
    assert_eq!(parse_u16_str("+"), None);
    assert_eq!(parse_u16_str("80a"), None);
    assert_eq!(parse_u16_str("-1"), None);

    let mut env = EnvSnapshot::empty();
    env.port = Some("8080".to_string());
    let cfg = RuntimeSetting::assemble(&env, None).unwrap();
    assert_eq!(cfg.base.port, 8080);
}

#[test]
fn explicit_settings_are_kept() {
    let mut env = EnvSnapshot::empty();
    env.service_name = Some("orders".to_string());
    env.host = Some("127.0.0.1".to_string());
    env.db_main_addr = Some("mysql://main".to_string());
    env.db_replica_addr = Some("mysql://replica".to_string());
    env.redis_host = Some("cache".to_string());
    env.metric_endpoint = Some("http://otel:4317".to_string());
    let s3 = Some(S3RegionSetting { region: "eu-1".to_string() });
    let cfg = RuntimeSetting::assemble(&env, s3).unwrap();
    assert_eq!(cfg.base.svr_name, "orders");
    assert_eq!(cfg.base.host, "127.0.0.1");
    assert_eq!(cfg.dao.db_main_addr, "mysql://main");
    assert_eq!(cfg.dao.db_replica_addr, "mysql://replica");
    assert!(cfg.dao.replica_enabled());
    assert_eq!(cfg.dao.redis_host, Some("cache".to_string()));
    assert_eq!(cfg.metrics.as_ref().unwrap().end_point, "http://otel:4317");
    assert_eq!(cfg.s3.as_ref().unwrap().region, "eu-1");
}

#[test]
fn log_config_defaults_and_failures() {
    let env = EnvSnapshot::empty();
    let lc = LogConfig::from_env(&env).unwrap();
    assert!(lc.enable_log_file);
    assert!(lc.enable_stdout);
    assert_eq!(lc.level, "info");

    let mut env2 = EnvSnapshot::empty();
    env2.enable_log_file = Some("false".to_string());
    env2.enable_stdout = Some("true".to_string());
    env2.log_level = Some("warn".to_string());
    let lc2 = LogConfig::from_env(&env2).unwrap();
    assert!(!lc2.enable_log_file);
    assert!(lc2.enable_stdout);
    assert_eq!(lc2.level, "warn");

    let mut env3 = EnvSnapshot::empty();
    env3.enable_stdout = Some("TRUE".to_string());
    match LogConfig::from_env(&env3) {
        Err(ConfigError::InvalidFlag(f)) => assert_eq!(f, "TRUE"),
        _ => panic!("expected the flag failure"),
    }
}

#[test]
fn verbosity_parsing_matches_the_filter_rules() {
    assert_eq!(parse_level(""), Some(LogLevel::Error));
    assert_eq!(parse_level("0"), Some(LogLevel::Off));
    assert_eq!(parse_level("3"), Some(LogLevel::Info));
    assert_eq!(parse_level("+5"), Some(LogLevel::Trace));
    assert_eq!(parse_level("6"), None);
    assert_eq!(parse_level("WARN"), Some(LogLevel::Warn));
    assert_eq!(parse_level("Debug"), Some(LogLevel::Debug));
    assert_eq!(parse_level("off"), Some(LogLevel::Off));
    assert_eq!(parse_level("bogus"), None);

    let lc = LogConfig {
        enable_log_file: true,
        enable_stdout: false,
        level: "bogus".to_string(),
    };
    let plan = logger_plan(&lc);
    assert!(plan.file);
    assert!(!plan.stdout);
    assert_eq!(plan.level, LogLevel::Info);
}

#[test]
fn pool_configuration_uses_the_documented_bounds() {
    let cfg = PoolConfig::for_addr("mysql://main", LogLevel::Info);
    assert_eq!(cfg.addr, "mysql://main");
    assert_eq!(cfg.max_connections, 5);
    assert_eq!(cfg.min_connections, 1);
    assert_eq!(cfg.connect_timeout_secs, 5);
    assert!(cfg.sqlx_logging);
}

#[test]
fn connect_failure_carries_the_address() {
    let e = connect_failed("mysql://unreachable:3306");
    assert_eq!(e.err_code(), 1005);
    match e {
        DError::Custom(LogicErr::ConnectFailed(a)) => assert_eq!(a, "mysql://unreachable:3306"),
        _ => panic!("expected ConnectFailed"),
    }
}

#[test]
fn checkout_up_to_the_ceiling_succeeds_then_fails_fast() {
    let cfg = PoolConfig::for_addr("mysql://main", LogLevel::Warn);
    let mut pool = PoolState::for_config(&cfg);
    for _ in 0..5 {
        assert!(pool.checkout());
    }
    assert!(!pool.checkout());
    assert!(!pool.checkout());
    assert_eq!(pool.in_use, 5);
    pool.checkin();
    assert!(pool.checkout());
    assert!(!pool.checkout());
}

#[test]
fn replica_plan_follows_the_configured_address() {
    let mut env = EnvSnapshot::empty();
    env.db_main_addr = Some("mysql://main".to_string());
    env.db_replica_addr = Some("".to_string());
    let cfg = RuntimeSetting::assemble(&env, None).unwrap();
    let plan = plan_connections(&cfg);
    assert_eq!(plan.primary_addr, "mysql://main");
    assert!(plan.replica_addr.is_none());

    let state: AppState<u32, u8> = AppState::assemble(cfg, 11, None);
    assert_eq!(state.conn, 11);
    assert!(state.conn_r.is_none());
    assert!(state.redis_pool.is_none());
}

#[test]
fn configured_replica_is_distinct_from_the_primary() {
    let mut env = EnvSnapshot::empty();
    env.db_main_addr = Some("mysql://main".to_string());
    env.db_replica_addr = Some("mysql://replica".to_string());
    let cfg = RuntimeSetting::assemble(&env, None).unwrap();
    let plan = plan_connections(&cfg);
    assert_eq!(plan.primary_addr, "mysql://main");
    assert_eq!(plan.replica_addr, Some("mysql://replica".to_string()));
    assert_ne!(plan.primary_addr, plan.replica_addr.clone().unwrap());

    let state: AppState<u32, u8> = AppState::assemble(cfg, 11, Some(22));
    assert_eq!(state.conn, 11);
    assert_eq!(state.conn_r, Some(22));
    assert_ne!(state.conn, state.conn_r.unwrap());
}

#[test]
fn bootstrap_aborts_on_fatal_failures_only() {
    assert_eq!(next_phase(BootPhase::Logging, StepResult::Failed), BootPhase::Aborted);
    assert_eq!(next_phase(BootPhase::Config, StepResult::Failed), BootPhase::Aborted);
    assert_eq!(next_phase(BootPhase::MetricsSetup, StepResult::Failed), BootPhase::PrimaryConnect);
    assert_eq!(next_phase(BootPhase::PrimaryConnect, StepResult::Failed), BootPhase::Aborted);
    assert_eq!(next_phase(BootPhase::ReplicaConnect, StepResult::Failed), BootPhase::Aborted);
}

#[test]
fn bootstrap_runs_in_order_and_terminates() {
    let mut p = BootPhase::Logging;
    let order = vec![
        BootPhase::Config,
        BootPhase::MetricsSetup,
        BootPhase::PrimaryConnect,
        BootPhase::ReplicaConnect,
        BootPhase::Ready,
    ];
    for expected in order {
        p = next_phase(p, StepResult::Succeeded);
        assert_eq!(p, expected);
    }
    assert_eq!(next_phase(BootPhase::Ready, StepResult::Failed), BootPhase::Ready);
    assert_eq!(next_phase(BootPhase::Aborted, StepResult::Succeeded), BootPhase::Aborted);
}

#[test]
fn exporter_metadata_defaults_are_explicit() {
    let m = SlsMetadata::assemble(
        Some("proj".to_string()),
        None,
        None,
        Some("sk".to_string()),
        "1.2.3",
        false,
        None,
    );
    assert_eq!(m.project, "proj");
    assert_eq!(m.instance_id, "");
    assert_eq!(m.ak_id, "");
    assert_eq!(m.ak_secret, "sk");
    assert_eq!(m.service_version, "1.2.3");
    assert_eq!(m.host_name, "prod");
    assert_eq!(m.service_name, "unknown-service-name");

    let d = SlsMetadata::assemble(None, None, None, None, "0.0.1", true, Some("svc".to_string()));
    assert_eq!(d.host_name, "debug");
    assert_eq!(d.service_name, "svc");
}
