use translator_proxy::config::{
    parse_hashrate, parse_u64_digits, CliArgs, ConfigFile, Configuration, EnvOptions,
    HashrateError, DEFAULT_INTERVAL_MS, DEFAULT_SV1_HASHPOWER,
};

fn no_cli() -> CliArgs {
    CliArgs {
        staging: false,
        local: false,
        downstream_hashrate: None,
        loglevel: None,
        noise_connection_log: None,
        sv1_loglevel: false,
        delay: None,
        adjustment_interval: None,
        token: None,
        tp_address: None,
        listening_addr: None,
        api_server_port: None,
        monitor: false,
        auto_update: false,
    }
}

fn no_env() -> EnvOptions {
    EnvOptions {
        token: None,
        tp_address: None,
        interval: None,
        delay: None,
        downstream_hashrate: None,
        listening_addr: None,
        api_server_port: None,
        loglevel: None,
        nc_loglevel: None,
        sv1_log_set: false,
        staging_set: false,
        local_set: false,
        monitor_set: false,
        auto_update_set: false,
    }
}

#[test]
fn hashrate_terahash() {
    assert_eq!(parse_hashrate("10T"), Ok(10_000_000_000_000u128));
}

#[test]
fn hashrate_fractional_petahash() {
    assert_eq!(parse_hashrate("2.5P"), Ok(2_500_000_000_000_000u128));
}

#[test]
fn hashrate_exahash() {
    assert_eq!(parse_hashrate("500E"), Ok(500_000_000_000_000_000_000u128));
}

#[test]
fn hashrate_trims_whitespace() {
    assert_eq!(parse_hashrate("  10T \n"), Ok(10_000_000_000_000u128));
}

#[test]
fn hashrate_empty_is_rejected() {
    assert_eq!(parse_hashrate("   "), Err(HashrateError::Empty));
}

#[test]
fn hashrate_bad_number_is_rejected() {
    assert_eq!(parse_hashrate("abcT"), Err(HashrateError::InvalidNumber));
    assert_eq!(parse_hashrate("1.2.3T"), Err(HashrateError::InvalidNumber));
    assert_eq!(parse_hashrate(".T"), Err(HashrateError::InvalidNumber));
}

#[test]
fn hashrate_bad_unit_is_rejected() {
    assert_eq!(parse_hashrate("10X"), Err(HashrateError::InvalidUnit));
    assert_eq!(parse_hashrate("10"), Err(HashrateError::InvalidUnit));
}

#[test]
fn hashrate_dot_only_fraction() {
    assert_eq!(parse_hashrate("5.E"), Ok(5_000_000_000_000_000_000u128));
    assert_eq!(parse_hashrate(".5E"), Ok(500_000_000_000_000_000u128));
}

#[test]
fn hashrate_truncates_tiny_fractions() {
    // Digits below one hash per second are dropped.
    assert_eq!(
        parse_hashrate("1.0000000000001T"),
        Ok(1_000_000_000_000u128)
    );
}

#[test]
fn hashrate_overflow_is_rejected() {
    let huge = "340282366920938463463374607431768211456E";
    assert_eq!(parse_hashrate(huge), Err(HashrateError::TooLarge));
}

#[test]
fn parse_u64_rejects_junk() {
    assert_eq!(parse_u64_digits(""), None);
    assert_eq!(parse_u64_digits("12a"), None);
    assert_eq!(parse_u64_digits("120000"), Some(120000));
}

#[test]
fn defaults_apply_when_nothing_is_set() {
    let c = Configuration::load_config(no_cli(), ConfigFile::default(), no_env());
    assert_eq!(c.interval, DEFAULT_INTERVAL_MS);
    assert_eq!(c.delay, 0);
    assert_eq!(c.downstream_hashrate, DEFAULT_SV1_HASHPOWER);
    assert_eq!(c.api_server_port, "3001");
    assert_eq!(c.loglevel, "info");
    assert_eq!(c.nc_loglevel, "off");
    assert!(!c.sv1_log && !c.staging && !c.local && !c.monitor);
    // The file default for auto-update is on.
    assert!(c.auto_update);
    assert_eq!(c.token, None);
}

#[test]
fn cli_wins_over_file_and_env() {
    let mut cli = no_cli();
    cli.token = Some("from-cli".to_string());
    cli.adjustment_interval = Some(5000);
    let mut file = ConfigFile::default();
    file.token = Some("from-file".to_string());
    file.interval = Some(7000);
    let mut env = no_env();
    env.token = Some("from-env".to_string());
    env.interval = Some("9000".to_string());
    let c = Configuration::load_config(cli, file, env);
    assert_eq!(c.token.as_deref(), Some("from-cli"));
    assert_eq!(c.interval, 5000);
}

#[test]
fn env_wins_over_file() {
    let mut file = ConfigFile::default();
    file.downstream_hashrate = Some("10T".to_string());
    let mut env = no_env();
    env.downstream_hashrate = Some("999".to_string());
    let c = Configuration::load_config(no_cli(), file, env);
    assert_eq!(c.downstream_hashrate, 999);
}

#[test]
fn file_used_as_last_resort() {
    let mut file = ConfigFile::default();
    file.delay = Some(250);
    file.loglevel = Some("debug".to_string());
    let c = Configuration::load_config(no_cli(), ConfigFile::default(), no_env());
    assert_eq!(c.delay, 0);
    let c2 = Configuration::load_config(no_cli(), file, no_env());
    assert_eq!(c2.delay, 250);
    assert_eq!(c2.loglevel, "debug");
}

#[test]
fn malformed_env_numeric_counts_as_unset() {
    let mut env = no_env();
    env.interval = Some("not-a-number".to_string());
    let c = Configuration::load_config(no_cli(), ConfigFile::default(), env);
    assert_eq!(c.interval, DEFAULT_INTERVAL_MS);
}

#[test]
fn loglevel_accepts_known_names_ignoring_case() {
    let mut file = ConfigFile::default();
    file.loglevel = Some("DeBuG".to_string());
    let c = Configuration::load_config(no_cli(), file, no_env());
    assert_eq!(c.loglevel(), "DeBuG");
}

#[test]
fn loglevel_falls_back_to_info() {
    let mut file = ConfigFile::default();
    file.loglevel = Some("verbose".to_string());
    let c = Configuration::load_config(no_cli(), file, no_env());
    assert_eq!(c.loglevel(), "info");
}

#[test]
fn nc_loglevel_is_case_sensitive() {
    let mut file = ConfigFile::default();
    file.nc_loglevel = Some("TRACE".to_string());
    let c = Configuration::load_config(no_cli(), file, no_env());
    assert_eq!(c.nc_loglevel(), "off");
    let mut file2 = ConfigFile::default();
    file2.nc_loglevel = Some("trace".to_string());
    let c2 = Configuration::load_config(no_cli(), file2, no_env());
    assert_eq!(c2.nc_loglevel(), "trace");
}

#[test]
fn environment_selection() {
    let mut cli = no_cli();
    cli.staging = true;
    let c = Configuration::load_config(cli, ConfigFile::default(), no_env());
    assert_eq!(c.environment(), "staging");
    let mut cli2 = no_cli();
    cli2.local = true;
    let c2 = Configuration::load_config(cli2, ConfigFile::default(), no_env());
    assert_eq!(c2.environment(), "local");
    let c3 = Configuration::load_config(no_cli(), ConfigFile::default(), no_env());
    assert_eq!(c3.environment(), "production");
}

#[test]
fn endpoints_follow_environment() {
    let c = Configuration::load_config(no_cli(), ConfigFile::default(), no_env());
    assert_eq!(
        translator_proxy::monitor::shares_server_endpoint(&c),
        format!("{}/api/share/save", translator_proxy::PRODUCTION_URL)
    );
    assert_eq!(
        translator_proxy::monitor::proxy_log_server_endpoint(&c),
        format!("{}/api/proxy/logs", translator_proxy::PRODUCTION_URL)
    );
    assert_eq!(
        translator_proxy::monitor::worker_activity_server_endpoint(&c),
        format!("{}/api/worker/activity", translator_proxy::PRODUCTION_URL)
    );
    assert_eq!(
        translator_proxy::shares_monitor::monitoring_server_url(&c),
        format!("{}/api/share/save", translator_proxy::PRODUCTION_URL)
    );
    assert_eq!(
        translator_proxy::monitor::pool_lookup_endpoint(&c),
        format!("{}/api/pool/urls", translator_proxy::PRODUCTION_URL)
    );
}

#[test]
fn hashrate_zero_and_bounds() {
    assert_eq!(parse_hashrate("0T"), Ok(0));
    assert_eq!(parse_hashrate("0.0E"), Ok(0));
    // The largest value that still fits.
    assert_eq!(
        parse_hashrate("340282366920938463463.374607431768211455E"),
        Ok(340282366920938463463374607431768211455u128)
    );
}
