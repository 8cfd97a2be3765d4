use campaign::config::{parse_unsigned, Config, ConfigError, ConfigVar, ConfigVars, StorageBackend};

fn full_env() -> ConfigVars {
    ConfigVars {
        storage_backend: Some("local".into()),
        hanko_api_url: Some("https://x.hanko.io".into()),
        port: Some("3001".into()),
        campaign_data_dir: Some("data/dev-campaigns".into()),
        internal_bearer_primary: Some("primary".into()),
        internal_bearer_secondary: None,
        platform_url: Some("http://localhost:3000".into()),
        idle_timeout_secs: Some("1800".into()),
        eviction_check_interval_secs: Some("60".into()),
        heartbeat_interval_secs: None,
        s3_endpoint: None,
        s3_bucket: None,
        s3_access_key_id: None,
        s3_secret_access_key: None,
    }
}

fn full_s3_env() -> ConfigVars {
    let mut env = full_env();
    env.storage_backend = Some("s3".into());
    env.s3_endpoint = Some("https://s3.example.com".into());
    env.s3_bucket = Some("test-bucket".into());
    env.s3_access_key_id = Some("test-key-id".into());
    env.s3_secret_access_key = Some("test-secret-key".into());
    env
}

#[test]
fn reads_required_env() {
    let c = Config::from_vars(full_env()).unwrap();
    assert_eq!(c.storage_backend, StorageBackend::Local);
    assert!(c.s3.is_none());
    assert_eq!(c.hanko_api_url, "https://x.hanko.io");
    assert_eq!(c.port, 3001);
    assert_eq!(c.campaign_data_dir, "data/dev-campaigns");
    assert_eq!(c.internal_bearer_primary, "primary");
    assert_eq!(c.internal_bearer_secondary, None);
    assert_eq!(c.platform_url, "http://localhost:3000");
    assert_eq!(c.idle_timeout_secs, 1800);
    assert_eq!(c.eviction_check_interval_secs, 60);
    assert_eq!(c.heartbeat_interval_secs, 30);
}

#[test]
fn picks_up_optional_secondary_bearer() {
    let mut env = full_env();
    env.internal_bearer_secondary = Some("secondary".into());
    let c = Config::from_vars(env).unwrap();
    assert_eq!(c.internal_bearer_secondary, Some("secondary".into()));
}

#[test]
fn empty_secondary_bearer_is_none() {
    let mut env = full_env();
    env.internal_bearer_secondary = Some(String::new());
    assert_eq!(Config::from_vars(env).unwrap().internal_bearer_secondary, None);
}

#[test]
fn s3_backend_is_parsed() {
    let c = Config::from_vars(full_s3_env()).unwrap();
    assert_eq!(c.storage_backend, StorageBackend::S3);
    let s3 = c.s3.unwrap();
    assert_eq!(s3.endpoint, "https://s3.example.com");
    assert_eq!(s3.bucket, "test-bucket");
    assert_eq!(s3.access_key_id, "test-key-id");
    assert_eq!(s3.secret_access_key, "test-secret-key");
}

#[test]
fn s3_without_endpoint_is_refused() {
    let mut env = full_s3_env();
    env.s3_endpoint = None;
    assert_eq!(Config::from_vars(env), Err(ConfigError::Missing(ConfigVar::S3Endpoint)));
}

#[test]
fn missing_or_invalid_variables_are_refused_in_order() {
    let mut env = full_env();
    env.storage_backend = None;
    assert_eq!(Config::from_vars(env), Err(ConfigError::Missing(ConfigVar::StorageBackend)));

    let mut env = full_env();
    env.storage_backend = Some("gcs".into());
    assert_eq!(Config::from_vars(env), Err(ConfigError::UnknownStorageBackend("gcs".into())));

    let mut env = full_env();
    env.hanko_api_url = None;
    env.port = None;
    assert_eq!(Config::from_vars(env), Err(ConfigError::Missing(ConfigVar::HankoApiUrl)));

    let mut env = full_env();
    env.port = None;
    assert_eq!(Config::from_vars(env), Err(ConfigError::Missing(ConfigVar::Port)));

    let mut env = full_env();
    env.port = Some("70000".into());
    assert_eq!(Config::from_vars(env), Err(ConfigError::Invalid(ConfigVar::Port)));

    let mut env = full_env();
    env.campaign_data_dir = None;
    assert_eq!(Config::from_vars(env), Err(ConfigError::Missing(ConfigVar::CampaignDataDir)));

    let mut env = full_env();
    env.internal_bearer_primary = None;
    assert_eq!(Config::from_vars(env), Err(ConfigError::Missing(ConfigVar::InternalBearerPrimary)));

    let mut env = full_env();
    env.platform_url = None;
    assert_eq!(Config::from_vars(env), Err(ConfigError::Missing(ConfigVar::PlatformUrl)));

    let mut env = full_env();
    env.idle_timeout_secs = None;
    assert_eq!(Config::from_vars(env), Err(ConfigError::Missing(ConfigVar::IdleTimeoutSecs)));

    let mut env = full_env();
    env.idle_timeout_secs = Some("thirty-minutes".into());
    assert_eq!(Config::from_vars(env), Err(ConfigError::Invalid(ConfigVar::IdleTimeoutSecs)));

    let mut env = full_env();
    env.eviction_check_interval_secs = None;
    assert_eq!(Config::from_vars(env), Err(ConfigError::Missing(ConfigVar::EvictionCheckIntervalSecs)));

    let mut env = full_env();
    env.eviction_check_interval_secs = Some("one-minute".into());
    assert_eq!(Config::from_vars(env), Err(ConfigError::Invalid(ConfigVar::EvictionCheckIntervalSecs)));

    let mut env = full_env();
    env.heartbeat_interval_secs = Some("-1".into());
    assert_eq!(Config::from_vars(env), Err(ConfigError::Invalid(ConfigVar::HeartbeatIntervalSecs)));
}

#[test]
fn unsigned_text_reads_like_rust_parsing() {
    assert_eq!(parse_unsigned("3001", 65535), Some(3001));
    assert_eq!(parse_unsigned("+7", 65535), Some(7));
    assert_eq!(parse_unsigned("65535", 65535), Some(65535));
    assert_eq!(parse_unsigned("65536", 65535), None);
    assert_eq!(parse_unsigned("", 65535), None);
    assert_eq!(parse_unsigned("+", 65535), None);
    assert_eq!(parse_unsigned(" 1", 65535), None);
    assert_eq!(parse_unsigned("18446744073709551615", u64::MAX), Some(u64::MAX));
    assert_eq!(parse_unsigned("18446744073709551616", u64::MAX), None);
    for text in ["0", "42", "+9", "x", "1 ", "00012"] {
        assert_eq!(parse_unsigned(text, u64::MAX), text.parse::<u64>().ok(), "{text:?}");
    }
}

#[test]
fn error_messages_name_the_variable() {
    assert_eq!(
        ConfigError::Missing(ConfigVar::Port).message(),
        "PORT is required. Set it in mise.toml [tasks.\"dev:campaign\"].env or in the deployment manifest."
    );
    assert_eq!(
        ConfigError::Missing(ConfigVar::S3AccessKeyId).message(),
        "S3_ACCESS_KEY_ID is required when CAMPAIGN_STORAGE_BACKEND=s3. Sourced from Scaleway SM via ESO in deployed envs."
    );
    assert_eq!(ConfigError::Invalid(ConfigVar::Port).message(), "PORT must be a valid u16");
    assert_eq!(
        ConfigError::Invalid(ConfigVar::IdleTimeoutSecs).message(),
        "CAMPAIGN_IDLE_TIMEOUT_SECS must be a non-negative integer (seconds)"
    );
    assert_eq!(
        ConfigError::UnknownStorageBackend("ftp".to_string()).message(),
        "CAMPAIGN_STORAGE_BACKEND must be \"local\" or \"s3\", got \"ftp\""
    );
}
