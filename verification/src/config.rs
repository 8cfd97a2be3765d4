//! The campaign server's configuration, read from its environment.
//!
//! The process reads each variable (absent variables are `None`); this
//! module validates them, in a fixed order, into a [`Config`] or the first
//! problem found.
use vstd::prelude::*;

use crate::text::same_text;

verus! {

/// Where campaign databases are kept.
#[derive(Debug, Clone, Copy, PartialEq, Eq, Structural)]
pub enum StorageBackend {
    Local,
    S3,
}

/// Object-storage settings, required with the S3 backend.
#[derive(Debug, Clone, PartialEq, Eq)]
pub struct S3Config {
    pub endpoint: String,
    pub bucket: String,
    pub access_key_id: String,
    pub secret_access_key: String,
}

/// The server's configuration. Durations are in whole seconds.
#[derive(Debug, Clone, PartialEq, Eq)]
pub struct Config {
    pub storage_backend: StorageBackend,
    pub s3: Option<S3Config>,
    pub port: u16,
    pub hanko_api_url: String,
    pub campaign_data_dir: String,
    /// Shared bearer for internal traffic.
    pub internal_bearer_primary: String,
    /// A second accepted bearer during rotation; never empty.
    pub internal_bearer_secondary: Option<String>,
    /// Base URL of the platform, for outbound callbacks.
    pub platform_url: String,
    /// How long a supervisor stays loaded after its last message.
    pub idle_timeout_secs: u64,
    /// How often a supervisor checks its idle timeout.
    pub eviction_check_interval_secs: u64,
    /// How often the shard reports its loaded campaigns to the platform.
    pub heartbeat_interval_secs: u64,
}

/// The raw values of the configuration variables, `None` when unset.
#[derive(Debug, Clone, PartialEq, Eq)]
pub struct ConfigVars {
    pub storage_backend: Option<String>,
    pub hanko_api_url: Option<String>,
    pub port: Option<String>,
    pub campaign_data_dir: Option<String>,
    pub internal_bearer_primary: Option<String>,
    pub internal_bearer_secondary: Option<String>,
    pub platform_url: Option<String>,
    pub idle_timeout_secs: Option<String>,
    pub eviction_check_interval_secs: Option<String>,
    pub heartbeat_interval_secs: Option<String>,
    pub s3_endpoint: Option<String>,
    pub s3_bucket: Option<String>,
    pub s3_access_key_id: Option<String>,
    pub s3_secret_access_key: Option<String>,
}

/// A configuration variable.
#[derive(Debug, Clone, Copy, PartialEq, Eq, Structural)]
pub enum ConfigVar {
    StorageBackend,
    HankoApiUrl,
    Port,
    CampaignDataDir,
    InternalBearerPrimary,
    PlatformUrl,
    IdleTimeoutSecs,
    EvictionCheckIntervalSecs,
    HeartbeatIntervalSecs,
    S3Endpoint,
    S3Bucket,
    S3AccessKeyId,
    S3SecretAccessKey,
}

/// The first problem with the configuration.
#[derive(Debug, Clone, PartialEq, Eq)]
pub enum ConfigError {
    /// A required variable is unset.
    Missing(ConfigVar),
    /// A variable does not hold a value of its kind.
    Invalid(ConfigVar),
    /// The storage backend is neither `local` nor `s3`; the value given.
    UnknownStorageBackend(String),
}

/// The environment variable's name.
pub open spec fn var_name_text(v: ConfigVar) -> Seq<char> {
    match v {
        ConfigVar::StorageBackend => "CAMPAIGN_STORAGE_BACKEND"@,
        ConfigVar::HankoApiUrl => "HANKO_API_URL"@,
        ConfigVar::Port => "PORT"@,
        ConfigVar::CampaignDataDir => "CAMPAIGN_DATA_DIR"@,
        ConfigVar::InternalBearerPrimary => "INTERNAL_BEARER_PRIMARY"@,
        ConfigVar::PlatformUrl => "PLATFORM_URL"@,
        ConfigVar::IdleTimeoutSecs => "CAMPAIGN_IDLE_TIMEOUT_SECS"@,
        ConfigVar::EvictionCheckIntervalSecs => "CAMPAIGN_EVICTION_CHECK_INTERVAL_SECS"@,
        ConfigVar::HeartbeatIntervalSecs => "CAMPAIGN_HEARTBEAT_INTERVAL_SECS"@,
        ConfigVar::S3Endpoint => "S3_ENDPOINT"@,
        ConfigVar::S3Bucket => "S3_BUCKET"@,
        ConfigVar::S3AccessKeyId => "S3_ACCESS_KEY_ID"@,
        ConfigVar::S3SecretAccessKey => "S3_SECRET_ACCESS_KEY"@,
    }
}

/// Where a missing variable is to be set.
pub open spec fn where_set_text(v: ConfigVar) -> Seq<char> {
    match v {
        ConfigVar::InternalBearerPrimary => "Sourced from Scaleway SM in deployed envs; mise.toml exports a dev value locally."@,
        ConfigVar::S3AccessKeyId | ConfigVar::S3SecretAccessKey => "Sourced from Scaleway SM via ESO in deployed envs."@,
        _ => "Set it in mise.toml [tasks.\"dev:campaign\"].env or in the deployment manifest."@,
    }
}

/// Whether a variable belongs to the S3 settings.
pub open spec fn is_s3_var(v: ConfigVar) -> bool {
    v == ConfigVar::S3Endpoint || v == ConfigVar::S3Bucket || v == ConfigVar::S3AccessKeyId || v == ConfigVar::S3SecretAccessKey
}

/// The message a server stops with on a configuration problem.
pub open spec fn error_text(e: ConfigError) -> Seq<char> {
    match e {
        ConfigError::Missing(ConfigVar::StorageBackend) =>
            "CAMPAIGN_STORAGE_BACKEND is required (\"local\" or \"s3\"). "@ + where_set_text(ConfigVar::StorageBackend),
        ConfigError::Missing(v) => if is_s3_var(v) {
            var_name_text(v) + " is required when CAMPAIGN_STORAGE_BACKEND=s3. "@ + where_set_text(v)
        } else {
            var_name_text(v) + " is required. "@ + where_set_text(v)
        },
        ConfigError::Invalid(ConfigVar::Port) => "PORT must be a valid u16"@,
        ConfigError::Invalid(v) => var_name_text(v) + " must be a non-negative integer (seconds)"@,
        ConfigError::UnknownStorageBackend(other) =>
            "CAMPAIGN_STORAGE_BACKEND must be \"local\" or \"s3\", got \""@ + other@ + "\""@,
    }
}

impl ConfigVar {
    /// The environment variable's name.
    pub fn name(self) -> (s: &'static str)
        ensures
            s@ == var_name_text(self),
    {
        match self {
            ConfigVar::StorageBackend => "CAMPAIGN_STORAGE_BACKEND",
            ConfigVar::HankoApiUrl => "HANKO_API_URL",
            ConfigVar::Port => "PORT",
            ConfigVar::CampaignDataDir => "CAMPAIGN_DATA_DIR",
            ConfigVar::InternalBearerPrimary => "INTERNAL_BEARER_PRIMARY",
            ConfigVar::PlatformUrl => "PLATFORM_URL",
            ConfigVar::IdleTimeoutSecs => "CAMPAIGN_IDLE_TIMEOUT_SECS",
            ConfigVar::EvictionCheckIntervalSecs => "CAMPAIGN_EVICTION_CHECK_INTERVAL_SECS",
            ConfigVar::HeartbeatIntervalSecs => "CAMPAIGN_HEARTBEAT_INTERVAL_SECS",
            ConfigVar::S3Endpoint => "S3_ENDPOINT",
            ConfigVar::S3Bucket => "S3_BUCKET",
            ConfigVar::S3AccessKeyId => "S3_ACCESS_KEY_ID",
            ConfigVar::S3SecretAccessKey => "S3_SECRET_ACCESS_KEY",
        }
    }

    /// Where a missing variable is to be set.
    pub fn where_set(self) -> (s: &'static str)
        ensures
            s@ == where_set_text(self),
    {
        match self {
            ConfigVar::InternalBearerPrimary => "Sourced from Scaleway SM in deployed envs; mise.toml exports a dev value locally.",
            ConfigVar::S3AccessKeyId | ConfigVar::S3SecretAccessKey => "Sourced from Scaleway SM via ESO in deployed envs.",
            _ => "Set it in mise.toml [tasks.\"dev:campaign\"].env or in the deployment manifest.",
        }
    }
}

impl ConfigError {
    /// The message a server stops with on this problem.
    pub fn message(&self) -> (m: String)
        ensures
            m@ == error_text(*self),
    {
        match self {
            ConfigError::Missing(ConfigVar::StorageBackend) => {
                let mut m = "CAMPAIGN_STORAGE_BACKEND is required (\"local\" or \"s3\"). ".to_owned();
                m.append(ConfigVar::StorageBackend.where_set());
                m
            },
            ConfigError::Missing(v) => {
                let mut m = v.name().to_owned();
                match v {
                    ConfigVar::S3Endpoint | ConfigVar::S3Bucket | ConfigVar::S3AccessKeyId | ConfigVar::S3SecretAccessKey =>
                        m.append(" is required when CAMPAIGN_STORAGE_BACKEND=s3. "),
                    _ => m.append(" is required. "),
                }
                m.append(v.where_set());
                m
            },
            ConfigError::Invalid(ConfigVar::Port) => "PORT must be a valid u16".to_owned(),
            ConfigError::Invalid(v) => {
                let mut m = v.name().to_owned();
                m.append(" must be a non-negative integer (seconds)");
                m
            },
            ConfigError::UnknownStorageBackend(other) => {
                let mut m = "CAMPAIGN_STORAGE_BACKEND must be \"local\" or \"s3\", got \"".to_owned();
                m.append(other.as_str());
                m.append("\"");
                m
            },
        }
    }
}

// ---------------------------------------------------------------------------
// Unsigned decimal text
// ---------------------------------------------------------------------------

/// An ASCII decimal digit.
pub open spec fn is_digit(c: char) -> bool {
    '0' <= c && c <= '9'
}

/// The value of a digit string (most significant first).
pub open spec fn digits_value(d: Seq<char>) -> nat
    decreases d.len(),
{
    if d.len() == 0 {
        0
    } else {
        (digits_value(d.drop_last()) * 10 + ((d.last() as u32) - ('0' as u32))) as nat
    }
}

/// The digits of an unsigned integer text as Rust's integer parsing reads
/// it: one optional leading `+`, then at least one digit and nothing else.
pub open spec fn unsigned_digits(s: Seq<char>) -> Option<Seq<char>> {
    if digit_part(s).len() > 0 && forall|i: int| 0 <= i < digit_part(s).len() ==> is_digit(#[trigger] digit_part(s)[i]) {
        Some(digit_part(s))
    } else {
        None
    }
}

/// An unsigned integer text without its optional leading `+`.
pub open spec fn digit_part(s: Seq<char>) -> Seq<char> {
    if s.len() > 0 && s[0] == '+' {
        s.drop_first()
    } else {
        s
    }
}

/// The value of an unsigned integer text no larger than `max`, as Rust's
/// integer parsing reads it.
pub open spec fn unsigned_value(s: Seq<char>, max: nat) -> Option<nat> {
    match unsigned_digits(s) {
        Some(d) => if digits_value(d) <= max { Some(digits_value(d)) } else { None },
        None => None,
    }
}

proof fn lemma_digits_value_push(d: Seq<char>, c: char)
    requires
        is_digit(c),
    ensures
        digits_value(d.push(c)) == digits_value(d) * 10 + ((c as u32) - ('0' as u32)),
{
    assert(d.push(c).drop_last() =~= d);
}

proof fn lemma_digits_value_grows(d: Seq<char>, c: char)
    requires
        is_digit(c),
    ensures
        digits_value(d.push(c)) >= digits_value(d) * 10,
{
    lemma_digits_value_push(d, c);
}

proof fn lemma_digits_value_prefix(d: Seq<char>, i: int)
    requires
        0 <= i <= d.len(),
        forall|j: int| 0 <= j < d.len() ==> is_digit(#[trigger] d[j]),
    ensures
        digits_value(d.subrange(0, i)) <= digits_value(d),
    decreases d.len() - i,
{
    if i < d.len() {
        lemma_digits_value_prefix(d, i + 1);
        assert(d.subrange(0, i + 1) =~= d.subrange(0, i).push(d[i]));
        lemma_digits_value_grows(d.subrange(0, i), d[i]);
        assert(digits_value(d.subrange(0, i)) * 10 >= digits_value(d.subrange(0, i))) by (nonlinear_arith);
    } else {
        assert(d.subrange(0, i) =~= d);
    }
}

/// Read an unsigned integer text no larger than `max`, as Rust's integer
/// parsing does.
pub fn parse_unsigned(s: &str, max: u64) -> (r: Option<u64>)
    ensures
        match unsigned_value(s@, max as nat) {
            Some(v) => r == Some(v as u64),
            None => r is None,
        },
{
    let n = s.unicode_len();
    let mut start: usize = 0;
    if n > 0 && s.get_char(0) == '+' {
        start = 1;
    }
    let ghost d = digit_part(s@);
    proof {
        assert(d =~= s@.subrange(start as int, n as int));
    }
    if start == n {
        return None;
    }
    let mut value: u64 = 0;
    let mut i: usize = start;
    while i < n
        invariant
            n == s@.len(),
            start <= i <= n,
            start < n,
            start <= 1,
            d == s@.subrange(start as int, n as int),
            d == digit_part(s@),
            forall|j: int| start <= j < i ==> is_digit(#[trigger] s@[j]),
            value as nat == digits_value(s@.subrange(start as int, i as int)),
            value <= max,
        decreases n - i,
    {
        let c = s.get_char(i);
        if !('0' <= c && c <= '9') {
            proof {
                assert(d[i - start] == c);
                assert(!is_digit(d[i - start]));
                assert(unsigned_digits(s@) is None);
            }
            return None;
        }
        let digit: u64 = (c as u32 - '0' as u32) as u64;
        let ghost prefix = s@.subrange(start as int, i + 1);
        proof {
            assert(prefix =~= s@.subrange(start as int, i as int).push(c));
            lemma_digits_value_push(s@.subrange(start as int, i as int), c);
            assert(d.subrange(0, (i + 1 - start) as int) =~= prefix);
        }
        let next: Option<u64> = match value.checked_mul(10) {
            Some(v) => v.checked_add(digit),
            None => None,
        };
        match next {
            None => {
                proof {
                    if unsigned_digits(s@) is Some {
                        assert(unsigned_digits(s@) == Some(d));
                        assert(forall|j: int| 0 <= j < d.len() ==> is_digit(#[trigger] d[j]));
                        lemma_digits_value_prefix(d, (i + 1 - start) as int);
                    }
                }
                return None;
            },
            Some(v) => {
                if v > max {
                    proof {
                        if unsigned_digits(s@) is Some {
                            assert(unsigned_digits(s@) == Some(d));
                            assert(forall|j: int| 0 <= j < d.len() ==> is_digit(#[trigger] d[j]));
                            lemma_digits_value_prefix(d, (i + 1 - start) as int);
                        }
                    }
                    return None;
                }
                value = v;
            },
        }
        i = i + 1;
    }
    proof {
        assert(s@.subrange(start as int, n as int) == d);
        assert forall|j: int| 0 <= j < d.len() implies is_digit(#[trigger] d[j]) by {
            assert(d[j] == s@[j + start]);
        }
    }
    Some(value)
}

// ---------------------------------------------------------------------------
// Validation
// ---------------------------------------------------------------------------

/// The default heartbeat interval, in seconds, when none is configured.
pub const DEFAULT_HEARTBEAT_INTERVAL_SECS: u64 = 30;

/// The seconds a duration variable holds, or why it does not.
pub open spec fn secs_of(v: Option<String>, var: ConfigVar) -> Result<u64, ConfigError> {
    match v {
        None => Err(ConfigError::Missing(var)),
        Some(t) => match unsigned_value(t@, u64::MAX as nat) {
            Some(n) => Ok(n as u64),
            None => Err(ConfigError::Invalid(var)),
        },
    }
}

/// The S3 settings, checked in order: endpoint, bucket, access key id,
/// secret access key.
pub open spec fn s3_outcome(v: ConfigVars) -> Result<S3Config, ConfigError> {
    match v.s3_endpoint {
        None => Err(ConfigError::Missing(ConfigVar::S3Endpoint)),
        Some(endpoint) => match v.s3_bucket {
            None => Err(ConfigError::Missing(ConfigVar::S3Bucket)),
            Some(bucket) => match v.s3_access_key_id {
                None => Err(ConfigError::Missing(ConfigVar::S3AccessKeyId)),
                Some(access_key_id) => match v.s3_secret_access_key {
                    None => Err(ConfigError::Missing(ConfigVar::S3SecretAccessKey)),
                    Some(secret_access_key) => Ok(S3Config { endpoint, bucket, access_key_id, secret_access_key }),
                },
            },
        },
    }
}

/// The configuration the variables describe, or the first problem, checked
/// in this order: storage backend (required, `local` or `s3`), Hanko API
/// URL, port (a `u16`), data directory, primary bearer, platform URL, idle
/// timeout and eviction check interval (required seconds), heartbeat
/// interval (seconds, 30 when unset), and with the S3 backend its four
/// settings. An empty secondary bearer counts as none.
pub open spec fn config_outcome(v: ConfigVars) -> Result<Config, ConfigError> {
    match v.storage_backend {
        None => Err(ConfigError::Missing(ConfigVar::StorageBackend)),
        Some(b) => if b@ != "local"@ && b@ != "s3"@ {
            Err(ConfigError::UnknownStorageBackend(b))
        } else {
            let storage_backend = if b@ == "local"@ { StorageBackend::Local } else { StorageBackend::S3 };
            match v.hanko_api_url {
                None => Err(ConfigError::Missing(ConfigVar::HankoApiUrl)),
                Some(hanko_api_url) => match v.port {
                    None => Err(ConfigError::Missing(ConfigVar::Port)),
                    Some(p) => match unsigned_value(p@, 65535) {
                        None => Err(ConfigError::Invalid(ConfigVar::Port)),
                        Some(port) => match v.campaign_data_dir {
                            None => Err(ConfigError::Missing(ConfigVar::CampaignDataDir)),
                            Some(campaign_data_dir) => match v.internal_bearer_primary {
                                None => Err(ConfigError::Missing(ConfigVar::InternalBearerPrimary)),
                                Some(internal_bearer_primary) => match v.platform_url {
                                    None => Err(ConfigError::Missing(ConfigVar::PlatformUrl)),
                                    Some(platform_url) => match secs_of(v.idle_timeout_secs, ConfigVar::IdleTimeoutSecs) {
                                        Err(e) => Err(e),
                                        Ok(idle_timeout_secs) => match secs_of(v.eviction_check_interval_secs, ConfigVar::EvictionCheckIntervalSecs) {
                                            Err(e) => Err(e),
                                            Ok(eviction_check_interval_secs) => match (match v.heartbeat_interval_secs {
                                                None => Ok(DEFAULT_HEARTBEAT_INTERVAL_SECS),
                                                Some(t) => secs_of(Some(t), ConfigVar::HeartbeatIntervalSecs),
                                            }) {
                                                Err(e) => Err(e),
                                                Ok(heartbeat_interval_secs) => match (if storage_backend == StorageBackend::S3 {
                                                    match s3_outcome(v) {
                                                        Ok(c) => Ok(Some(c)),
                                                        Err(e) => Err(e),
                                                    }
                                                } else {
                                                    Ok(None)
                                                }) {
                                                    Err(e) => Err(e),
                                                    Ok(s3) => Ok(Config {
                                                        storage_backend,
                                                        s3,
                                                        port: port as u16,
                                                        hanko_api_url,
                                                        campaign_data_dir,
                                                        internal_bearer_primary,
                                                        internal_bearer_secondary: match v.internal_bearer_secondary {
                                                            Some(t) => if t@.len() == 0 { None } else { Some(t) },
                                                            None => None,
                                                        },
                                                        platform_url,
                                                        idle_timeout_secs,
                                                        eviction_check_interval_secs,
                                                        heartbeat_interval_secs,
                                                    }),
                                                },
                                            },
                                        },
                                    },
                                },
                            },
                        },
                    },
                },
            }
        },
    }
}

/// The seconds a duration variable holds.
fn parse_secs(v: Option<String>, var: ConfigVar) -> (r: Result<u64, ConfigError>)
    ensures
        r == secs_of(v, var),
{
    match v {
        None => Err(ConfigError::Missing(var)),
        Some(t) => match parse_unsigned(t.as_str(), u64::MAX) {
            Some(n) => Ok(n),
            None => Err(ConfigError::Invalid(var)),
        },
    }
}

/// The S3 settings.
fn parse_s3(v: ConfigVars) -> (r: Result<S3Config, ConfigError>)
    ensures
        r == s3_outcome(v),
{
    let endpoint = match v.s3_endpoint {
        None => return Err(ConfigError::Missing(ConfigVar::S3Endpoint)),
        Some(e) => e,
    };
    let bucket = match v.s3_bucket {
        None => return Err(ConfigError::Missing(ConfigVar::S3Bucket)),
        Some(b) => b,
    };
    let access_key_id = match v.s3_access_key_id {
        None => return Err(ConfigError::Missing(ConfigVar::S3AccessKeyId)),
        Some(k) => k,
    };
    let secret_access_key = match v.s3_secret_access_key {
        None => return Err(ConfigError::Missing(ConfigVar::S3SecretAccessKey)),
        Some(k) => k,
    };
    Ok(S3Config { endpoint, bucket, access_key_id, secret_access_key })
}

impl Config {
    /// Validate the configuration variables.
    pub fn from_vars(v: ConfigVars) -> (r: Result<Config, ConfigError>)
        ensures
            r == config_outcome(v),
    {
        proof {
            reveal_strlit("local");
            reveal_strlit("s3");
        }
        let ghost v0 = v;
        let b = match v.storage_backend {
            None => return Err(ConfigError::Missing(ConfigVar::StorageBackend)),
            Some(b) => b,
        };
        let storage_backend = if same_text(b.as_str(), "local") {
            StorageBackend::Local
        } else if same_text(b.as_str(), "s3") {
            StorageBackend::S3
        } else {
            return Err(ConfigError::UnknownStorageBackend(b));
        };
        let hanko_api_url = match v.hanko_api_url {
            None => return Err(ConfigError::Missing(ConfigVar::HankoApiUrl)),
            Some(h) => h,
        };
        let port_text = match v.port {
            None => return Err(ConfigError::Missing(ConfigVar::Port)),
            Some(p) => p,
        };
        let port = match parse_unsigned(port_text.as_str(), 65535) {
            None => return Err(ConfigError::Invalid(ConfigVar::Port)),
            Some(p) => p as u16,
        };
        let campaign_data_dir = match v.campaign_data_dir {
            None => return Err(ConfigError::Missing(ConfigVar::CampaignDataDir)),
            Some(d) => d,
        };
        let internal_bearer_primary = match v.internal_bearer_primary {
            None => return Err(ConfigError::Missing(ConfigVar::InternalBearerPrimary)),
            Some(t) => t,
        };
        let platform_url = match v.platform_url {
            None => return Err(ConfigError::Missing(ConfigVar::PlatformUrl)),
            Some(u) => u,
        };
        let idle_timeout_secs = match parse_secs(v.idle_timeout_secs, ConfigVar::IdleTimeoutSecs) {
            Err(e) => return Err(e),
            Ok(n) => n,
        };
        let eviction_check_interval_secs = match parse_secs(v.eviction_check_interval_secs, ConfigVar::EvictionCheckIntervalSecs) {
            Err(e) => return Err(e),
            Ok(n) => n,
        };
        let heartbeat_interval_secs = match v.heartbeat_interval_secs {
            None => DEFAULT_HEARTBEAT_INTERVAL_SECS,
            Some(t) => match parse_secs(Some(t), ConfigVar::HeartbeatIntervalSecs) {
                Err(e) => return Err(e),
                Ok(n) => n,
            },
        };
        let internal_bearer_secondary = match v.internal_bearer_secondary {
            Some(t) => if t.as_str().unicode_len() == 0 { None } else { Some(t) },
            None => None,
        };
        let s3_vars = ConfigVars {
            storage_backend: None,
            hanko_api_url: None,
            port: None,
            campaign_data_dir: None,
            internal_bearer_primary: None,
            internal_bearer_secondary: None,
            platform_url: None,
            idle_timeout_secs: None,
            eviction_check_interval_secs: None,
            heartbeat_interval_secs: None,
            s3_endpoint: v.s3_endpoint,
            s3_bucket: v.s3_bucket,
            s3_access_key_id: v.s3_access_key_id,
            s3_secret_access_key: v.s3_secret_access_key,
        };
        proof {
            assert(s3_outcome(s3_vars) == s3_outcome(v0));
        }
        let s3 = match storage_backend {
            StorageBackend::S3 => match parse_s3(s3_vars) {
                Ok(c) => Some(c),
                Err(e) => return Err(e),
            },
            StorageBackend::Local => None,
        };
        Ok(Config {
            storage_backend,
            s3,
            port,
            hanko_api_url,
            campaign_data_dir,
            internal_bearer_primary,
            internal_bearer_secondary,
            platform_url,
            idle_timeout_secs,
            eviction_check_interval_secs,
            heartbeat_interval_secs,
        })
    }
}

/// A valid configuration carries S3 settings exactly with the S3 backend,
/// never an empty secondary bearer, and a 30-second heartbeat when none is
/// configured.
pub proof fn law_valid_config_is_consistent(v: ConfigVars)
    requires
        config_outcome(v) is Ok,
    ensures
        (config_outcome(v).unwrap().s3 is Some) == (config_outcome(v).unwrap().storage_backend == StorageBackend::S3),
        config_outcome(v).unwrap().internal_bearer_secondary matches Some(t) ==> t@.len() > 0,
        v.heartbeat_interval_secs is None ==> config_outcome(v).unwrap().heartbeat_interval_secs == DEFAULT_HEARTBEAT_INTERVAL_SECS,
{
}

} // verus!
