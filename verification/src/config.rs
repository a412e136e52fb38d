//! Daemon configuration, read from a map of environment variables.

use vstd::prelude::*;

use crate::duration::Duration;
use crate::strmap::StrMap;
use crate::text::{owned, str_eq};

verus! {

/// Settings of the daemon.
pub struct Config {
    pub r2_account_id: String,
    pub r2_access_key_id: String,
    pub r2_secret_access_key: String,
    pub r2_bucket: String,
    pub r2_endpoint: String,
    /// Directory of the mounted volume (status.json and the file mirror).
    pub data_dir: String,
    pub run_on_start: bool,
    pub host_min_interval: Duration,
    pub stagger_jitter: Duration,
}

/// Why the environment does not give a configuration.
#[derive(Debug, PartialEq)]
pub enum ConfigError {
    /// A required variable is absent.
    Missing(String),
    /// A variable that holds seconds is not an unsigned integer.
    NotInteger(String),
}

/// The error text for a configuration error.
pub open spec fn error_text(e: ConfigError) -> Seq<char> {
    match e {
        ConfigError::Missing(k) => "missing required env var "@ + k@,
        ConfigError::NotInteger(k) => k@ + " must be an integer"@,
    }
}

impl ConfigError {
    /// The error text.
    pub fn message(&self) -> (s: String)
        ensures
            s@ == error_text(*self),
    {
        match self {
            ConfigError::Missing(k) => {
                let mut s = owned("missing required env var ");
                s.append(k.as_str());
                s
            },
            ConfigError::NotInteger(k) => {
                let mut s = owned(k.as_str());
                s.append(" must be an integer");
                s
            },
        }
    }
}

/// Value of decimal digit character `c`.
pub open spec fn digit_value(c: char) -> int {
    c as int - '0' as int
}

/// `c` is an ASCII decimal digit.
pub open spec fn is_digit(c: char) -> bool {
    '0' <= c <= '9'
}

/// The number that a string of decimal digits spells.
pub open spec fn digits_value(s: Seq<char>) -> nat
    decreases s.len(),
{
    if s.len() == 0 {
        0
    } else {
        (digits_value(s.drop_last()) * 10 + digit_value(s.last())) as nat
    }
}

/// The text after an optional leading `+`.
pub open spec fn unsigned_body(s: Seq<char>) -> Seq<char> {
    if s.len() > 0 && s[0] == '+' {
        s.skip(1)
    } else {
        s
    }
}

/// Every character is an ASCII decimal digit.
pub open spec fn all_digits(s: Seq<char>) -> bool {
    forall|i: int| 0 <= i < s.len() ==> is_digit(#[trigger] s[i])
}

/// An unsigned integer as `u64`'s `FromStr` reads it: an optional leading `+`,
/// then one or more decimal digits, with a value that fits in a `u64`.
pub open spec fn parse_u64_spec(s: Seq<char>) -> Option<u64> {
    let body = unsigned_body(s);
    if body.len() > 0 && all_digits(body) && digits_value(body) <= u64::MAX {
        Some(digits_value(body) as u64)
    } else {
        None
    }
}

proof fn lemma_digits_value_grows(s: Seq<char>, i: int)
    requires
        0 <= i <= s.len(),
        forall|j: int| 0 <= j < s.len() ==> is_digit(#[trigger] s[j]),
    ensures
        digits_value(s.take(i)) <= digits_value(s),
    decreases s.len() - i,
{
    if i < s.len() {
        lemma_digits_value_grows(s, i + 1);
        assert(s.take(i + 1).drop_last() =~= s.take(i));
    } else {
        assert(s.take(i) =~= s);
    }
}

/// Reads an unsigned integer as `u64`'s `FromStr` does.
pub fn parse_u64(s: &str) -> (r: Option<u64>)
    ensures
        r == parse_u64_spec(s@),
{
    let n = s.unicode_len();
    let start: usize = if n > 0 && s.get_char(0) == '+' {
        1
    } else {
        0
    };
    let ghost body = unsigned_body(s@);
    if start >= n {
        return None;
    }
    let mut value: u64 = 0;
    let mut i: usize = start;
    while i < n
        invariant
            n == s@.len(),
            start <= i <= n,
            start <= 1,
            start == (if s@.len() > 0 && s@[0] == '+' { 1usize } else { 0usize }),
            body == unsigned_body(s@),
            body =~= s@.skip(start as int),
            forall|j: int| 0 <= j < i - start ==> is_digit(#[trigger] body[j]),
            value == digits_value(body.take(i - start)),
        decreases n - i,
    {
        let c = s.get_char(i);
        if !('0' <= c && c <= '9') {
            proof {
                assert(body[i - start] == c);
                assert(!is_digit(body[i - start]));
                assert(!all_digits(body));
                assert(parse_u64_spec(s@) is None);
            }
            return None;
        }
        let d = (c as u32 - '0' as u32) as u64;
        proof {
            assert(body[i - start] == c);
            assert(body.take(i - start + 1).drop_last() =~= body.take(i - start));
        }
        if value > (u64::MAX - d) / 10 {
            proof {
                assert(digits_value(body.take(i - start + 1)) > u64::MAX);
                if all_digits(body) {
                    lemma_digits_value_grows(body, i - start + 1);
                    assert(digits_value(body) > u64::MAX);
                }
                assert(parse_u64_spec(s@) is None);
            }
            return None;
        }
        value = value * 10 + d;
        i = i + 1;
    }
    proof {
        assert(body.take(n - start) =~= body);
    }
    Some(value)
}

/// The value of a boolean flag variable: set exactly when it reads `true` or `1`.
pub open spec fn flag_value(v: Option<String>) -> bool {
    match v {
        Some(s) => s@ == "true"@ || s@ == "1"@,
        None => false,
    }
}

/// The seconds a variable holds: the default when absent, the number when it
/// reads as one, and an error otherwise.
pub open spec fn secs_value(m: Map<Seq<char>, String>, k: Seq<char>, default: u64) -> Option<u64> {
    if m.contains_key(k) {
        parse_u64_spec(m[k]@)
    } else {
        Some(default)
    }
}

/// A configuration error as plain values.
pub enum ConfigErrorView {
    Missing(Seq<char>),
    NotInteger(Seq<char>),
}

impl View for ConfigError {
    type V = ConfigErrorView;

    open spec fn view(&self) -> ConfigErrorView {
        match self {
            ConfigError::Missing(k) => ConfigErrorView::Missing(k@),
            ConfigError::NotInteger(k) => ConfigErrorView::NotInteger(k@),
        }
    }
}

/// A configuration as plain values.
pub struct ConfigView {
    pub r2_account_id: Seq<char>,
    pub r2_access_key_id: Seq<char>,
    pub r2_secret_access_key: Seq<char>,
    pub r2_bucket: Seq<char>,
    pub r2_endpoint: Seq<char>,
    pub data_dir: Seq<char>,
    pub run_on_start: bool,
    pub host_min_interval_ns: nat,
    pub stagger_jitter_ns: nat,
}

impl View for Config {
    type V = ConfigView;

    open spec fn view(&self) -> ConfigView {
        ConfigView {
            r2_account_id: self.r2_account_id@,
            r2_access_key_id: self.r2_access_key_id@,
            r2_secret_access_key: self.r2_secret_access_key@,
            r2_bucket: self.r2_bucket@,
            r2_endpoint: self.r2_endpoint@,
            data_dir: self.data_dir@,
            run_on_start: self.run_on_start,
            host_min_interval_ns: self.host_min_interval@,
            stagger_jitter_ns: self.stagger_jitter@,
        }
    }
}

/// The value of `k`, or `default` when it is absent.
pub open spec fn or_default(m: Map<Seq<char>, String>, k: Seq<char>, default: Seq<char>) -> Seq<char> {
    if m.contains_key(k) {
        m[k]@
    } else {
        default
    }
}

/// The configuration a map of environment variables gives: the three R2
/// credentials are required (the first one absent is the error); the bucket,
/// endpoint and data directory fall back to defaults; `RUN_ON_START` is a flag;
/// the two second counts default to 2 and 1 and must read as unsigned integers.
pub open spec fn config_spec(m: Map<Seq<char>, String>) -> Result<ConfigView, ConfigErrorView> {
    if !m.contains_key("R2_ACCOUNT_ID"@) {
        Err(ConfigErrorView::Missing("R2_ACCOUNT_ID"@))
    } else if !m.contains_key("R2_ACCESS_KEY_ID"@) {
        Err(ConfigErrorView::Missing("R2_ACCESS_KEY_ID"@))
    } else if !m.contains_key("R2_SECRET_ACCESS_KEY"@) {
        Err(ConfigErrorView::Missing("R2_SECRET_ACCESS_KEY"@))
    } else if secs_value(m, "HOST_MIN_INTERVAL_SECS"@, 2) is None {
        Err(ConfigErrorView::NotInteger("HOST_MIN_INTERVAL_SECS"@))
    } else if secs_value(m, "STAGGER_JITTER_SECS"@, 1) is None {
        Err(ConfigErrorView::NotInteger("STAGGER_JITTER_SECS"@))
    } else {
        let account = m["R2_ACCOUNT_ID"@]@;
        Ok(
            ConfigView {
                r2_account_id: account,
                r2_access_key_id: m["R2_ACCESS_KEY_ID"@]@,
                r2_secret_access_key: m["R2_SECRET_ACCESS_KEY"@]@,
                r2_bucket: or_default(m, "R2_BUCKET"@, "ssdm-data"@),
                r2_endpoint: or_default(
                    m,
                    "R2_ENDPOINT"@,
                    "https://"@ + account + ".r2.cloudflarestorage.com"@,
                ),
                data_dir: or_default(m, "DATA_DIR"@, "/data"@),
                run_on_start: flag_value(
                    if m.contains_key("RUN_ON_START"@) {
                        Some(m["RUN_ON_START"@])
                    } else {
                        None
                    },
                ),
                host_min_interval_ns: (secs_value(m, "HOST_MIN_INTERVAL_SECS"@, 2)->0 * 1_000_000_000) as nat,
                stagger_jitter_ns: (secs_value(m, "STAGGER_JITTER_SECS"@, 1)->0 * 1_000_000_000) as nat,
            },
        )
    }
}

/// Each seconds variable is taken as given: present and read as `n`, it
/// configures exactly `n` seconds (an explicit `0` included); only an absent
/// variable takes the default (2 s for the host gap, 1 s for the jitter); and a
/// present value that does not read as a number is an error naming it.
pub proof fn lemma_seconds_taken_as_given(m: Map<Seq<char>, String>)
    requires
        m.contains_key("R2_ACCOUNT_ID"@),
        m.contains_key("R2_ACCESS_KEY_ID"@),
        m.contains_key("R2_SECRET_ACCESS_KEY"@),
    ensures
        ({
            let h = "HOST_MIN_INTERVAL_SECS"@;
            let j = "STAGGER_JITTER_SECS"@;
            let h_ok = !m.contains_key(h) || parse_u64_spec(m[h]@) is Some;
            let j_ok = !m.contains_key(j) || parse_u64_spec(m[j]@) is Some;
            &&& (config_spec(m) is Ok <==> h_ok && j_ok)
            &&& !h_ok ==> config_spec(m) == Err::<ConfigView, ConfigErrorView>(
                ConfigErrorView::NotInteger(h),
            )
            &&& h_ok && !j_ok ==> config_spec(m) == Err::<ConfigView, ConfigErrorView>(
                ConfigErrorView::NotInteger(j),
            )
            &&& config_spec(m) matches Ok(c) ==> {
                &&& c.host_min_interval_ns == (if m.contains_key(h) {
                    parse_u64_spec(m[h]@)->0 as int
                } else {
                    2
                }) * 1_000_000_000
                &&& c.stagger_jitter_ns == (if m.contains_key(j) {
                    parse_u64_spec(m[j]@)->0 as int
                } else {
                    1
                }) * 1_000_000_000
            }
        }),
{
}

/// The view of a configuration outcome.
pub open spec fn outcome_view(r: Result<Config, ConfigError>) -> Result<ConfigView, ConfigErrorView> {
    match r {
        Ok(c) => Ok(c@),
        Err(e) => Err(e@),
    }
}

fn required(m: &StrMap<String>, k: &str) -> (r: Result<String, ConfigError>)
    ensures
        match r {
            Ok(v) => m@.contains_key(k@) && v@ == m@[k@]@,
            Err(e) => !m@.contains_key(k@) && e@ == ConfigErrorView::Missing(k@),
        },
{
    match m.get(k) {
        Some(v) => Ok(v.clone()),
        None => Err(ConfigError::Missing(owned(k))),
    }
}

fn with_default(m: &StrMap<String>, k: &str, default: String) -> (r: String)
    ensures
        r@ == or_default(m@, k@, default@),
{
    match m.get(k) {
        Some(v) => v.clone(),
        None => default,
    }
}

fn secs(m: &StrMap<String>, k: &str, default: u64) -> (r: Result<Duration, ConfigError>)
    ensures
        match r {
            Ok(d) => secs_value(m@, k@, default) matches Some(n) && d@ == n * 1_000_000_000,
            Err(e) => secs_value(m@, k@, default) is None && e@ == ConfigErrorView::NotInteger(k@),
        },
{
    match m.get(k) {
        Some(v) => match parse_u64(v.as_str()) {
            Some(n) => Ok(Duration::from_secs(n)),
            None => Err(ConfigError::NotInteger(owned(k))),
        },
        None => Ok(Duration::from_secs(default)),
    }
}

/// Reads the configuration from a map of environment variables.
pub fn from_map(m: &StrMap<String>) -> (r: Result<Config, ConfigError>)
    ensures
        outcome_view(r) == config_spec(m@),
{
    proof {
        reveal_strlit("true");
        reveal_strlit("1");
    }
    let r2_account_id = match required(m, "R2_ACCOUNT_ID") {
        Ok(v) => v,
        Err(e) => return Err(e),
    };
    let r2_access_key_id = match required(m, "R2_ACCESS_KEY_ID") {
        Ok(v) => v,
        Err(e) => return Err(e),
    };
    let r2_secret_access_key = match required(m, "R2_SECRET_ACCESS_KEY") {
        Ok(v) => v,
        Err(e) => return Err(e),
    };
    let r2_bucket = with_default(m, "R2_BUCKET", owned("ssdm-data"));
    let mut default_endpoint = owned("https://");
    default_endpoint.append(r2_account_id.as_str());
    default_endpoint.append(".r2.cloudflarestorage.com");
    proof {
        assert(default_endpoint@ =~= "https://"@ + r2_account_id@ + ".r2.cloudflarestorage.com"@);
    }
    let r2_endpoint = with_default(m, "R2_ENDPOINT", default_endpoint);
    let data_dir = with_default(m, "DATA_DIR", owned("/data"));
    let run_on_start = match m.get("RUN_ON_START") {
        Some(v) => str_eq(v.as_str(), "true") || str_eq(v.as_str(), "1"),
        None => false,
    };
    let host_min_interval = match secs(m, "HOST_MIN_INTERVAL_SECS", 2) {
        Ok(d) => d,
        Err(e) => return Err(e),
    };
    let stagger_jitter = match secs(m, "STAGGER_JITTER_SECS", 1) {
        Ok(d) => d,
        Err(e) => return Err(e),
    };
    let c = Config {
        r2_account_id,
        r2_access_key_id,
        r2_secret_access_key,
        r2_bucket,
        r2_endpoint,
        data_dir,
        run_on_start,
        host_min_interval,
        stagger_jitter,
    };
    proof {
        assert(c@ == config_spec(m@)->Ok_0);
    }
    Ok(c)
}

} // verus!
