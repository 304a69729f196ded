//! The settings of the gateway: what the environment and the configuration file
//! say, and what holds where they say nothing.
use crate::decimal::{decimal, parse_i32, parse_usize, signed_up_to, to_decimal};
use crate::limit::{setting_or, u64_setting};
use crate::text::same_text;
use crate::types::{Config, ConfigView};
use vstd::prelude::*;
use vstd::utf8::encode_utf8;

verus! {

/// The value of an environment variable, or a default.
pub open spec fn value_or(value: Option<&str>, default: Seq<char>) -> Seq<char> {
    match value {
        Some(s) => s@,
        None => default,
    }
}

/// The value of an environment variable, or a default.
pub fn get_env_or_default(value: Option<&str>, default: &str) -> (r: String)
    ensures
        r@ == value_or(value, default@),
{
    match value {
        Some(s) => s.to_owned(),
        None => default.to_owned(),
    }
}

/// As many stars as given.
pub open spec fn stars(n: nat) -> Seq<char> {
    Seq::new(n, |i: int| '*')
}

/// What the log shows of the value of an environment variable: of the password
/// only how many bytes it has.
pub open spec fn shown_value(key: Seq<char>, value: Seq<char>) -> Seq<char> {
    if key == "ADMIN_PASSWORD"@ {
        stars(encode_utf8(value).len())
    } else {
        value
    }
}

/// What the log shows of the value of an environment variable.
pub fn show_value(key: &str, value: &str) -> (r: String)
    ensures
        r@ == shown_value(key@, value@),
{
    if same_text(key, "ADMIN_PASSWORD") {
        let bytes = value.as_bytes();
        let mut r = String::new();
        let mut i: usize = 0;
        while i < bytes.len()
            invariant
                i <= bytes@.len(),
                r@ == stars(i as nat),
            decreases bytes@.len() - i,
        {
            r.push('*');
            i += 1;
            assert(r@ =~= stars(i as nat));
        }
        r
    } else {
        value.to_owned()
    }
}

/// Two passwords of the same length look the same in the log.
pub proof fn password_is_not_shown(password: Seq<char>, other: Seq<char>)
    requires
        encode_utf8(password).len() == encode_utf8(other).len(),
    ensures
        shown_value("ADMIN_PASSWORD"@, password) == shown_value("ADMIN_PASSWORD"@, other),
{
}

/// How many seconds the cache keeps an entry when nothing is said.
pub const DEFAULT_TTL: u64 = 259200;

/// How many megabytes the cache holds when nothing is said.
pub const DEFAULT_CACHE_SIZE: usize = 100;

/// How many seconds the cache keeps an entry.
pub fn cache_ttl_seconds(value: Option<&str>) -> (r: u64)
    ensures
        r == setting_or(value, u64::MAX as nat, DEFAULT_TTL as nat),
{
    u64_setting(value, DEFAULT_TTL)
}

/// How many megabytes the cache holds.
pub fn cache_size_mb(value: Option<&str>) -> (r: usize)
    ensures
        r == setting_or(value, usize::MAX as nat, DEFAULT_CACHE_SIZE as nat),
{
    match value {
        Some(s) => match parse_usize(s) {
            Some(v) => v,
            None => DEFAULT_CACHE_SIZE,
        },
        None => DEFAULT_CACHE_SIZE,
    }
}

/// A number with a unit behind it.
pub open spec fn quantity(n: nat, unit: Seq<char>) -> Seq<char> {
    decimal(n) + unit
}

/// A number of seconds as days, hours, minutes and seconds, from the largest
/// unit that is not zero on.
pub open spec fn span_text(seconds: nat) -> Seq<char> {
    let secs = quantity(seconds % 60, " seconds"@);
    let mins = quantity(seconds % 3600 / 60, " minutes "@) + secs;
    let hours = quantity(seconds % 86400 / 3600, " hours "@) + mins;
    if seconds / 86400 > 0 {
        quantity(seconds / 86400, " days "@) + hours
    } else if seconds % 86400 / 3600 > 0 {
        hours
    } else if seconds % 3600 / 60 > 0 {
        mins
    } else {
        secs
    }
}

/// A number with a unit behind it, before another text.
fn put_before(n: u64, unit: &str, rest: &str) -> (r: String)
    ensures
        r@ == quantity(n as nat, unit@) + rest@,
{
    let mut r = to_decimal(n);
    r.append(unit);
    r.append(rest);
    r
}

/// Writes a number of seconds as days, hours, minutes and seconds.
pub fn format_ttl(seconds: u64) -> (r: String)
    ensures
        r@ == span_text(seconds as nat),
{
    let secs = put_before(seconds % 60, " seconds", "");
    proof {
        reveal_strlit("");
        assert(secs@ =~= quantity(seconds as nat % 60, " seconds"@));
    }
    let mins = put_before(seconds % 3600 / 60, " minutes ", &secs);
    let hours = put_before(seconds % 86400 / 3600, " hours ", &mins);
    if seconds / 86400 > 0 {
        put_before(seconds / 86400, " days ", &hours)
    } else if seconds % 86400 / 3600 > 0 {
        hours
    } else if seconds % 3600 / 60 > 0 {
        mins
    } else {
        secs
    }
}

/// The days, hours, minutes and seconds of a span make up the span, and the
/// units that are not shown are zero.
pub proof fn span_is_the_sum_of_its_parts(seconds: nat)
    ensures
        seconds == seconds / 86400 * 86400 + seconds % 86400 / 3600 * 3600 + seconds % 3600 / 60
            * 60 + seconds % 60,
        seconds % 86400 / 3600 < 24,
        seconds % 3600 / 60 < 60,
{
    assert(seconds % 86400 % 3600 == seconds % 3600) by (nonlinear_arith);
    assert(seconds % 3600 % 60 == seconds % 60) by (nonlinear_arith);
}

/// The address that the gateway listens at.
pub open spec fn address(host: Seq<char>, port: Seq<char>) -> Seq<char> {
    host + ":"@ + port
}

/// The address that the gateway listens at.
pub fn bind_address(host: &str, port: &str) -> (r: String)
    ensures
        r@ == address(host@, port@),
{
    let mut r = host.to_owned();
    r.append(":");
    r.append(port);
    r
}

/// The largest body of a request, in bytes, when nothing is said.
pub const DEFAULT_REQUEST_SIZE: usize = 1073741824;

/// The largest body of a chat request, in bytes.
pub fn max_request_size(value: Option<&str>) -> (r: usize)
    ensures
        r == setting_or(value, usize::MAX as nat, DEFAULT_REQUEST_SIZE as nat),
{
    match value {
        Some(s) => match parse_usize(s) {
            Some(v) => v,
            None => DEFAULT_REQUEST_SIZE,
        },
        None => DEFAULT_REQUEST_SIZE,
    }
}

/// The largest body of any request, in bytes: a signed 32-bit number, or the
/// default where the setting is none.
pub open spec fn server_limit(value: Option<&str>) -> int {
    match value {
        Some(s) => match signed_up_to(s@, i32::MAX as int) {
            Some(v) => v,
            None => DEFAULT_REQUEST_SIZE as int,
        },
        None => DEFAULT_REQUEST_SIZE as int,
    }
}

/// The largest body of any request, in bytes, as it was set. It may come out
/// negative.
pub fn server_size_setting(value: Option<&str>) -> (r: i32)
    ensures
        r == server_limit(value),
{
    match value {
        Some(s) => match parse_i32(s) {
            Some(v) => v,
            None => 1073741824,
        },
        None => 1073741824,
    }
}

/// The configuration where there is no configuration file: nothing is in force.
pub open spec fn empty_config() -> ConfigView {
    ConfigView { enable: Some(false), models: Seq::empty(), custom_models: None }
}

/// What reading the configuration file gave: nothing where there is no file,
/// else the failure to read it, or the failure to make sense of it, or a
/// configuration.
pub open spec fn loaded(file: Option<Result<Result<Config, String>, String>>) -> Result<
    ConfigView,
    Seq<char>,
> {
    match file {
        Some(Ok(Ok(config))) => Ok(config@),
        Some(Ok(Err(e))) => Err("Failed to parse models.yaml: "@ + e@),
        Some(Err(e)) => Err("Failed to read models.yaml: "@ + e@),
        None => Ok(empty_config()),
    }
}

/// The value of a loaded configuration.
pub open spec fn loaded_view(r: Result<Config, String>) -> Result<ConfigView, Seq<char>> {
    match r {
        Ok(config) => Ok(config@),
        Err(e) => Err(e@),
    }
}

/// Makes a configuration of what reading the configuration file gave.
pub fn load_config_from_yaml(file: Option<Result<Result<Config, String>, String>>) -> (r: Result<
    Config,
    String,
>)
    ensures
        loaded_view(r) == loaded(file),
        (file matches Some(Ok(Ok(config))) ==> config@.wf()) ==> (r matches Ok(config)
            ==> config@.wf()),
{
    match file {
        Some(Ok(Ok(config))) => Ok(config),
        Some(Ok(Err(e))) => {
            let mut message = "Failed to parse models.yaml: ".to_owned();
            message.append(&e);
            Err(message)
        },
        Some(Err(e)) => {
            let mut message = "Failed to read models.yaml: ".to_owned();
            message.append(&e);
            Err(message)
        },
        None => Ok(Config::new(Some(false), None)),
    }
}

} // verus!
