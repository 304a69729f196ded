use poe2openai::limit::{delay, get_rate_limit_ms, rate_limit_middleware, u64_setting, Span};
use poe2openai::settings::{
    bind_address, cache_size_mb, cache_ttl_seconds, format_ttl, get_env_or_default,
    load_config_from_yaml, max_request_size, server_size_setting, show_value,
};
use poe2openai::types::Config;

fn span(secs: u64, nanos: u32) -> Span {
    Span { secs, nanos }
}

#[test]
fn the_interval_has_a_default_and_can_be_switched_off() {
    assert_eq!(get_rate_limit_ms(None), Some(100));
    assert_eq!(get_rate_limit_ms(Some("x")), Some(100));
    assert_eq!(get_rate_limit_ms(Some("250")), Some(250));
    assert_eq!(get_rate_limit_ms(Some("0")), None);
    assert_eq!(u64_setting(Some("7"), 1), 7);
    assert_eq!(u64_setting(None, 1), 1);
}

#[test]
fn requests_wait_for_the_rest_of_the_interval() {
    assert_eq!(delay(100, span(0, 30_000_000)), Some(span(0, 70_000_000)));
    assert_eq!(delay(100, span(0, 100_000_000)), None);
    assert_eq!(delay(2500, span(0, 1)), Some(span(2, 499_999_999)));
    assert_eq!(delay(u64::MAX, span(0, 0)), Some(span(u64::MAX / 1000, 615_000_000)));
    assert_eq!(delay(1, span(u64::MAX, 999_999_999)), None);
}

#[test]
fn the_limit_follows_the_setting() {
    assert_eq!(rate_limit_middleware(None, span(0, 0)), Some(span(0, 100_000_000)));
    assert_eq!(rate_limit_middleware(Some("0"), span(0, 0)), None);
    assert_eq!(rate_limit_middleware(Some("1000"), span(1, 0)), None);
}

#[test]
fn a_wait_completes_the_interval() {
    for (interval, elapsed) in [(100, span(0, 99_999_999)), (1, span(0, 0)), (5000, span(4, 1))] {
        let wait = delay(interval, elapsed).unwrap();
        let total = |s: Span| s.secs as u128 * 1_000_000_000 + s.nanos as u128;
        assert_eq!(total(wait) + total(elapsed), interval as u128 * 1_000_000);
    }
}

#[test]
fn variables_have_defaults() {
    assert_eq!(get_env_or_default(None, "8080"), "8080");
    assert_eq!(get_env_or_default(Some(""), "8080"), "");
    assert_eq!(cache_ttl_seconds(None), 259200);
    assert_eq!(cache_ttl_seconds(Some("60")), 60);
    assert_eq!(cache_size_mb(None), 100);
    assert_eq!(cache_size_mb(Some("-1")), 100);
    assert_eq!(cache_size_mb(Some("5")), 5);
    assert_eq!(max_request_size(None), 1073741824);
    assert_eq!(max_request_size(Some("many")), 1073741824);
    assert_eq!(max_request_size(Some("10")), 10);
    assert_eq!(bind_address("0.0.0.0", "8080"), "0.0.0.0:8080");
}

#[test]
fn the_server_limit_is_a_signed_number() {
    assert_eq!(server_size_setting(None), 1073741824);
    assert_eq!(server_size_setting(Some("4294967296")), 1073741824);
    assert_eq!(server_size_setting(Some("-5")), -5);
    assert_eq!(server_size_setting(Some("5")), 5);
}

#[test]
fn the_log_does_not_show_the_password() {
    assert_eq!(show_value("ADMIN_PASSWORD", "é3"), "***");
    assert_eq!(show_value("ADMIN_PASSWORD", ""), "");
    assert_eq!(show_value("HOST", "h"), "h");
}

#[test]
fn spans_are_written_from_their_largest_unit_on() {
    assert_eq!(format_ttl(0), "0 seconds");
    assert_eq!(format_ttl(59), "59 seconds");
    assert_eq!(format_ttl(60), "1 minutes 0 seconds");
    assert_eq!(format_ttl(3661), "1 hours 1 minutes 1 seconds");
    assert_eq!(format_ttl(259200), "3 days 0 hours 0 minutes 0 seconds");
    assert_eq!(format_ttl(86400 + 7200 + 180 + 4), "1 days 2 hours 3 minutes 4 seconds");
}

#[test]
fn configurations_are_loaded() {
    let config = || Config { enable: Some(true), models: vec![], custom_models: None };
    assert_eq!(load_config_from_yaml(Some(Ok(Ok(config())))), Ok(config()));
    assert_eq!(
        load_config_from_yaml(Some(Ok(Err("bad".to_string())))),
        Err("Failed to parse models.yaml: bad".to_string())
    );
    assert_eq!(
        load_config_from_yaml(Some(Err("gone".to_string()))),
        Err("Failed to read models.yaml: gone".to_string())
    );
    assert_eq!(
        load_config_from_yaml(None),
        Ok(Config { enable: Some(false), models: vec![], custom_models: None })
    );
}
