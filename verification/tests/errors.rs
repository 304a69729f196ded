use poe2openai::errors::{convert_poe_error_to_openai, make_error};

fn classify(text: &str) -> (u16, String, String) {
    let (status, body) = convert_poe_error_to_openai(text, true);
    let (again, same) = convert_poe_error_to_openai(text, false);
    assert_eq!((status, &body), (again, &same));
    assert_eq!(body.error.message, text);
    assert_eq!(body.error.param, None);
    (status, body.error.kind, body.error.code)
}

fn expected(status: u16, kind: &str, code: &str) -> (u16, String, String) {
    (status, kind.to_string(), code.to_string())
}

#[test]
fn failures_are_classified() {
    assert_eq!(
        classify("Internal server error: rate limit"),
        expected(500, "internal_error", "internal_error")
    );
    assert_eq!(
        classify("You hit the rate limit"),
        expected(429, "rate_limit_exceeded", "rate_limit_exceeded")
    );
    assert_eq!(classify("Invalid token"), expected(401, "invalid_auth", "invalid_api_key"));
    assert_eq!(classify("401 Unauthorized"), expected(401, "invalid_auth", "invalid_api_key"));
    assert_eq!(
        classify("Bot does not exist"),
        expected(404, "model_not_found", "model_not_found")
    );
    assert_eq!(classify("something else"), expected(400, "invalid_request", "bad_request"));
}

#[test]
fn error_bodies_hold_what_they_are_given() {
    let body = make_error("m", "k", "c");
    assert_eq!(body.error.message, "m");
    assert_eq!(body.error.kind, "k");
    assert_eq!(body.error.code, "c");
    assert_eq!(body.error.param, None);
}
