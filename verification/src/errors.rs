//! Failures at Poe, in the form that OpenAI clients expect.
use crate::text::{contains, contains_text};
use crate::types::{OpenAIError, OpenAIErrorResponse, OpenAIErrorResponseView, OpenAIErrorView};
use vstd::prelude::*;

verus! {

/// The HTTP status, the class and the code for a failure that Poe describes
/// with `text`. Where several phrases occur in it, the first of the list counts.
pub open spec fn classified(text: Seq<char>) -> (u16, Seq<char>, Seq<char>) {
    if contains_text(text, "Internal server error"@) {
        (500, "internal_error"@, "internal_error"@)
    } else if contains_text(text, "rate limit"@) {
        (429, "rate_limit_exceeded"@, "rate_limit_exceeded"@)
    } else if contains_text(text, "Invalid token"@) || contains_text(text, "Unauthorized"@) {
        (401, "invalid_auth"@, "invalid_api_key"@)
    } else if contains_text(text, "Bot does not exist"@) {
        (404, "model_not_found"@, "model_not_found"@)
    } else {
        (400, "invalid_request"@, "bad_request"@)
    }
}

/// An error body without a parameter.
pub open spec fn error_body(
    message: Seq<char>,
    kind: Seq<char>,
    code: Seq<char>,
) -> OpenAIErrorResponseView {
    OpenAIErrorResponseView { error: OpenAIErrorView { message, kind, code, param: None } }
}

/// The status and the body of the reply to a failure that Poe describes with
/// `text`.
pub open spec fn converted(text: Seq<char>) -> (u16, OpenAIErrorResponseView) {
    let (status, kind, code) = classified(text);
    (status, error_body(text, kind, code))
}

/// Builds an error body without a parameter.
pub fn make_error(message: &str, kind: &str, code: &str) -> (r: OpenAIErrorResponse)
    ensures
        r@ == error_body(message@, kind@, code@),
{
    OpenAIErrorResponse {
        error: OpenAIError {
            message: message.to_owned(),
            kind: kind.to_owned(),
            code: code.to_owned(),
            param: None,
        },
    }
}

/// Converts a failure at Poe into a status and an error body. Whether another
/// attempt makes sense has no influence on either.
pub fn convert_poe_error_to_openai(error_text: &str, allow_retry: bool) -> (r: (
    u16,
    OpenAIErrorResponse,
))
    ensures
        (r.0, r.1@) == converted(error_text@),
{
    let (status, kind, code): (u16, &str, &str) = if contains(error_text, "Internal server error") {
        (500, "internal_error", "internal_error")
    } else if contains(error_text, "rate limit") {
        (429, "rate_limit_exceeded", "rate_limit_exceeded")
    } else if contains(error_text, "Invalid token") || contains(error_text, "Unauthorized") {
        (401, "invalid_auth", "invalid_api_key")
    } else if contains(error_text, "Bot does not exist") {
        (404, "model_not_found", "model_not_found")
    } else {
        (400, "invalid_request", "bad_request")
    };
    (status, make_error(error_text, kind, code))
}

} // verus!
