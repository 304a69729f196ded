//! What clients are told when something fails, and how messages are framed.
use crate::chat::{
    access_key_in, failed_upload, plain_refusal, unparsed_body, unread_body, ErrorBodyView,
};
use crate::decimal::decimal;
use crate::errors::{converted, error_body};
use crate::stream::{closing, framed, let_out};
use crate::text_laws::{occurrence_is_by_character, reads_at, stands_in};
use vstd::prelude::*;

verus! {

/// The words of a failure decide its status, its class and its code: an
/// internal error comes before a rate limit, that before a wrong key, and that
/// before a missing bot. The description is passed on as it is.
pub proof fn words_decide_the_status(text: Seq<char>)
    ensures
        ({
            let (status, body) = converted(text);
            let internal = stands_in(text, "Internal server error"@);
            let limited = stands_in(text, "rate limit"@);
            let wrong_key = stands_in(text, "Invalid token"@) || stands_in(text, "Unauthorized"@);
            let missing = stands_in(text, "Bot does not exist"@);
            &&& body.error.message == text
            &&& body.error.param is None
            &&& internal ==> status == 500 && body.error.kind == "internal_error"@
                && body.error.code == "internal_error"@
            &&& !internal && limited ==> status == 429 && body.error.kind == "rate_limit_exceeded"@
                && body.error.code == "rate_limit_exceeded"@
            &&& !internal && !limited && wrong_key ==> status == 401 && body.error.kind
                == "invalid_auth"@ && body.error.code == "invalid_api_key"@
            &&& !internal && !limited && !wrong_key && missing ==> status == 404 && body.error.kind
                == "model_not_found"@ && body.error.code == "model_not_found"@
            &&& !internal && !limited && !wrong_key && !missing ==> status == 400
                && body.error.kind == "invalid_request"@ && body.error.code == "bad_request"@
        }),
{
    occurrence_is_by_character(text, "Internal server error"@);
    occurrence_is_by_character(text, "rate limit"@);
    occurrence_is_by_character(text, "Invalid token"@);
    occurrence_is_by_character(text, "Unauthorized"@);
    occurrence_is_by_character(text, "Bot does not exist"@);
}

/// A key that is sent as a bearer's is taken as it is; any other header, and a
/// missing one, is refused as unauthorized.
pub proof fn keys_are_taken_as_they_are(header: &str, key: Seq<char>)
    ensures
        header@ == "Bearer "@ + key ==> access_key_in(Some(header)) == Ok::<
            _,
            crate::chat::RefusalView,
        >(key),
        !reads_at(header@, "Bearer "@, 0) ==> access_key_in(Some(header)) is Err
            && access_key_in(Some(header))->Err_0.status == 401
            && access_key_in(Some(header))->Err_0.body == ErrorBodyView::Plain(
            "Invalid Authorization"@,
        ),
        access_key_in(None) is Err,
        access_key_in(None)->Err_0.status == 401,
        access_key_in(None)->Err_0.body == ErrorBodyView::Plain("Missing Authorization"@),
{
    crate::text_laws::beginning_is_by_character(header@, "Bearer "@);
    if header@ == "Bearer "@ + key {
        let n = "Bearer "@.len() as int;
        assert(header@.take(n) =~= "Bearer "@);
        assert(header@.skip(n) =~= key);
    }
    if !reads_at(header@, "Bearer "@, 0) && "Bearer "@.len() <= header@.len() {
        let k = choose|k: int|
            0 <= k < "Bearer "@.len() && header@[0 + k] != #[trigger] "Bearer "@[k];
        assert(header@[k] != "Bearer "@[k]);
    }
}

/// A refused request is told why, in full: a body that cannot be read is too
/// large, one that is no request cannot be parsed, and an upload that fails
/// fails with its reason.
pub proof fn refusals_tell_why(max_size: usize, e: Seq<char>)
    ensures
        ({
            let r = unread_body(max_size, e);
            &&& r.status == 413
            &&& r.body is Full
            &&& r.body->Full_0.error.message == "Request size exceeds limit ("@ + decimal(
                max_size as nat,
            ) + " bytes) or read failed: "@ + e
            &&& r.body->Full_0.error.kind == "invalid_request_error"@
            &&& r.body->Full_0.error.code == "payload_too_large"@
            &&& r.body->Full_0.error.param is None
        }),
        ({
            let r = unparsed_body(e);
            &&& r.status == 400
            &&& r.body is Full
            &&& r.body->Full_0.error.message == "JSON parse failed: "@ + e
            &&& r.body->Full_0.error.kind == "invalid_request_error"@
            &&& r.body->Full_0.error.code == "parse_error"@
            &&& r.body->Full_0.error.param is None
        }),
        ({
            let r = failed_upload(e);
            &&& r.status == 500
            &&& r.body is Full
            &&& r.body->Full_0.error.message == "Failed to process file upload: "@ + e
            &&& r.body->Full_0.error.kind == "processing_error"@
            &&& r.body->Full_0.error.code == "file_processing_failed"@
            &&& r.body->Full_0.error.param is None
        }),
{
}

/// Messages are framed one after the other, each as an event of its own.
pub proof fn messages_are_framed_one_by_one(a: Seq<Seq<char>>, b: Seq<Seq<char>>, json: Seq<char>)
    ensures
        framed(a + b) == framed(a) + framed(b),
        framed(seq![json]) == "data: "@ + json + "\n\n"@,
    decreases b.len(),
{
    let one = seq![json];
    assert(one.drop_last() =~= Seq::<Seq<char>>::empty());
    assert(framed(one.drop_last()) =~= Seq::<char>::empty());
    assert(framed(one) =~= "data: "@ + json + "\n\n"@);
    if b.len() == 0 {
        assert(a + b =~= a);
        assert(framed(a) + framed(b) =~= framed(a));
    } else {
        messages_are_framed_one_by_one(a, b.drop_last(), json);
        assert((a + b).drop_last() =~= a + b.drop_last());
        assert((a + b).last() == b.last());
        assert(framed(a + b) =~= framed(a) + framed(b));
    }
}

/// The messages of a step go out framed, the end of the stream goes out as the
/// closing event, and nothing goes out after it or for a step without messages.
pub proof fn steps_go_out_framed(messages: Seq<Seq<char>>, jsons: Option<Seq<Seq<char>>>)
    ensures
        let_out(true, jsons) == (true, None::<Seq<char>>),
        messages.len() > 0 ==> let_out(false, Some(messages)) == (false, Some(framed(messages))),
        messages.len() == 0 ==> let_out(false, Some(messages)) == (false, None::<Seq<char>>),
        let_out(false, None) == (true, Some("data: [DONE]\n\n"@)),
        closing() == "data: [DONE]\n\n"@,
{
}

/// A refusal has the status and the text that it is given, and an error body the
/// message, the class and the code.
pub proof fn refusals_hold_what_they_are_given(
    status: u16,
    message: Seq<char>,
    kind: Seq<char>,
    code: Seq<char>,
)
    ensures
        plain_refusal(status, message).status == status,
        plain_refusal(status, message).body == ErrorBodyView::Plain(message),
        error_body(message, kind, code).error.message == message,
        error_body(message, kind, code).error.kind == kind,
        error_body(message, kind, code).error.code == code,
        error_body(message, kind, code).error.param is None,
{
}

} // verus!
