use poe2openai::chat::{
    accept_request, authorize, chat_completions, prepare_chat, refuse_request, refuse_upload,
    AcceptedRequest, ChatCompletionRequest, ErrorBody, Refusal, StreamOptions,
};
use poe2openai::types::{Config, Message, ModelConfig, ModelEntry, OpenAiContent};

type Request = ChatCompletionRequest<u8, u8, u8>;

fn plain(status: u16, text: &str) -> Refusal {
    Refusal { status, body: ErrorBody::Plain(text.to_string()) }
}

fn config() -> Config {
    Config {
        enable: Some(true),
        models: vec![ModelEntry {
            name: "Bot".to_string(),
            config: ModelConfig {
                mapping: Some("Alias".to_string()),
                replace_response: Some(true),
                enable: None,
            },
        }],
        custom_models: None,
    }
}

fn request(stream: Option<bool>, options: Option<Option<bool>>) -> Request {
    ChatCompletionRequest {
        model: "alias".to_string(),
        messages: vec![Message {
            role: "system".to_string(),
            content: OpenAiContent::Text("hello world".to_string()),
        }],
        temperature: Some(1),
        stream,
        tools: None,
        logit_bias: None,
        stop: None,
        stream_options: options.map(|include_usage| StreamOptions { include_usage }),
    }
}

fn full(refusal: Refusal) -> (u16, String, String, String) {
    match refusal.body {
        ErrorBody::Full(e) => (refusal.status, e.error.message, e.error.kind, e.error.code),
        ErrorBody::Plain(text) => panic!("{}", text),
    }
}

#[test]
fn only_bearers_are_authorized() {
    assert_eq!(authorize(Some("Bearer key")), Ok("key".to_string()));
    assert_eq!(authorize(Some("Bearer ")), Ok("".to_string()));
    assert_eq!(authorize(Some("Basic key")), Err(plain(401, "Invalid Authorization")));
    assert_eq!(authorize(Some("")), Err(plain(401, "Invalid Authorization")));
    assert_eq!(authorize(None), Err(plain(401, "Missing Authorization")));
}

#[test]
fn unread_bodies_are_refused() {
    let r = accept_request::<u8, u8, u8>(&config(), 1024, Err("cut".to_string()));
    assert_eq!(
        full(r.unwrap_err()),
        (
            413,
            "Request size exceeds limit (1024 bytes) or read failed: cut".to_string(),
            "invalid_request_error".to_string(),
            "payload_too_large".to_string()
        )
    );
}

#[test]
fn bodies_that_are_no_request_are_refused() {
    let r = accept_request::<u8, u8, u8>(&config(), 1024, Ok(Err("eof".to_string())));
    assert_eq!(
        full(r.unwrap_err()),
        (
            400,
            "JSON parse failed: eof".to_string(),
            "invalid_request_error".to_string(),
            "parse_error".to_string()
        )
    );
}

#[test]
fn accepted_requests_know_their_models() {
    let r = accept_request(&config(), 1024, Ok(Ok(request(None, None)))).unwrap();
    assert_eq!((r.display_model.as_str(), r.original_model.as_str()), ("alias", "Bot"));
    assert_eq!(r.request.temperature, Some(1));
}

#[test]
fn other_refusals() {
    assert_eq!(
        full(refuse_upload("e")),
        (
            500,
            "Failed to process file upload: e".to_string(),
            "processing_error".to_string(),
            "file_processing_failed".to_string()
        )
    );
    assert_eq!(refuse_request("e"), plain(500, "e"));
}

fn accepted(stream: Option<bool>, options: Option<Option<bool>>) -> AcceptedRequest<u8, u8, u8> {
    accept_request(&config(), 1024, Ok(Ok(request(stream, options)))).unwrap()
}

#[test]
fn a_chat_is_prepared_as_the_request_asks() {
    let a = accepted(Some(true), Some(Some(true)));
    let messages = a.request.messages.clone();
    let chat = chat_completions(&config(), a, &messages).unwrap();
    assert!(chat.stream);
    assert!(chat.generator.include_usage);
    assert_eq!(chat.generator.model, "alias");
    assert_eq!(chat.generator.prompt_tokens, 8);
    assert_eq!(chat.generator.id.len(), 10);
    assert_eq!(chat.request.query[0].role, "user");
    assert_eq!(chat.request.query[0].content, "hello world");
    assert_eq!(chat.request.temperature, Some(1));
}

#[test]
fn streaming_and_usage_are_off_unless_asked_for() {
    for (stream, options) in [(None, None), (Some(false), Some(None)), (None, Some(Some(false)))] {
        let chat = prepare_chat(&config(), accepted(stream, options), &vec![], 3);
        assert!(!chat.stream && !chat.generator.include_usage);
        assert_eq!(chat.generator.prompt_tokens, 3);
        assert_eq!(chat.request.query.len(), 0);
    }
}
