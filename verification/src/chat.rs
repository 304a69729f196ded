//! A chat request on its way: who may make it, which model it goes to, what is
//! sent to Poe, and what is answered when it cannot be served.
use crate::config::{resolve_model, resolved};
use crate::decimal::{decimal, to_decimal};
use crate::errors::{error_body, make_error};
use crate::external::url_safe;
use crate::output::{GeneratorView, OutputGenerator};
use crate::poe_client::{
    create_chat_request, poe_query, replaces_response, tool_results_of, ChatRequest,
};
use crate::text::{begins_with, strip_prefix, views};
use crate::tokens::{countable, message_total, text_counts, try_count_message_tokens};
use crate::types::{
    opt_views, Config, ConfigView, Message, MessageView, OpenAIErrorResponse,
    OpenAIErrorResponseView,
};
use vstd::prelude::*;

verus! {

/// What a streaming answer is to hold.
#[derive(Debug, Clone, Copy, PartialEq, Eq)]
pub struct StreamOptions {
    /// Whether the last chunk states the usage.
    pub include_usage: Option<bool>,
}

/// A chat request as the client makes it. The temperature, the tools and the
/// bias of the tokens go through as they come.
#[derive(Debug)]
pub struct ChatCompletionRequest<F, T, B> {
    /// The model that the client asks for.
    pub model: String,
    /// The conversation.
    pub messages: Vec<Message>,
    /// The temperature.
    pub temperature: Option<F>,
    /// Whether the answer is to be streamed.
    pub stream: Option<bool>,
    /// The tools that the model may call.
    pub tools: Option<Vec<T>>,
    /// The bias of the tokens.
    pub logit_bias: Option<B>,
    /// The texts that end the answer.
    pub stop: Option<Vec<String>>,
    /// What a streaming answer is to hold.
    pub stream_options: Option<StreamOptions>,
}

/// The body of the answer to a request that is not served.
#[derive(Debug, PartialEq, Eq)]
pub enum ErrorBody {
    /// An object whose member `error` is a text.
    Plain(String),
    /// An error in the form that OpenAI clients expect.
    Full(OpenAIErrorResponse),
}

/// The value of an `ErrorBody`.
#[verifier::ext_equal]
pub enum ErrorBodyView {
    /// An object whose member `error` is a text.
    Plain(Seq<char>),
    /// An error in the form that OpenAI clients expect.
    Full(OpenAIErrorResponseView),
}

/// The answer to a request that is not served.
#[derive(Debug, PartialEq, Eq)]
pub struct Refusal {
    /// The HTTP status.
    pub status: u16,
    /// The body.
    pub body: ErrorBody,
}

/// The value of a `Refusal`.
#[verifier::ext_equal]
pub struct RefusalView {
    /// The HTTP status.
    pub status: u16,
    /// The body.
    pub body: ErrorBodyView,
}

impl View for Refusal {
    type V = RefusalView;

    open spec fn view(&self) -> RefusalView {
        RefusalView {
            status: self.status,
            body: match self.body {
                ErrorBody::Plain(text) => ErrorBodyView::Plain(text@),
                ErrorBody::Full(error) => ErrorBodyView::Full(error@),
            },
        }
    }
}

/// A refusal with a plain text.
pub open spec fn plain_refusal(status: u16, text: Seq<char>) -> RefusalView {
    RefusalView { status, body: ErrorBodyView::Plain(text) }
}

/// A refusal with a full error.
pub open spec fn full_refusal(
    status: u16,
    message: Seq<char>,
    kind: Seq<char>,
    code: Seq<char>,
) -> RefusalView {
    RefusalView { status, body: ErrorBodyView::Full(error_body(message, kind, code)) }
}

/// Refuses with a plain text.
fn refuse(status: u16, text: &str) -> (r: Refusal)
    ensures
        r@ == plain_refusal(status, text@),
{
    Refusal { status, body: ErrorBody::Plain(text.to_owned()) }
}

/// Refuses with a full error.
fn refuse_fully(status: u16, message: &str, kind: &str, code: &str) -> (r: Refusal)
    ensures
        r@ == full_refusal(status, message@, kind@, code@),
{
    Refusal { status, body: ErrorBody::Full(make_error(message, kind, code)) }
}

/// The access key in the `Authorization` header of a request, or the refusal.
pub open spec fn access_key_in(header: Option<&str>) -> Result<Seq<char>, RefusalView> {
    match header {
        Some(h) => if begins_with(h@, "Bearer "@) {
            Ok(h@.skip("Bearer "@.len() as int))
        } else {
            Err(plain_refusal(401, "Invalid Authorization"@))
        },
        None => Err(plain_refusal(401, "Missing Authorization"@)),
    }
}

/// Takes the access key out of the `Authorization` header of a request. A
/// header that is no text counts as empty.
pub fn authorize(header: Option<&str>) -> (r: Result<String, Refusal>)
    ensures
        match r {
            Ok(key) => access_key_in(header) == Ok::<Seq<char>, RefusalView>(key@),
            Err(refusal) => access_key_in(header) == Err::<Seq<char>, RefusalView>(refusal@),
        },
{
    match header {
        Some(h) => match strip_prefix(h, "Bearer ") {
            Some(key) => Ok(key),
            None => Err(refuse(401, "Invalid Authorization")),
        },
        None => Err(refuse(401, "Missing Authorization")),
    }
}

/// A request goes through only with a key, and with nothing but `Bearer` and a
/// blank before it.
pub proof fn only_bearers_pass(header: &str)
    ensures
        access_key_in(Some(header)) matches Ok(key) ==> header@ == "Bearer "@ + key,
        access_key_in(Some(header)) is Ok <==> begins_with(header@, "Bearer "@),
        access_key_in(None) is Err,
{
    if begins_with(header@, "Bearer "@) {
        let n = "Bearer "@.len() as int;
        assert(header@.take(n) == "Bearer "@);
        assert(header@ =~= header@.take(n) + header@.skip(n));
    }
}

/// A request that is to be served.
#[derive(Debug)]
pub struct AcceptedRequest<F, T, B> {
    /// The name of the model that the client sees.
    pub display_model: String,
    /// The name of the model at Poe.
    pub original_model: String,
    /// The request.
    pub request: ChatCompletionRequest<F, T, B>,
}

/// The refusal of a body that could not be read.
pub open spec fn unread_body(max_size: usize, e: Seq<char>) -> RefusalView {
    full_refusal(
        413,
        "Request size exceeds limit ("@ + decimal(max_size as nat) + " bytes) or read failed: "@
            + e,
        "invalid_request_error"@,
        "payload_too_large"@,
    )
}

/// The refusal of a body that is no chat request.
pub open spec fn unparsed_body(e: Seq<char>) -> RefusalView {
    full_refusal(400, "JSON parse failed: "@ + e, "invalid_request_error"@, "parse_error"@)
}

/// Accepts the body of a request: what came of reading it, and what came of
/// making sense of what was read.
pub fn accept_request<F, T, B>(
    config: &Config,
    max_size: usize,
    body: Result<Result<ChatCompletionRequest<F, T, B>, String>, String>,
) -> (r: Result<AcceptedRequest<F, T, B>, Refusal>)
    ensures
        match body {
            Ok(Ok(request)) => r matches Ok(accepted) && accepted.request == request && (
                accepted.display_model@,
                accepted.original_model@,
            ) == resolved(config@, request.model@),
            Ok(Err(e)) => r matches Err(refusal) && refusal@ == unparsed_body(e@),
            Err(e) => r matches Err(refusal) && refusal@ == unread_body(max_size, e@),
        },
{
    match body {
        Ok(Ok(request)) => {
            let (display_model, original_model) = resolve_model(config, &request.model);
            Ok(AcceptedRequest { display_model, original_model, request })
        },
        Ok(Err(e)) => {
            let mut message = "JSON parse failed: ".to_owned();
            message.append(&e);
            Err(refuse_fully(400, &message, "invalid_request_error", "parse_error"))
        },
        Err(e) => {
            let mut message = "Request size exceeds limit (".to_owned();
            let size = to_decimal(max_size as u64);
            message.append(&size);
            message.append(" bytes) or read failed: ");
            message.append(&e);
            Err(refuse_fully(413, &message, "invalid_request_error", "payload_too_large"))
        },
    }
}

/// The refusal of a request whose images could not be uploaded.
pub open spec fn failed_upload(e: Seq<char>) -> RefusalView {
    full_refusal(
        500,
        "Failed to process file upload: "@ + e,
        "processing_error"@,
        "file_processing_failed"@,
    )
}

/// Refuses a request whose images could not be uploaded.
pub fn refuse_upload(e: &str) -> (r: Refusal)
    ensures
        r@ == failed_upload(e@),
{
    let mut message = "Failed to process file upload: ".to_owned();
    message.append(e);
    refuse_fully(500, &message, "processing_error", "file_processing_failed")
}

/// Refuses a request that Poe does not take.
pub fn refuse_request(e: &str) -> (r: Refusal)
    ensures
        r@ == plain_refusal(500, e@),
{
    refuse(500, e)
}

/// What is sent to Poe, what makes the answer, and whether it is streamed.
pub struct PreparedChat<F, T, B> {
    /// What is sent to Poe.
    pub request: ChatRequest<F, T, B>,
    /// What makes the answer.
    pub generator: OutputGenerator,
    /// Whether the answer is streamed.
    pub stream: bool,
}

/// A request to a bot holds what the client has asked for.
pub open spec fn carries<F, T, B>(
    sent: ChatRequest<F, T, B>,
    config: ConfigView,
    model: Seq<char>,
    messages: Seq<MessageView>,
    request: ChatCompletionRequest<F, T, B>,
) -> bool {
    &&& sent.version@ == "1.1"@
    &&& sent.kind@ == "query"@
    &&& views(sent.query@) == poe_query(messages, replaces_response(config, model))
    &&& sent.temperature == request.temperature
    &&& sent.user_id@ == ""@
    &&& sent.conversation_id@ == ""@
    &&& sent.message_id@ == ""@
    &&& sent.tools == request.tools
    &&& sent.tool_calls is None
    &&& opt_views(sent.tool_results) == (if tool_results_of(messages).len() > 0 {
        Some(tool_results_of(messages))
    } else {
        None
    })
    &&& sent.logit_bias == request.logit_bias
    &&& sent.stop_sequences == request.stop
}

/// The usage is to be stated.
pub open spec fn wants_usage(options: Option<StreamOptions>) -> bool {
    options matches Some(o) && o.include_usage == Some(true)
}

/// A chat is prepared as a request asks, given the number of tokens of its
/// conversation. The name of the answer is left to chance, its date to the
/// clock.
pub open spec fn prepared_with<F, T, B>(
    chat: PreparedChat<F, T, B>,
    config: ConfigView,
    accepted: AcceptedRequest<F, T, B>,
    messages: Seq<MessageView>,
    prompt_tokens: u32,
) -> bool {
    &&& carries(chat.request, config, accepted.original_model@, messages, accepted.request)
    &&& chat.generator@ == (GeneratorView {
        id: chat.generator.id@,
        created: chat.generator.created,
        model: accepted.display_model@,
        prompt_tokens,
        include_usage: wants_usage(accepted.request.stream_options),
    })
    &&& chat.generator.id@.len() == 10
    &&& forall|i: int| 0 <= i < 10 ==> url_safe(#[trigger] chat.generator.id@[i])
    &&& chat.stream == (accepted.request.stream == Some(true))
}

/// Prepares a chat, given the number of tokens of its conversation.
pub fn prepare_chat<F, T, B>(
    config: &Config,
    accepted: AcceptedRequest<F, T, B>,
    messages: &Vec<Message>,
    prompt_tokens: u32,
) -> (chat: PreparedChat<F, T, B>)
    ensures
        prepared_with(chat, config@, accepted, views(messages@), prompt_tokens),
{
    let include_usage = match &accepted.request.stream_options {
        Some(options) => options.include_usage.unwrap_or(false),
        None => false,
    };
    let stream = accepted.request.stream.unwrap_or(false);
    let request = create_chat_request(
        config,
        &accepted.original_model,
        messages,
        accepted.request.temperature,
        accepted.request.tools,
        accepted.request.logit_bias,
        accepted.request.stop,
    );
    let generator = OutputGenerator::new(accepted.display_model, prompt_tokens, include_usage);
    PreparedChat { request, generator, stream }
}

/// Prepares a chat with the conversation whose images have been uploaded; none
/// where its tokens cannot be counted.
pub fn chat_completions<F, T, B>(
    config: &Config,
    accepted: AcceptedRequest<F, T, B>,
    messages: &Vec<Message>,
) -> (r: Option<PreparedChat<F, T, B>>)
    ensures
        match r {
            Some(chat) => countable(views(messages@)) && message_total(
                text_counts(views(messages@)),
            ) <= u32::MAX && prepared_with(
                chat,
                config@,
                accepted,
                views(messages@),
                message_total(text_counts(views(messages@))) as u32,
            ),
            None => !countable(views(messages@)) || message_total(text_counts(views(messages@)))
                > u32::MAX,
        },
{
    match try_count_message_tokens(messages.as_slice()) {
        Some(prompt_tokens) => Some(prepare_chat(config, accepted, messages, prompt_tokens)),
        None => None,
    }
}

} // verus!
