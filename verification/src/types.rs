//! The messages, events, requests and replies that the gateway exchanges, and
//! the mathematical values that contracts speak of in their place.
use crate::text::views;
use vstd::prelude::*;

verus! {

/// The view of an optional value.
pub open spec fn opt_view<T: View>(o: Option<T>) -> Option<T::V> {
    match o {
        Some(x) => Some(x@),
        None => None,
    }
}

/// The views of an optional vector's elements.
pub open spec fn opt_views<T: View>(o: Option<Vec<T>>) -> Option<Seq<T::V>> {
    match o {
        Some(v) => Some(views(v@)),
        None => None,
    }
}

/// The values of optional strings.
pub open spec fn opt_texts(s: Seq<Option<String>>) -> Seq<Option<Seq<char>>> {
    Seq::new(s.len(), |i: int| opt_view(s[i]))
}

/// Clones an optional string.
pub fn clone_opt(o: &Option<String>) -> (r: Option<String>)
    ensures
        opt_view(r) == opt_view(*o),
{
    match o {
        Some(s) => Some(s.clone()),
        None => None,
    }
}

/// The target of an image item.
#[derive(Debug, PartialEq, Eq)]
pub struct ImageUrlContent {
    /// Where the image is: a web address or a data URL.
    pub url: String,
}

/// The value of a [`ImageUrlContent`].
#[verifier::ext_equal]
pub struct ImageUrlContentView {
    pub url: Seq<char>,
}

impl View for ImageUrlContent {
    type V = ImageUrlContentView;

    open spec fn view(&self) -> ImageUrlContentView {
        ImageUrlContentView {
            url: self.url@,
        }
    }
}

impl Clone for ImageUrlContent {
    fn clone(&self) -> (r: Self)
        ensures
            r@ == self@,
    {
        let r = ImageUrlContent {
            url: self.url.clone(),
        };
        assert(r@ =~= self@);
        r
    }
}

/// One part of a message.
#[derive(Debug, PartialEq, Eq)]
pub enum OpenAiContentItem {
    /// A piece of text.
    Text { text: String },
    /// An image or another file, by its address.
    ImageUrl { image_url: ImageUrlContent },
}

/// The value of an [`OpenAiContentItem`].
#[verifier::ext_equal]
pub enum ItemView {
    Text(Seq<char>),
    ImageUrl(Seq<char>),
}

impl View for OpenAiContentItem {
    type V = ItemView;

    open spec fn view(&self) -> ItemView {
        match self {
            OpenAiContentItem::Text { text } => ItemView::Text(text@),
            OpenAiContentItem::ImageUrl { image_url } => ItemView::ImageUrl(image_url.url@),
        }
    }
}

impl Clone for OpenAiContentItem {
    fn clone(&self) -> (r: Self)
        ensures
            r@ == self@,
    {
        match self {
            OpenAiContentItem::Text { text } => OpenAiContentItem::Text { text: text.clone() },
            OpenAiContentItem::ImageUrl { image_url } => OpenAiContentItem::ImageUrl {
                image_url: image_url.clone(),
            },
        }
    }
}

/// What a message says: one text, or parts.
#[derive(Debug, PartialEq, Eq)]
pub enum OpenAiContent {
    /// One text.
    Text(String),
    /// Parts, in order.
    Multi(Vec<OpenAiContentItem>),
}

/// The value of an [`OpenAiContent`].
#[verifier::ext_equal]
pub enum ContentView {
    Text(Seq<char>),
    Multi(Seq<ItemView>),
}

impl View for OpenAiContent {
    type V = ContentView;

    open spec fn view(&self) -> ContentView {
        match self {
            OpenAiContent::Text(s) => ContentView::Text(s@),
            OpenAiContent::Multi(items) => ContentView::Multi(views(items@)),
        }
    }
}

impl Clone for OpenAiContent {
    fn clone(&self) -> (r: Self)
        ensures
            r@ == self@,
    {
        match self {
            OpenAiContent::Text(s) => OpenAiContent::Text(s.clone()),
            OpenAiContent::Multi(items) => {
                let copy = items.clone();
                assert(views(copy@) =~= views(items@));
                OpenAiContent::Multi(copy)
            },
        }
    }
}

/// A message of an OpenAI chat.
#[derive(Debug, PartialEq, Eq)]
pub struct Message {
    /// Who speaks: `user`, `assistant`, `system`, `developer` or `tool`.
    pub role: String,
    /// What is said.
    pub content: OpenAiContent,
}

/// The value of a [`Message`].
#[verifier::ext_equal]
pub struct MessageView {
    pub role: Seq<char>,
    pub content: ContentView,
}

impl View for Message {
    type V = MessageView;

    open spec fn view(&self) -> MessageView {
        MessageView { role: self.role@, content: self.content@ }
    }
}

impl Clone for Message {
    fn clone(&self) -> (r: Self)
        ensures
            r@ == self@,
    {
        Message { role: self.role.clone(), content: self.content.clone() }
    }
}

/// What the configuration says of one model.
#[derive(Debug, PartialEq, Eq)]
pub struct ModelConfig {
    /// The name under which the model is offered.
    pub mapping: Option<String>,
    /// Whether system messages are sent as user messages.
    pub replace_response: Option<bool>,
    /// Whether the model is offered; it is where nothing is said.
    pub enable: Option<bool>,
}

/// The value of a [`ModelConfig`].
#[verifier::ext_equal]
pub struct ModelConfigView {
    pub mapping: Option<Seq<char>>,
    pub replace_response: Option<bool>,
    pub enable: Option<bool>,
}

impl View for ModelConfig {
    type V = ModelConfigView;

    open spec fn view(&self) -> ModelConfigView {
        ModelConfigView {
            mapping: opt_view(self.mapping),
            replace_response: self.replace_response,
            enable: self.enable,
        }
    }
}

impl Clone for ModelConfig {
    fn clone(&self) -> (r: Self)
        ensures
            r@ == self@,
    {
        let r = ModelConfig {
            mapping: clone_opt(&self.mapping),
            replace_response: self.replace_response,
            enable: self.enable,
        };
        assert(r@ =~= self@);
        r
    }
}

/// One entry of the table of models.
#[derive(Debug, PartialEq, Eq)]
pub struct ModelEntry {
    /// The name of the model at Poe.
    pub name: String,
    /// What is configured for it.
    pub config: ModelConfig,
}

/// The value of a [`ModelEntry`].
#[verifier::ext_equal]
pub struct ModelEntryView {
    pub name: Seq<char>,
    pub config: ModelConfigView,
}

impl View for ModelEntry {
    type V = ModelEntryView;

    open spec fn view(&self) -> ModelEntryView {
        ModelEntryView {
            name: self.name@,
            config: self.config@,
        }
    }
}

impl Clone for ModelEntry {
    fn clone(&self) -> (r: Self)
        ensures
            r@ == self@,
    {
        let r = ModelEntry {
            name: self.name.clone(),
            config: self.config.clone(),
        };
        assert(r@ =~= self@);
        r
    }
}

/// A model that is offered besides those that Poe lists.
#[derive(Debug, PartialEq, Eq)]
pub struct CustomModel {
    /// Its name.
    pub id: String,
    /// When it was made, in seconds.
    pub created: Option<i64>,
    /// Who owns it.
    pub owned_by: Option<String>,
}

/// The value of a [`CustomModel`].
#[verifier::ext_equal]
pub struct CustomModelView {
    pub id: Seq<char>,
    pub created: Option<i64>,
    pub owned_by: Option<Seq<char>>,
}

impl View for CustomModel {
    type V = CustomModelView;

    open spec fn view(&self) -> CustomModelView {
        CustomModelView {
            id: self.id@,
            created: self.created,
            owned_by: opt_view(self.owned_by),
        }
    }
}

impl Clone for CustomModel {
    fn clone(&self) -> (r: Self)
        ensures
            r@ == self@,
    {
        let r = CustomModel {
            id: self.id.clone(),
            created: self.created,
            owned_by: clone_opt(&self.owned_by),
        };
        assert(r@ =~= self@);
        r
    }
}

/// The contents of `models.yaml`, the table of models in the order in which it is walked.
#[derive(Debug, PartialEq, Eq)]
pub struct Config {
    /// Whether the file is in force; it is not where nothing is said.
    pub enable: Option<bool>,
    /// The table of models.
    pub models: Vec<ModelEntry>,
    /// The additional models.
    pub custom_models: Option<Vec<CustomModel>>,
}

/// The value of a [`Config`].
#[verifier::ext_equal]
pub struct ConfigView {
    pub enable: Option<bool>,
    pub models: Seq<ModelEntryView>,
    pub custom_models: Option<Seq<CustomModelView>>,
}

impl View for Config {
    type V = ConfigView;

    open spec fn view(&self) -> ConfigView {
        ConfigView {
            enable: self.enable,
            models: views(self.models@),
            custom_models: opt_views(self.custom_models),
        }
    }
}

impl Clone for Config {
    fn clone(&self) -> (r: Self)
        ensures
            r@ == self@,
    {
        let r = Config {
            enable: self.enable,
            models: self.models.clone(),
            custom_models: self.custom_models.clone(),
        };
        assert(r@ =~~= self@);
        r
    }
}

/// An error in the form that OpenAI clients expect.
#[derive(Debug, PartialEq, Eq)]
pub struct OpenAIError {
    /// What went wrong.
    pub message: String,
    /// The class of the error, the JSON member `type`.
    pub kind: String,
    /// The code of the error.
    pub code: String,
    /// The parameter at fault.
    pub param: Option<String>,
}

/// The value of a [`OpenAIError`].
#[verifier::ext_equal]
pub struct OpenAIErrorView {
    pub message: Seq<char>,
    pub kind: Seq<char>,
    pub code: Seq<char>,
    pub param: Option<Seq<char>>,
}

impl View for OpenAIError {
    type V = OpenAIErrorView;

    open spec fn view(&self) -> OpenAIErrorView {
        OpenAIErrorView {
            message: self.message@,
            kind: self.kind@,
            code: self.code@,
            param: opt_view(self.param),
        }
    }
}

impl Clone for OpenAIError {
    fn clone(&self) -> (r: Self)
        ensures
            r@ == self@,
    {
        let r = OpenAIError {
            message: self.message.clone(),
            kind: self.kind.clone(),
            code: self.code.clone(),
            param: clone_opt(&self.param),
        };
        assert(r@ =~= self@);
        r
    }
}

/// The body of an error reply.
#[derive(Debug, PartialEq, Eq)]
pub struct OpenAIErrorResponse {
    /// The error.
    pub error: OpenAIError,
}

/// The value of a [`OpenAIErrorResponse`].
#[verifier::ext_equal]
pub struct OpenAIErrorResponseView {
    pub error: OpenAIErrorView,
}

impl View for OpenAIErrorResponse {
    type V = OpenAIErrorResponseView;

    open spec fn view(&self) -> OpenAIErrorResponseView {
        OpenAIErrorResponseView {
            error: self.error@,
        }
    }
}

impl Clone for OpenAIErrorResponse {
    fn clone(&self) -> (r: Self)
        ensures
            r@ == self@,
    {
        let r = OpenAIErrorResponse {
            error: self.error.clone(),
        };
        assert(r@ =~= self@);
        r
    }
}

/// A file that the bot attached to its answer.
#[derive(Debug, PartialEq, Eq)]
pub struct FileData {
    /// Where the file is.
    pub url: String,
    /// Its name.
    pub name: String,
    /// Its MIME type.
    pub content_type: String,
    /// The name by which the answer refers to it.
    pub inline_ref: String,
}

/// The value of a [`FileData`].
#[verifier::ext_equal]
pub struct FileDataView {
    pub url: Seq<char>,
    pub name: Seq<char>,
    pub content_type: Seq<char>,
    pub inline_ref: Seq<char>,
}

impl View for FileData {
    type V = FileDataView;

    open spec fn view(&self) -> FileDataView {
        FileDataView {
            url: self.url@,
            name: self.name@,
            content_type: self.content_type@,
            inline_ref: self.inline_ref@,
        }
    }
}

impl Clone for FileData {
    fn clone(&self) -> (r: Self)
        ensures
            r@ == self@,
    {
        let r = FileData {
            url: self.url.clone(),
            name: self.name.clone(),
            content_type: self.content_type.clone(),
            inline_ref: self.inline_ref.clone(),
        };
        assert(r@ =~= self@);
        r
    }
}

/// The function of a tool call.
#[derive(Debug, PartialEq, Eq)]
pub struct FunctionCall {
    /// The name of the function.
    pub name: String,
    /// Its arguments, as JSON text.
    pub arguments: String,
}

/// The value of a [`FunctionCall`].
#[verifier::ext_equal]
pub struct FunctionCallView {
    pub name: Seq<char>,
    pub arguments: Seq<char>,
}

impl View for FunctionCall {
    type V = FunctionCallView;

    open spec fn view(&self) -> FunctionCallView {
        FunctionCallView {
            name: self.name@,
            arguments: self.arguments@,
        }
    }
}

impl Clone for FunctionCall {
    fn clone(&self) -> (r: Self)
        ensures
            r@ == self@,
    {
        let r = FunctionCall {
            name: self.name.clone(),
            arguments: self.arguments.clone(),
        };
        assert(r@ =~= self@);
        r
    }
}

/// A call of a tool that the bot asks for.
#[derive(Debug, PartialEq, Eq)]
pub struct ChatToolCall {
    /// The name of the call.
    pub id: String,
    /// The sort of tool, the JSON member `type`.
    pub kind: String,
    /// The function that is called.
    pub function: FunctionCall,
}

/// The value of a [`ChatToolCall`].
#[verifier::ext_equal]
pub struct ChatToolCallView {
    pub id: Seq<char>,
    pub kind: Seq<char>,
    pub function: FunctionCallView,
}

impl View for ChatToolCall {
    type V = ChatToolCallView;

    open spec fn view(&self) -> ChatToolCallView {
        ChatToolCallView {
            id: self.id@,
            kind: self.kind@,
            function: self.function@,
        }
    }
}

impl Clone for ChatToolCall {
    fn clone(&self) -> (r: Self)
        ensures
            r@ == self@,
    {
        let r = ChatToolCall {
            id: self.id.clone(),
            kind: self.kind.clone(),
            function: self.function.clone(),
        };
        assert(r@ =~= self@);
        r
    }
}

/// The result of a tool call, on its way to the bot.
#[derive(Debug, PartialEq, Eq)]
pub struct ChatToolResult {
    /// Always `tool`.
    pub role: String,
    /// The call that it answers.
    pub tool_call_id: String,
    /// The name of the tool.
    pub name: String,
    /// The result.
    pub content: String,
}

/// The value of a [`ChatToolResult`].
#[verifier::ext_equal]
pub struct ChatToolResultView {
    pub role: Seq<char>,
    pub tool_call_id: Seq<char>,
    pub name: Seq<char>,
    pub content: Seq<char>,
}

impl View for ChatToolResult {
    type V = ChatToolResultView;

    open spec fn view(&self) -> ChatToolResultView {
        ChatToolResultView {
            role: self.role@,
            tool_call_id: self.tool_call_id@,
            name: self.name@,
            content: self.content@,
        }
    }
}

impl Clone for ChatToolResult {
    fn clone(&self) -> (r: Self)
        ensures
            r@ == self@,
    {
        let r = ChatToolResult {
            role: self.role.clone(),
            tool_call_id: self.tool_call_id.clone(),
            name: self.name.clone(),
            content: self.content.clone(),
        };
        assert(r@ =~= self@);
        r
    }
}

/// A file that goes with a message to the bot.
#[derive(Debug, PartialEq, Eq)]
pub struct Attachment {
    /// Where the file is.
    pub url: String,
    /// Its MIME type.
    pub content_type: Option<String>,
}

/// The value of a [`Attachment`].
#[verifier::ext_equal]
pub struct AttachmentView {
    pub url: Seq<char>,
    pub content_type: Option<Seq<char>>,
}

impl View for Attachment {
    type V = AttachmentView;

    open spec fn view(&self) -> AttachmentView {
        AttachmentView {
            url: self.url@,
            content_type: opt_view(self.content_type),
        }
    }
}

impl Clone for Attachment {
    fn clone(&self) -> (r: Self)
        ensures
            r@ == self@,
    {
        let r = Attachment {
            url: self.url.clone(),
            content_type: clone_opt(&self.content_type),
        };
        assert(r@ =~= self@);
        r
    }
}

/// A message in the form that Poe expects.
#[derive(Debug, PartialEq, Eq)]
pub struct ChatMessage {
    /// Who speaks.
    pub role: String,
    /// What is said.
    pub content: String,
    /// The files that go with it.
    pub attachments: Option<Vec<Attachment>>,
    /// The MIME type of the content.
    pub content_type: String,
}

/// The value of a [`ChatMessage`].
#[verifier::ext_equal]
pub struct ChatMessageView {
    pub role: Seq<char>,
    pub content: Seq<char>,
    pub attachments: Option<Seq<AttachmentView>>,
    pub content_type: Seq<char>,
}

impl View for ChatMessage {
    type V = ChatMessageView;

    open spec fn view(&self) -> ChatMessageView {
        ChatMessageView {
            role: self.role@,
            content: self.content@,
            attachments: opt_views(self.attachments),
            content_type: self.content_type@,
        }
    }
}

impl Clone for ChatMessage {
    fn clone(&self) -> (r: Self)
        ensures
            r@ == self@,
    {
        let r = ChatMessage {
            role: self.role.clone(),
            content: self.content.clone(),
            attachments: self.attachments.clone(),
            content_type: self.content_type.clone(),
        };
        assert(r@ =~= self@);
        r
    }
}

/// A model in the list that is offered.
#[derive(Debug, PartialEq, Eq)]
pub struct ModelInfo {
    /// Its name.
    pub id: String,
    /// Always `model`.
    pub object: String,
    /// When it was made, in seconds.
    pub created: i64,
    /// Who owns it.
    pub owned_by: String,
}

/// The value of a [`ModelInfo`].
#[verifier::ext_equal]
pub struct ModelInfoView {
    pub id: Seq<char>,
    pub object: Seq<char>,
    pub created: i64,
    pub owned_by: Seq<char>,
}

impl View for ModelInfo {
    type V = ModelInfoView;

    open spec fn view(&self) -> ModelInfoView {
        ModelInfoView {
            id: self.id@,
            object: self.object@,
            created: self.created,
            owned_by: self.owned_by@,
        }
    }
}

impl Clone for ModelInfo {
    fn clone(&self) -> (r: Self)
        ensures
            r@ == self@,
    {
        let r = ModelInfo {
            id: self.id.clone(),
            object: self.object.clone(),
            created: self.created,
            owned_by: self.owned_by.clone(),
        };
        assert(r@ =~= self@);
        r
    }
}

/// The sorts of events that a bot sends.
#[derive(Debug, Clone, Copy, PartialEq, Eq, Structural)]
pub enum ChatEventType {
    /// More text.
    Text,
    /// A text that takes the place of the answer so far.
    ReplaceResponse,
    /// Structured data, such as tool calls.
    Json,
    /// A file.
    File,
    /// The end of the answer.
    Done,
    /// A failure.
    Error,
}

/// What an event carries.
#[derive(Debug, PartialEq, Eq)]
pub enum ChatResponseData {
    /// A text.
    Text { text: String },
    /// A failure, and whether another attempt makes sense.
    Error { text: String, allow_retry: bool },
    /// Tool calls.
    ToolCalls(Vec<ChatToolCall>),
    /// A file.
    File(FileData),
    /// Nothing.
    Empty,
}

/// The value of a [`ChatResponseData`].
#[verifier::ext_equal]
pub enum DataView {
    Text(Seq<char>),
    Error(Seq<char>, bool),
    ToolCalls(Seq<ChatToolCallView>),
    File(FileDataView),
    Empty,
}

impl View for ChatResponseData {
    type V = DataView;

    open spec fn view(&self) -> DataView {
        match self {
            ChatResponseData::Text { text } => DataView::Text(text@),
            ChatResponseData::Error { text, allow_retry } => DataView::Error(text@, *allow_retry),
            ChatResponseData::ToolCalls(calls) => DataView::ToolCalls(views(calls@)),
            ChatResponseData::File(file) => DataView::File(file@),
            ChatResponseData::Empty => DataView::Empty,
        }
    }
}

/// An event that a bot sends.
#[derive(Debug, PartialEq, Eq)]
pub struct ChatResponse {
    /// Its sort.
    pub event: ChatEventType,
    /// What it carries.
    pub data: Option<ChatResponseData>,
}

/// The value of a [`ChatResponse`].
#[verifier::ext_equal]
pub struct ChatResponseView {
    pub event: ChatEventType,
    pub data: Option<DataView>,
}

impl View for ChatResponse {
    type V = ChatResponseView;

    open spec fn view(&self) -> ChatResponseView {
        ChatResponseView { event: self.event, data: opt_view(self.data) }
    }
}

/// What a chunk adds to the answer.
#[derive(Debug, PartialEq, Eq)]
pub struct Delta {
    /// Who speaks.
    pub role: Option<String>,
    /// More text.
    pub content: Option<String>,
    /// Why the bot refuses.
    pub refusal: Option<String>,
    /// Tool calls.
    pub tool_calls: Option<Vec<ChatToolCall>>,
}

/// The value of a [`Delta`].
#[verifier::ext_equal]
pub struct DeltaView {
    pub role: Option<Seq<char>>,
    pub content: Option<Seq<char>>,
    pub refusal: Option<Seq<char>>,
    pub tool_calls: Option<Seq<ChatToolCallView>>,
}

impl View for Delta {
    type V = DeltaView;

    open spec fn view(&self) -> DeltaView {
        DeltaView {
            role: opt_view(self.role),
            content: opt_view(self.content),
            refusal: opt_view(self.refusal),
            tool_calls: opt_views(self.tool_calls),
        }
    }
}

/// The one choice of a chunk.
#[derive(Debug, PartialEq, Eq)]
pub struct Choice {
    /// Its number.
    pub index: u32,
    /// What it adds.
    pub delta: Delta,
    /// Why the answer ends here, where it does.
    pub finish_reason: Option<String>,
}

/// The value of a [`Choice`].
#[verifier::ext_equal]
pub struct ChoiceView {
    pub index: u32,
    pub delta: DeltaView,
    pub finish_reason: Option<Seq<char>>,
}

impl View for Choice {
    type V = ChoiceView;

    open spec fn view(&self) -> ChoiceView {
        ChoiceView {
            index: self.index,
            delta: self.delta@,
            finish_reason: opt_view(self.finish_reason),
        }
    }
}

/// A part of an answer that is sent piece by piece.
#[derive(Debug, PartialEq, Eq)]
pub struct ChatCompletionChunk {
    /// The name of the answer.
    pub id: String,
    /// Always `chat.completion.chunk`.
    pub object: String,
    /// When the answer was begun, in seconds.
    pub created: i64,
    /// The model that answers.
    pub model: String,
    /// The choices.
    pub choices: Vec<Choice>,
}

/// The value of a [`ChatCompletionChunk`].
#[verifier::ext_equal]
pub struct ChatCompletionChunkView {
    pub id: Seq<char>,
    pub object: Seq<char>,
    pub created: i64,
    pub model: Seq<char>,
    pub choices: Seq<ChoiceView>,
}

impl View for ChatCompletionChunk {
    type V = ChatCompletionChunkView;

    open spec fn view(&self) -> ChatCompletionChunkView {
        ChatCompletionChunkView {
            id: self.id@,
            object: self.object@,
            created: self.created,
            model: self.model@,
            choices: views(self.choices@),
        }
    }
}

/// How many tokens an exchange took.
#[derive(Debug, PartialEq, Eq)]
pub struct Usage {
    /// Tokens of the question.
    pub prompt_tokens: u32,
    /// Tokens of the answer.
    pub completion_tokens: u32,
    /// Tokens of both.
    pub total_tokens: u32,
    /// Tokens of the question that came from a cache.
    pub cached_tokens: u32,
}

/// The value of a [`Usage`].
#[verifier::ext_equal]
pub struct UsageView {
    pub prompt_tokens: u32,
    pub completion_tokens: u32,
    pub total_tokens: u32,
    pub cached_tokens: u32,
}

impl View for Usage {
    type V = UsageView;

    open spec fn view(&self) -> UsageView {
        UsageView {
            prompt_tokens: self.prompt_tokens,
            completion_tokens: self.completion_tokens,
            total_tokens: self.total_tokens,
            cached_tokens: self.cached_tokens,
        }
    }
}

impl Clone for Usage {
    fn clone(&self) -> (r: Self)
        ensures
            r@ == self@,
    {
        let r = Usage {
            prompt_tokens: self.prompt_tokens,
            completion_tokens: self.completion_tokens,
            total_tokens: self.total_tokens,
            cached_tokens: self.cached_tokens,
        };
        assert(r@ =~= self@);
        r
    }
}

/// The message of a whole answer.
#[derive(Debug, PartialEq, Eq)]
pub struct CompletionMessage {
    /// Always `assistant`.
    pub role: String,
    /// The text.
    pub content: String,
    /// Why the bot refuses.
    pub refusal: Option<String>,
    /// Tool calls.
    pub tool_calls: Option<Vec<ChatToolCall>>,
}

/// The value of a [`CompletionMessage`].
#[verifier::ext_equal]
pub struct CompletionMessageView {
    pub role: Seq<char>,
    pub content: Seq<char>,
    pub refusal: Option<Seq<char>>,
    pub tool_calls: Option<Seq<ChatToolCallView>>,
}

impl View for CompletionMessage {
    type V = CompletionMessageView;

    open spec fn view(&self) -> CompletionMessageView {
        CompletionMessageView {
            role: self.role@,
            content: self.content@,
            refusal: opt_view(self.refusal),
            tool_calls: opt_views(self.tool_calls),
        }
    }
}

/// The one choice of a whole answer.
#[derive(Debug, PartialEq, Eq)]
pub struct CompletionChoice {
    /// Its number.
    pub index: u32,
    /// The message.
    pub message: CompletionMessage,
    /// Always absent.
    pub logprobs: Option<String>,
    /// Why the answer ends.
    pub finish_reason: Option<String>,
}

/// The value of a [`CompletionChoice`].
#[verifier::ext_equal]
pub struct CompletionChoiceView {
    pub index: u32,
    pub message: CompletionMessageView,
    pub logprobs: Option<Seq<char>>,
    pub finish_reason: Option<Seq<char>>,
}

impl View for CompletionChoice {
    type V = CompletionChoiceView;

    open spec fn view(&self) -> CompletionChoiceView {
        CompletionChoiceView {
            index: self.index,
            message: self.message@,
            logprobs: opt_view(self.logprobs),
            finish_reason: opt_view(self.finish_reason),
        }
    }
}

/// A whole answer.
#[derive(Debug, PartialEq, Eq)]
pub struct ChatCompletionResponse {
    /// The name of the answer.
    pub id: String,
    /// Always `chat.completion`.
    pub object: String,
    /// When the answer was begun, in seconds.
    pub created: i64,
    /// The model that answers.
    pub model: String,
    /// The choices.
    pub choices: Vec<CompletionChoice>,
    /// The token counts, where they are wanted.
    pub usage: Option<Usage>,
}

/// The value of a [`ChatCompletionResponse`].
#[verifier::ext_equal]
pub struct ChatCompletionResponseView {
    pub id: Seq<char>,
    pub object: Seq<char>,
    pub created: i64,
    pub model: Seq<char>,
    pub choices: Seq<CompletionChoiceView>,
    pub usage: Option<UsageView>,
}

impl View for ChatCompletionResponse {
    type V = ChatCompletionResponseView;

    open spec fn view(&self) -> ChatCompletionResponseView {
        ChatCompletionResponseView {
            id: self.id@,
            object: self.object@,
            created: self.created,
            model: self.model@,
            choices: views(self.choices@),
            usage: opt_view(self.usage),
        }
    }
}

} // verus!
