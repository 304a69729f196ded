//! The answers to clients: whole, or as a stream of chunks while the bot's
//! events come in.
use crate::evert::{ContextView, EventContext};
use crate::external::{current_timestamp, o200k_encode, random_name, url_safe};
use crate::files::{replace_references, with_links, FileRefs};
use crate::text::views;
use crate::tokens::{count_completion_tokens, encoding_length, token_count};
use crate::types::{
    opt_view, ChatCompletionChunk, ChatCompletionChunkView, ChatCompletionResponse,
    ChatCompletionResponseView, ChatToolCall, ChatToolCallView, Choice, ChoiceView,
    CompletionChoice, CompletionChoiceView, CompletionMessage, CompletionMessageView, Delta,
    DeltaView, Usage, UsageView,
};
use vstd::prelude::*;

verus! {

/// Makes the answers to one request.
#[derive(Debug, PartialEq, Eq)]
pub struct OutputGenerator {
    /// The random part of the answer's name.
    pub id: String,
    /// When the answer was begun, in seconds.
    pub created: i64,
    /// The model under the name that the client used.
    pub model: String,
    /// The tokens of the question.
    pub prompt_tokens: u32,
    /// Whether the client wants token counts.
    pub include_usage: bool,
}

/// The value of an [`OutputGenerator`].
#[verifier::ext_equal]
pub struct GeneratorView {
    pub id: Seq<char>,
    pub created: i64,
    pub model: Seq<char>,
    pub prompt_tokens: u32,
    pub include_usage: bool,
}

impl View for OutputGenerator {
    type V = GeneratorView;

    open spec fn view(&self) -> GeneratorView {
        GeneratorView {
            id: self.id@,
            created: self.created,
            model: self.model@,
            prompt_tokens: self.prompt_tokens,
            include_usage: self.include_usage,
        }
    }
}

/// The tokens of an answer cannot be counted: the encoder gives up on it, or
/// the total takes more than 32 bits.
#[derive(Debug, Clone, Copy, PartialEq, Eq)]
pub struct UncountableTokens;

/// The text that counts as the answer: the replacement, where there is one.
pub open spec fn answer_text(c: ContextView) -> Seq<char> {
    match c.replace_buffer {
        Some(b) => b,
        None => c.content,
    }
}

/// The token counts of an exchange whose answer has `n` tokens, where the
/// total takes 32 bits.
pub open spec fn usage_with(g: GeneratorView, n: u32) -> Option<UsageView> {
    if g.prompt_tokens + n <= u32::MAX {
        Some(
            UsageView {
                prompt_tokens: g.prompt_tokens,
                completion_tokens: n,
                total_tokens: (g.prompt_tokens + n) as u32,
                cached_tokens: 0,
            },
        )
    } else {
        None
    }
}

/// The token counts of an exchange, where they can be told.
pub open spec fn usage_of(g: GeneratorView, c: ContextView) -> Option<UsageView> {
    match token_count(answer_text(c)) {
        Some(n) => usage_with(g, n),
        None => None,
    }
}

/// The full name of an answer.
pub open spec fn answer_id(g: GeneratorView) -> Seq<char> {
    "chatcmpl-"@ + g.id
}

/// Why an answer ends: for tool calls, or of itself.
pub open spec fn end_reason(c: ContextView) -> Seq<char> {
    if c.tool_calls.len() > 0 {
        "tool_calls"@
    } else {
        "stop"@
    }
}

/// A chunk with one choice.
pub open spec fn chunk_of(
    g: GeneratorView,
    delta: DeltaView,
    finish_reason: Option<Seq<char>>,
) -> ChatCompletionChunkView {
    ChatCompletionChunkView {
        id: answer_id(g),
        object: "chat.completion.chunk"@,
        created: g.created,
        model: g.model,
        choices: seq![ChoiceView { index: 0, delta, finish_reason }],
    }
}

/// The chunk that names the speaker.
pub open spec fn role_chunk(g: GeneratorView) -> ChatCompletionChunkView {
    chunk_of(
        g,
        DeltaView { role: Some("assistant"@), content: None, refusal: None, tool_calls: None },
        None,
    )
}

/// A chunk with text.
pub open spec fn text_chunk(
    g: GeneratorView,
    content: Seq<char>,
    finish_reason: Option<Seq<char>>,
) -> ChatCompletionChunkView {
    chunk_of(
        g,
        DeltaView { role: None, content: Some(content), refusal: None, tool_calls: None },
        finish_reason,
    )
}

/// A chunk with tool calls.
pub open spec fn tool_chunk(g: GeneratorView, calls: Seq<ChatToolCallView>) -> ChatCompletionChunkView {
    chunk_of(
        g,
        DeltaView { role: None, content: None, refusal: None, tool_calls: Some(calls) },
        Some("tool_calls"@),
    )
}

/// A whole answer.
pub open spec fn whole_answer(
    g: GeneratorView,
    c: ContextView,
    usage: UsageView,
) -> ChatCompletionResponseView {
    ChatCompletionResponseView {
        id: answer_id(g),
        object: "chat.completion"@,
        created: g.created,
        model: g.model,
        choices: seq![
            CompletionChoiceView {
                index: 0,
                message: CompletionMessageView {
                    role: "assistant"@,
                    content: with_links(answer_text(c), c.file_refs),
                    refusal: None,
                    tool_calls: if c.tool_calls.len() > 0 {
                        Some(c.tool_calls)
                    } else {
                        None
                    },
                },
                logprobs: None,
                finish_reason: Some(end_reason(c)),
            },
        ],
        usage: if g.include_usage {
            Some(usage)
        } else {
            None
        },
    }
}

impl OutputGenerator {
    /// A generator with a random name, begun now.
    pub fn new(model: String, prompt_tokens: u32, include_usage: bool) -> (r: OutputGenerator)
        ensures
            r.id@.len() == 10,
            forall|i: int| 0 <= i < 10 ==> url_safe(#[trigger] r.id@[i]),
            r@ == (GeneratorView {
                id: r.id@,
                created: r.created,
                model: model@,
                prompt_tokens,
                include_usage,
            }),
    {
        let id = random_name(10);
        let created = current_timestamp();
        OutputGenerator { id, created, model, prompt_tokens, include_usage }
    }

    /// Replaces the references to files in a text by links.
    pub fn process_file_references(&self, content: &str, file_refs: &FileRefs) -> (r: String)
        ensures
            r@ == with_links(content@, file_refs@),
    {
        if file_refs.is_empty() {
            return content.to_owned();
        }
        let (processed, _) = replace_references(content, file_refs);
        processed
    }

    /// The token counts of the exchange, given that of the answer.
    pub fn usage_for(&self, completion_tokens: u32) -> (r: Result<Usage, UncountableTokens>)
        ensures
            match r {
                Ok(u) => usage_with(self@, completion_tokens) == Some(u@),
                Err(_) => usage_with(self@, completion_tokens) is None,
            },
    {
        if completion_tokens > u32::MAX - self.prompt_tokens {
            return Err(UncountableTokens);
        }
        Ok(
            Usage {
                prompt_tokens: self.prompt_tokens,
                completion_tokens,
                total_tokens: self.prompt_tokens + completion_tokens,
                cached_tokens: 0,
            },
        )
    }

    /// Counts the tokens of the exchange and keeps the count of the answer.
    pub fn calculate_tokens(&self, ctx: &mut EventContext) -> (r: Result<Usage, UncountableTokens>)
        ensures
            match r {
                Ok(u) => usage_of(self@, old(ctx)@) == Some(u@) && final(ctx)@ == (ContextView {
                    completion_tokens: u.completion_tokens,
                    ..old(ctx)@
                }),
                Err(_) => usage_of(self@, old(ctx)@) is None && *final(ctx) == *old(ctx),
            },
    {
        let content: &String = match &ctx.replace_buffer {
            Some(replacement) => replacement,
            None => &ctx.content,
        };
        let e = o200k_encode(content);
        if encoding_length(&e).is_none() {
            return Err(UncountableTokens);
        }
        let completion_tokens = count_completion_tokens(content);
        let r = self.usage_for(completion_tokens);
        if r.is_ok() {
            ctx.completion_tokens = completion_tokens;
        }
        r
    }

    /// A chunk with one choice.
    fn create_chunk(&self, delta: Delta, finish_reason: Option<String>) -> (r: ChatCompletionChunk)
        ensures
            r@ == chunk_of(self@, delta@, opt_view(finish_reason)),
    {
        let mut id = "chatcmpl-".to_owned();
        id.append(&self.id);
        let mut choices: Vec<Choice> = Vec::new();
        choices.push(Choice { index: 0, delta, finish_reason });
        let r = ChatCompletionChunk {
            id,
            object: "chat.completion.chunk".to_owned(),
            created: self.created,
            model: self.model.clone(),
            choices,
        };
        assert(r@ =~~= chunk_of(self@, delta@, opt_view(finish_reason)));
        r
    }

    /// The chunk that names the speaker.
    pub fn create_role_chunk(&self) -> (r: ChatCompletionChunk)
        ensures
            r@ == role_chunk(self@),
    {
        self.create_chunk(
            Delta {
                role: Some("assistant".to_owned()),
                content: None,
                refusal: None,
                tool_calls: None,
            },
            None,
        )
    }

    /// A chunk with text.
    pub fn create_stream_chunk(&self, content: &str, finish_reason: Option<String>) -> (r:
        ChatCompletionChunk)
        ensures
            r@ == text_chunk(self@, content@, opt_view(finish_reason)),
    {
        self.create_chunk(
            Delta {
                role: None,
                content: Some(content.to_owned()),
                refusal: None,
                tool_calls: None,
            },
            finish_reason,
        )
    }

    /// A chunk with tool calls.
    pub fn create_tool_calls_chunk(&self, tool_calls: &Vec<ChatToolCall>) -> (r:
        ChatCompletionChunk)
        ensures
            r@ == tool_chunk(self@, views(tool_calls@)),
    {
        let calls = tool_calls.clone();
        assert(views(calls@) =~= views(tool_calls@));
        self.create_chunk(
            Delta { role: None, content: None, refusal: None, tool_calls: Some(calls) },
            Some("tool_calls".to_owned()),
        )
    }

    /// Why the answer ends.
    pub fn finish_reason(&self, ctx: &EventContext) -> (r: String)
        ensures
            r@ == end_reason(ctx@),
    {
        if ctx.tool_calls.len() > 0 {
            "tool_calls".to_owned()
        } else {
            "stop".to_owned()
        }
    }

    /// The whole answer, given the token counts.
    pub fn answer_with(&self, ctx: &EventContext, usage: Usage) -> (r: ChatCompletionResponse)
        ensures
            r@ == whole_answer(self@, ctx@, usage@),
    {
        let content = match &ctx.replace_buffer {
            Some(replacement) => self.process_file_references(replacement, &ctx.file_refs),
            None => self.process_file_references(&ctx.content, &ctx.file_refs),
        };
        let finish_reason = self.finish_reason(ctx);
        let tool_calls = if ctx.tool_calls.len() > 0 {
            let calls = ctx.tool_calls.clone();
            assert(views(calls@) =~= views(ctx.tool_calls@));
            Some(calls)
        } else {
            None
        };
        let mut id = "chatcmpl-".to_owned();
        id.append(&self.id);
        let mut choices: Vec<CompletionChoice> = Vec::new();
        choices.push(
            CompletionChoice {
                index: 0,
                message: CompletionMessage {
                    role: "assistant".to_owned(),
                    content,
                    refusal: None,
                    tool_calls,
                },
                logprobs: None,
                finish_reason: Some(finish_reason),
            },
        );
        let ghost u = usage@;
        let r = ChatCompletionResponse {
            id,
            object: "chat.completion".to_owned(),
            created: self.created,
            model: self.model.clone(),
            choices,
            usage: if self.include_usage {
                Some(usage)
            } else {
                None
            },
        };
        assert(r@ =~~= whole_answer(self@, ctx@, u));
        r
    }

    /// The whole answer, once all events are in.
    pub fn create_final_response(&self, ctx: &mut EventContext) -> (r: Result<
        ChatCompletionResponse,
        UncountableTokens,
    >)
        ensures
            match r {
                Ok(answer) => usage_of(self@, old(ctx)@) matches Some(u) && answer@ == whole_answer(
                    self@,
                    old(ctx)@,
                    u,
                ) && final(ctx)@ == (ContextView {
                    completion_tokens: u.completion_tokens,
                    ..old(ctx)@
                }),
                Err(_) => usage_of(self@, old(ctx)@) is None && *final(ctx) == *old(ctx),
            },
    {
        match self.calculate_tokens(ctx) {
            Ok(usage) => Ok(self.answer_with(ctx, usage)),
            Err(e) => Err(e),
        }
    }
}

} // verus!
