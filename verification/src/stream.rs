//! An answer as a stream of chunks, and the same answer given as a whole.
use crate::errors::{convert_poe_error_to_openai, converted};
use crate::evert::{after_event, empty_context, ContextView, EventContext, EventHandlerManager};
use crate::files::with_links;
use crate::output::{
    end_reason, role_chunk, text_chunk, tool_chunk, usage_of, whole_answer, GeneratorView,
    OutputGenerator, UncountableTokens,
};
use crate::text::{same_text, views};
use crate::types::{
    opt_view, opt_views, ChatCompletionChunk, ChatCompletionChunkView, ChatCompletionResponse,
    ChatCompletionResponseView, ChatEventType, ChatResponse, ChatResponseView,
    OpenAIErrorResponse, OpenAIErrorResponseView, Usage, UsageView,
};
use vstd::prelude::*;

verus! {

/// What the source of events hands over: an event, or the description of a
/// failure.
#[derive(Debug, PartialEq, Eq)]
pub enum StreamItem {
    /// An event of the bot.
    Event(ChatResponse),
    /// The source failed.
    Failure(String),
}

/// The value of a [`StreamItem`].
#[verifier::ext_equal]
pub enum StreamItemView {
    Event(ChatResponseView),
    Failure(Seq<char>),
}

impl View for StreamItem {
    type V = StreamItemView;

    open spec fn view(&self) -> StreamItemView {
        match self {
            StreamItem::Event(e) => StreamItemView::Event(e@),
            StreamItem::Failure(text) => StreamItemView::Failure(text@),
        }
    }
}

/// One message of the stream, to be written as JSON.
#[derive(Debug, PartialEq, Eq)]
pub enum StreamPayload {
    /// A chunk, with the token counts as an additional member where there are
    /// some.
    Chunk { chunk: ChatCompletionChunk, usage: Option<Usage> },
    /// A failure.
    Failure(OpenAIErrorResponse),
}

/// The value of a [`StreamPayload`].
#[verifier::ext_equal]
pub enum PayloadView {
    Chunk(ChatCompletionChunkView, Option<UsageView>),
    Failure(OpenAIErrorResponseView),
}

impl View for StreamPayload {
    type V = PayloadView;

    open spec fn view(&self) -> PayloadView {
        match self {
            StreamPayload::Chunk { chunk, usage } => PayloadView::Chunk(chunk@, opt_view(*usage)),
            StreamPayload::Failure(e) => PayloadView::Failure(e@),
        }
    }
}

/// How far a stream has come.
#[derive(Debug, PartialEq, Eq)]
pub struct StreamState {
    /// What is known of the answer.
    pub ctx: EventContext,
    /// Nothing more comes.
    pub is_done: bool,
}

/// The value of a [`StreamState`].
#[verifier::ext_equal]
pub struct StreamStateView {
    pub ctx: ContextView,
    pub is_done: bool,
}

impl View for StreamState {
    type V = StreamStateView;

    open spec fn view(&self) -> StreamStateView {
        StreamStateView { ctx: self.ctx@, is_done: self.is_done }
    }
}

/// A stream that has not begun.
pub open spec fn fresh_stream() -> StreamStateView {
    StreamStateView { ctx: empty_context(), is_done: false }
}

impl StreamState {
    /// A stream that has not begun.
    pub fn new() -> (r: StreamState)
        ensures
            r@ == fresh_stream(),
    {
        StreamState { ctx: EventContext::default(), is_done: false }
    }
}

/// A message after the chunk that names the speaker, which goes out once.
pub open spec fn introduced(g: GeneratorView, c: ContextView, p: PayloadView) -> (
    ContextView,
    Seq<PayloadView>,
) {
    if c.role_chunk_sent {
        (c, seq![p])
    } else {
        (
            ContextView { role_chunk_sent: true, ..c },
            seq![PayloadView::Chunk(role_chunk(g), None), p],
        )
    }
}

/// The chunk that names the speaker, where it did not go out yet.
pub open spec fn introduction(g: GeneratorView, c: ContextView) -> (ContextView, Seq<PayloadView>) {
    if c.role_chunk_sent {
        (c, Seq::empty())
    } else {
        (
            ContextView { role_chunk_sent: true, ..c },
            seq![PayloadView::Chunk(role_chunk(g), None)],
        )
    }
}

/// A text that goes out as it is.
pub open spec fn plain_chunk(g: GeneratorView, text: Seq<char>) -> PayloadView {
    PayloadView::Chunk(text_chunk(g, text, None), None)
}

/// The last chunk: no text, the reason of the end, and the token counts where
/// the client wants them.
pub open spec fn last_chunk(g: GeneratorView, c: ContextView, usage: UsageView) -> PayloadView {
    PayloadView::Chunk(
        text_chunk(g, ""@, Some(end_reason(c))),
        if g.include_usage {
            Some(usage)
        } else {
            None
        },
    )
}

/// The last messages, given the token counts.
pub open spec fn ending(g: GeneratorView, c: ContextView, usage: UsageView) -> (
    ContextView,
    Seq<PayloadView>,
) {
    introduced(
        g,
        ContextView { completion_tokens: usage.completion_tokens, ..c },
        last_chunk(g, c, usage),
    )
}

/// What goes out at the end, given what the handler of the end passed on and
/// the context that it left: text with links that did not go out yet, else the
/// last messages.
pub open spec fn after_end(g: GeneratorView, c: ContextView, passed: Option<Seq<char>>) -> (
    ContextView,
    Option<Seq<PayloadView>>,
) {
    let unsent = passed matches Some(text) && text != "done"@ && !c.image_urls_sent;
    if unsent {
        (
            ContextView { image_urls_sent: true, ..c },
            Some(
                seq![PayloadView::Chunk(text_chunk(g, passed.unwrap(), Some("stop"@)), None)],
            ),
        )
    } else {
        match usage_of(g, c) {
            Some(u) => (ending(g, c, u).0, Some(ending(g, c, u).1)),
            None => (c, None),
        }
    }
}

/// What goes out for an event that did not report a failure, given what its
/// handler passed on and the context that it left. There is no output where
/// the tokens cannot be counted.
pub open spec fn output_for(
    g: GeneratorView,
    c: ContextView,
    event: ChatEventType,
    passed: Option<Seq<char>>,
) -> (ContextView, Option<Seq<PayloadView>>) {
    match event {
        ChatEventType::Text => match passed {
            Some(text) => {
                let (c2, out) = introduced(g, c, plain_chunk(g, with_links(text, c.file_refs)));
                (c2, Some(out))
            },
            None => (introduction(g, c).0, Some(introduction(g, c).1)),
        },
        ChatEventType::File | ChatEventType::ReplaceResponse => match passed {
            Some(text) => {
                let (c2, out) = introduced(g, c, plain_chunk(g, text));
                (c2, Some(out))
            },
            None => (introduction(g, c).0, Some(introduction(g, c).1)),
        },
        ChatEventType::Json => if c.tool_calls.len() > 0 {
            let (c2, out) = introduced(g, c, PayloadView::Chunk(tool_chunk(g, c.tool_calls), None));
            (c2, Some(out))
        } else {
            (c, Some(Seq::empty()))
        },
        ChatEventType::Done => after_end(g, c, passed),
        ChatEventType::Error => match passed {
            Some(text) => {
                let (c2, out) = introduced(g, c, plain_chunk(g, text));
                (c2, Some(out))
            },
            None => (c, Some(Seq::empty())),
        },
    }
}

/// What one step of a stream yields: nothing at the end, else the messages to
/// send, which may be none.
pub enum StepView {
    Ended,
    Output(Seq<PayloadView>),
    Uncountable,
}

/// One step of a stream.
pub open spec fn stream_step(g: GeneratorView, s: StreamStateView, item: Option<StreamItemView>) -> (
    StreamStateView,
    StepView,
) {
    if s.is_done {
        (s, StepView::Ended)
    } else {
        match item {
            None => (s, StepView::Ended),
            Some(StreamItemView::Failure(text)) => (
                StreamStateView { is_done: true, ..s },
                StepView::Output(seq![PayloadView::Failure(converted(text).1)]),
            ),
            Some(StreamItemView::Event(event)) => {
                let (c, passed) = after_event(s.ctx, event);
                match c.error {
                    Some(e) => (
                        StreamStateView { ctx: c, is_done: true },
                        StepView::Output(seq![PayloadView::Failure(e.1)]),
                    ),
                    None => {
                        let (c2, out) = output_for(g, c, event.event, passed);
                        (
                            StreamStateView { ctx: c2, is_done: c.done },
                            match out {
                                Some(payloads) => StepView::Output(payloads),
                                None => StepView::Uncountable,
                            },
                        )
                    },
                }
            },
        }
    }
}

/// The value of what [`OutputGenerator::process_stream`] returns.
pub open spec fn step_view(r: Result<Option<Vec<StreamPayload>>, UncountableTokens>) -> StepView {
    match r {
        Ok(Some(payloads)) => StepView::Output(views(payloads@)),
        Ok(None) => StepView::Ended,
        Err(_) => StepView::Uncountable,
    }
}

impl OutputGenerator {
    /// Puts the chunk that names the speaker before a message, where it did
    /// not go out yet.
    fn introduce(&self, ctx: &mut EventContext, payload: StreamPayload) -> (r: Vec<StreamPayload>)
        ensures
            (final(ctx)@, views(r@)) == introduced(self@, old(ctx)@, payload@),
    {
        let mut out: Vec<StreamPayload> = Vec::new();
        if !ctx.role_chunk_sent {
            ctx.role_chunk_sent = true;
            out.push(StreamPayload::Chunk { chunk: self.create_role_chunk(), usage: None });
        }
        out.push(payload);
        assert(views(out@) =~= introduced(self@, old(ctx)@, payload@).1);
        out
    }

    /// The chunk that names the speaker, where it did not go out yet.
    fn introduction(&self, ctx: &mut EventContext) -> (r: Vec<StreamPayload>)
        ensures
            (final(ctx)@, views(r@)) == introduction(self@, old(ctx)@),
    {
        let mut out: Vec<StreamPayload> = Vec::new();
        if !ctx.role_chunk_sent {
            ctx.role_chunk_sent = true;
            out.push(StreamPayload::Chunk { chunk: self.create_role_chunk(), usage: None });
        }
        assert(views(out@) =~= introduction(self@, old(ctx)@).1);
        out
    }

    /// A text that goes out as it is.
    fn send_text(&self, ctx: &mut EventContext, text: &str) -> (r: Vec<StreamPayload>)
        ensures
            (final(ctx)@, views(r@)) == introduced(
                self@,
                old(ctx)@,
                plain_chunk(self@, text@),
            ),
    {
        let chunk = self.create_stream_chunk(text, None);
        self.introduce(ctx, StreamPayload::Chunk { chunk, usage: None })
    }

    /// The last messages, given the token counts.
    pub fn end_with(&self, ctx: &mut EventContext, usage: Usage) -> (r: Vec<StreamPayload>)
        ensures
            (final(ctx)@, views(r@)) == ending(self@, old(ctx)@, usage@),
    {
        ctx.completion_tokens = usage.completion_tokens;
        let reason = self.finish_reason(ctx);
        let chunk = self.create_stream_chunk("", Some(reason));
        let counts = if self.include_usage {
            Some(usage)
        } else {
            None
        };
        self.introduce(ctx, StreamPayload::Chunk { chunk, usage: counts })
    }

    /// The messages at the end, given what the handler of the end passed on.
    pub fn end_stream(&self, ctx: &mut EventContext, passed: Option<String>) -> (r: Result<
        Vec<StreamPayload>,
        UncountableTokens,
    >)
        ensures
            final(ctx)@ == after_end(self@, old(ctx)@, opt_view(passed)).0,
            match r {
                Ok(out) => after_end(self@, old(ctx)@, opt_view(passed)).1 == Some(views(out@)),
                Err(_) => after_end(self@, old(ctx)@, opt_view(passed)).1 is None,
            },
    {
        if let Some(text) = &passed {
            if !same_text(text, "done") && !ctx.image_urls_sent {
                let chunk = self.create_stream_chunk(text, Some("stop".to_owned()));
                let mut out: Vec<StreamPayload> = Vec::new();
                out.push(StreamPayload::Chunk { chunk, usage: None });
                ctx.image_urls_sent = true;
                assert(views(out@) =~= after_end(self@, old(ctx)@, opt_view(passed)).1.unwrap());
                return Ok(out);
            }
        }
        match self.calculate_tokens(ctx) {
            Ok(usage) => {
                Ok(self.end_with(ctx, usage))
            },
            Err(e) => Err(e),
        }
    }

    /// The messages for an event that did not report a failure, given what its
    /// handler passed on.
    pub fn event_output(
        &self,
        ctx: &mut EventContext,
        event: ChatEventType,
        passed: Option<String>,
    ) -> (r: Result<Vec<StreamPayload>, UncountableTokens>)
        ensures
            final(ctx)@ == output_for(self@, old(ctx)@, event, opt_view(passed)).0,
            match r {
                Ok(out) => output_for(self@, old(ctx)@, event, opt_view(passed)).1 == Some(
                    views(out@),
                ),
                Err(_) => output_for(self@, old(ctx)@, event, opt_view(passed)).1 is None,
            },
    {
        match event {
            ChatEventType::Text => match &passed {
                Some(text) => {
                    let processed = self.process_file_references(text, &ctx.file_refs);
                    Ok(self.send_text(ctx, &processed))
                },
                None => Ok(self.introduction(ctx)),
            },
            ChatEventType::File | ChatEventType::ReplaceResponse => match &passed {
                Some(text) => Ok(self.send_text(ctx, text)),
                None => Ok(self.introduction(ctx)),
            },
            ChatEventType::Json => {
                if ctx.tool_calls.len() > 0 {
                    let chunk = self.create_tool_calls_chunk(&ctx.tool_calls);
                    Ok(self.introduce(ctx, StreamPayload::Chunk { chunk, usage: None }))
                } else {
                    let out: Vec<StreamPayload> = Vec::new();
                    assert(views(out@) =~= Seq::<PayloadView>::empty());
                    Ok(out)
                }
            },
            ChatEventType::Done => self.end_stream(ctx, passed),
            ChatEventType::Error => match &passed {
                Some(text) => Ok(self.send_text(ctx, text)),
                None => {
                    let out: Vec<StreamPayload> = Vec::new();
                    assert(views(out@) =~= Seq::<PayloadView>::empty());
                    Ok(out)
                },
            },
        }
    }

    /// One step of a stream: takes what the source of events handed over and
    /// returns the messages to send, or nothing once the stream has ended.
    pub fn process_stream(&self, state: &mut StreamState, item: Option<StreamItem>) -> (r: Result<
        Option<Vec<StreamPayload>>,
        UncountableTokens,
    >)
        ensures
            (final(state)@, step_view(r)) == stream_step(self@, old(state)@, opt_view(item)),
    {
        if state.is_done {
            return Ok(None);
        }
        match item {
            None => Ok(None),
            Some(StreamItem::Failure(text)) => {
                let (_, body) = convert_poe_error_to_openai(&text, false);
                let mut out: Vec<StreamPayload> = Vec::new();
                out.push(StreamPayload::Failure(body));
                state.is_done = true;
                assert(views(out@) =~= seq![PayloadView::Failure(converted(text@).1)]);
                Ok(Some(out))
            },
            Some(StreamItem::Event(event)) => {
                let manager = EventHandlerManager::new();
                let passed = manager.handle(&event, &mut state.ctx);
                if let Some((_, body)) = &state.ctx.error {
                    let mut out: Vec<StreamPayload> = Vec::new();
                    out.push(StreamPayload::Failure(body.clone()));
                    assert(views(out@) =~= seq![PayloadView::Failure(body@)]);
                    state.is_done = true;
                    return Ok(Some(out));
                }
                state.is_done = state.ctx.done;
                match self.event_output(&mut state.ctx, event.event, passed) {
                    Ok(out) => Ok(Some(out)),
                    Err(e) => Err(e),
                }
            },
        }
    }
}

/// What a client that wants the answer as a whole gets after one more event.
#[derive(Debug, PartialEq, Eq)]
pub enum NonStreamStep {
    /// Nothing yet.
    Pending,
    /// The answer.
    Reply(ChatCompletionResponse),
    /// A failure, with its status.
    Failed(u16, OpenAIErrorResponse),
    /// Nothing: the tokens of the answer cannot be counted.
    Uncountable,
}

/// The value of a [`NonStreamStep`].
#[verifier::ext_equal]
pub enum NonStreamView {
    Pending,
    Reply(ChatCompletionResponseView),
    Failed(u16, OpenAIErrorResponseView),
    Uncountable,
}

impl View for NonStreamStep {
    type V = NonStreamView;

    open spec fn view(&self) -> NonStreamView {
        match self {
            NonStreamStep::Pending => NonStreamView::Pending,
            NonStreamStep::Reply(answer) => NonStreamView::Reply(answer@),
            NonStreamStep::Failed(status, body) => NonStreamView::Failed(*status, body@),
            NonStreamStep::Uncountable => NonStreamView::Uncountable,
        }
    }
}

/// The answer as a whole.
pub open spec fn reply_for(g: GeneratorView, c: ContextView) -> (ContextView, NonStreamView) {
    match usage_of(g, c) {
        Some(u) => (
            ContextView { completion_tokens: u.completion_tokens, ..c },
            NonStreamView::Reply(whole_answer(g, c, u)),
        ),
        None => (c, NonStreamView::Uncountable),
    }
}

/// One step towards the answer as a whole: it goes out when the bot is done or
/// the source of events has ended, and a failure takes its place.
pub open spec fn non_stream_step(g: GeneratorView, c: ContextView, item: Option<StreamItemView>) -> (
    ContextView,
    NonStreamView,
) {
    match item {
        None => reply_for(g, c),
        Some(StreamItemView::Failure(text)) => {
            let (status, body) = converted(text);
            (c, NonStreamView::Failed(status, body))
        },
        Some(StreamItemView::Event(event)) => {
            let next = after_event(c, event).0;
            match next.error {
                Some(e) => (next, NonStreamView::Failed(e.0, e.1)),
                None => if next.done {
                    reply_for(g, next)
                } else {
                    (next, NonStreamView::Pending)
                },
            }
        },
    }
}

impl OutputGenerator {
    /// The answer as a whole.
    fn reply(&self, ctx: &mut EventContext) -> (r: NonStreamStep)
        ensures
            (final(ctx)@, r@) == reply_for(self@, old(ctx)@),
    {
        match self.create_final_response(ctx) {
            Ok(answer) => NonStreamStep::Reply(answer),
            Err(_) => NonStreamStep::Uncountable,
        }
    }

    /// One step towards the answer as a whole: takes what the source of events
    /// handed over and returns the reply, once there is one.
    pub fn handle_non_stream_response(&self, ctx: &mut EventContext, item: Option<StreamItem>) -> (r:
        NonStreamStep)
        ensures
            (final(ctx)@, r@) == non_stream_step(self@, old(ctx)@, opt_view(item)),
    {
        match item {
            None => self.reply(ctx),
            Some(StreamItem::Failure(text)) => {
                let (status, body) = convert_poe_error_to_openai(&text, false);
                NonStreamStep::Failed(status, body)
            },
            Some(StreamItem::Event(event)) => {
                let manager = EventHandlerManager::new();
                let _ = manager.handle(&event, ctx);
                if let Some((status, body)) = &ctx.error {
                    return NonStreamStep::Failed(*status, body.clone());
                }
                if ctx.done {
                    self.reply(ctx)
                } else {
                    NonStreamStep::Pending
                }
            },
        }
    }
}

/// Messages in the form of server-sent events.
pub open spec fn framed(jsons: Seq<Seq<char>>) -> Seq<char>
    decreases jsons.len(),
{
    if jsons.len() == 0 {
        Seq::empty()
    } else {
        framed(jsons.drop_last()) + "data: "@ + jsons.last() + "\n\n"@
    }
}

/// Writes messages, given as JSON, in the form of server-sent events.
pub fn frame_messages(jsons: &Vec<String>) -> (out: String)
    ensures
        out@ == framed(views(jsons@)),
{
    let mut out = String::new();
    let mut i: usize = 0;
    while i < jsons.len()
        invariant
            i <= jsons.len(),
            out@ == framed(views(jsons@).take(i as int)),
        decreases jsons.len() - i,
    {
        let ghost next = views(jsons@).take(i + 1);
        assert(next.drop_last() =~= views(jsons@).take(i as int));
        assert(next.last() == jsons@[i as int]@);
        out.append("data: ");
        out.append(&jsons[i]);
        out.append("\n\n");
        i += 1;
    }
    assert(views(jsons@).take(i as int) =~= views(jsons@));
    out
}

/// The server-sent event that closes every stream.
pub open spec fn closing() -> Seq<char> {
    "data: [DONE]\n\n"@
}

/// The server-sent event that closes every stream.
pub fn closing_message() -> (out: String)
    ensures
        out@ == closing(),
{
    "data: [DONE]\n\n".to_owned()
}

/// Whether a stream is closed after one more step, and what goes out for it,
/// given the messages of the step as JSON, or nothing where the stream has
/// ended. A step without messages sends nothing, and the end sends the closing
/// event once.
pub open spec fn let_out(closed: bool, jsons: Option<Seq<Seq<char>>>) -> (bool, Option<Seq<char>>) {
    if closed {
        (true, None)
    } else {
        match jsons {
            Some(messages) => if messages.len() > 0 {
                (false, Some(framed(messages)))
            } else {
                (false, None)
            },
            None => (true, Some(closing())),
        }
    }
}

/// Where the messages of a stream go out.
#[derive(Debug, PartialEq, Eq)]
pub struct StreamOutlet {
    /// The closing event went out.
    pub closed: bool,
}

impl StreamOutlet {
    /// An outlet of a stream that has not begun.
    pub fn new() -> (r: StreamOutlet)
        ensures
            !r.closed,
    {
        StreamOutlet { closed: false }
    }

    /// What goes out for one step, given its messages as JSON, or nothing where
    /// the stream has ended.
    pub fn emit(&mut self, jsons: Option<Vec<String>>) -> (r: Option<String>)
        ensures
            (final(self).closed, opt_view(r)) == let_out(old(self).closed, opt_views(jsons)),
    {
        if self.closed {
            return None;
        }
        match jsons {
            Some(messages) => {
                if messages.len() > 0 {
                    Some(frame_messages(&messages))
                } else {
                    None
                }
            },
            None => {
                self.closed = true;
                Some(closing_message())
            },
        }
    }
}

} // verus!
