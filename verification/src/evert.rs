//! The events of a bot's answer: how each of them changes what is known of the
//! answer, and what part of it can be passed on.
use crate::errors::{convert_poe_error_to_openai, converted};
use crate::files::{
    distinct, link, link_text, marker, marker_text, mentions, replace_references, with_file,
    with_links, FileRefView, FileRefs,
};
use crate::text::{contains, contains_text, replace, replaced, views};
use crate::types::{
    opt_view, ChatEventType, ChatResponse, ChatResponseData, ChatResponseView, ChatToolCall,
    ChatToolCallView, DataView, FileDataView, OpenAIErrorResponse, OpenAIErrorResponseView,
};
use vstd::prelude::*;

verus! {

/// What is known of an answer while its events come in.
#[derive(Debug, PartialEq, Eq)]
pub struct EventContext {
    /// The text so far.
    pub content: String,
    /// The text that takes the place of `content`.
    pub replace_buffer: Option<String>,
    /// The files so far.
    pub file_refs: FileRefs,
    /// The tool calls so far.
    pub tool_calls: Vec<ChatToolCall>,
    /// A replacement came last, and no second text after it.
    pub is_replace_mode: bool,
    /// The status and the body of the reply to a failure.
    pub error: Option<(u16, OpenAIErrorResponse)>,
    /// The answer has ended.
    pub done: bool,
    /// The number of tokens of the answer, once it was counted.
    pub completion_tokens: u32,
    /// The first text after the last replacement was added to it.
    pub first_text_processed: bool,
    /// The chunk that names the speaker was sent.
    pub role_chunk_sent: bool,
    /// A file came in.
    pub has_new_file_refs: bool,
    /// A replacement was sent with its links.
    pub image_urls_sent: bool,
}

/// The value of an [`EventContext`].
#[verifier::ext_equal]
pub struct ContextView {
    pub content: Seq<char>,
    pub replace_buffer: Option<Seq<char>>,
    pub file_refs: Seq<FileRefView>,
    pub tool_calls: Seq<ChatToolCallView>,
    pub is_replace_mode: bool,
    pub error: Option<(u16, OpenAIErrorResponseView)>,
    pub done: bool,
    pub completion_tokens: u32,
    pub first_text_processed: bool,
    pub role_chunk_sent: bool,
    pub has_new_file_refs: bool,
    pub image_urls_sent: bool,
}

impl View for EventContext {
    type V = ContextView;

    open spec fn view(&self) -> ContextView {
        ContextView {
            content: self.content@,
            replace_buffer: opt_view(self.replace_buffer),
            file_refs: self.file_refs@,
            tool_calls: views(self.tool_calls@),
            is_replace_mode: self.is_replace_mode,
            error: match self.error {
                Some(e) => Some((e.0, e.1@)),
                None => None,
            },
            done: self.done,
            completion_tokens: self.completion_tokens,
            first_text_processed: self.first_text_processed,
            role_chunk_sent: self.role_chunk_sent,
            has_new_file_refs: self.has_new_file_refs,
            image_urls_sent: self.image_urls_sent,
        }
    }
}

/// Nothing is known yet.
pub open spec fn empty_context() -> ContextView {
    ContextView {
        content: Seq::empty(),
        replace_buffer: None,
        file_refs: Seq::empty(),
        tool_calls: Seq::empty(),
        is_replace_mode: false,
        error: None,
        done: false,
        completion_tokens: 0,
        first_text_processed: false,
        role_chunk_sent: false,
        has_new_file_refs: false,
        image_urls_sent: false,
    }
}

impl ContextView {
    /// No file reference occurs twice.
    pub open spec fn wf(self) -> bool {
        distinct(self.file_refs)
    }
}

impl Default for EventContext {
    fn default() -> (r: EventContext)
        ensures
            r@ == empty_context(),
            r@.wf(),
    {
        let r = EventContext {
            content: String::new(),
            replace_buffer: None,
            file_refs: FileRefs::new(),
            tool_calls: Vec::new(),
            is_replace_mode: false,
            error: None,
            done: false,
            completion_tokens: 0,
            first_text_processed: false,
            role_chunk_sent: false,
            has_new_file_refs: false,
            image_urls_sent: false,
        };
        assert(r@ =~= empty_context());
        r
    }
}

/// More text. The first text after a replacement is added to the replacement,
/// and both are passed on together; the second ends the replacement, which
/// becomes the content. Any other text is added to the content.
pub open spec fn after_text(c: ContextView, text: Seq<char>) -> (ContextView, Option<Seq<char>>) {
    if c.is_replace_mode && !c.first_text_processed {
        match c.replace_buffer {
            Some(b) => (
                ContextView { replace_buffer: Some(b + text), first_text_processed: true, ..c },
                Some(b + text),
            ),
            None => (ContextView { content: c.content + text, ..c }, Some(text)),
        }
    } else if c.is_replace_mode {
        let base = match c.replace_buffer {
            Some(b) => b,
            None => c.content,
        };
        (
            ContextView {
                is_replace_mode: false,
                first_text_processed: false,
                replace_buffer: None,
                content: base + text,
                ..c
            },
            Some(text),
        )
    } else {
        (ContextView { content: c.content + text, ..c }, Some(text))
    }
}

/// A file. It is kept under its name, and a replacement that refers to it is
/// passed on, once, with the link in place of the reference.
pub open spec fn after_file(c: ContextView, file: FileDataView) -> (ContextView, Option<Seq<char>>) {
    let kept = ContextView {
        file_refs: with_file(c.file_refs, file.inline_ref, file),
        has_new_file_refs: true,
        ..c
    };
    match c.replace_buffer {
        Some(b) => if !c.image_urls_sent && contains_text(b, marker(file.inline_ref)) {
            (
                ContextView { image_urls_sent: true, ..kept },
                Some(replaced(b, marker(file.inline_ref), link(file.url))),
            )
        } else {
            (kept, None)
        },
        None => (kept, None),
    }
}

/// A replacement. It is kept, and passed on at once where it refers to files
/// that are known, with links in place of the references.
pub open spec fn after_replacement(c: ContextView, text: Seq<char>) -> (
    ContextView,
    Option<Seq<char>>,
) {
    let kept = ContextView {
        is_replace_mode: true,
        replace_buffer: Some(text),
        first_text_processed: false,
        ..c
    };
    if contains_text(text, "["@) && mentions(text, c.file_refs) {
        (ContextView { image_urls_sent: true, ..kept }, Some(with_links(text, c.file_refs)))
    } else {
        (kept, None)
    }
}

/// Tool calls are added to those before.
pub open spec fn after_tool_calls(c: ContextView, calls: Seq<ChatToolCallView>) -> (
    ContextView,
    Option<Seq<char>>,
) {
    (ContextView { tool_calls: c.tool_calls + calls, ..c }, Some("tool_calls"@))
}

/// A failure is kept in the form in which it is replied.
pub open spec fn after_failure(c: ContextView, text: Seq<char>) -> (ContextView, Option<Seq<char>>) {
    (ContextView { error: Some(converted(text)), ..c }, Some("error"@))
}

/// The end. A replacement whose links were not passed on yet comes out with
/// them.
pub open spec fn after_done(c: ContextView) -> (ContextView, Option<Seq<char>>) {
    let ended = ContextView { done: true, ..c };
    match c.replace_buffer {
        Some(b) => if !c.image_urls_sent && mentions(b, c.file_refs) {
            (ContextView { image_urls_sent: true, ..ended }, Some(with_links(b, c.file_refs)))
        } else {
            (ended, Some("done"@))
        },
        None => (ended, Some("done"@)),
    }
}

/// What an event makes of the context, and what it passes on. An event whose
/// data do not fit its sort changes nothing.
pub open spec fn after_event(c: ContextView, event: ChatResponseView) -> (
    ContextView,
    Option<Seq<char>>,
) {
    match (event.event, event.data) {
        (ChatEventType::Text, Some(DataView::Text(text))) => after_text(c, text),
        (ChatEventType::File, Some(DataView::File(file))) => after_file(c, file),
        (ChatEventType::ReplaceResponse, Some(DataView::Text(text))) => after_replacement(c, text),
        (ChatEventType::Json, Some(DataView::ToolCalls(calls))) => after_tool_calls(c, calls),
        (ChatEventType::Error, Some(DataView::Error(text, _))) => after_failure(c, text),
        (ChatEventType::Done, _) => after_done(c),
        _ => (c, None),
    }
}

/// Handles texts.
#[derive(Clone, Copy)]
pub struct TextEventHandler;

impl TextEventHandler {
    /// Handles an event that should carry a text.
    pub fn handle(&self, event: &ChatResponse, ctx: &mut EventContext) -> (r: Option<String>)
        ensures
            event@.data matches Some(DataView::Text(text)) ==> (final(ctx)@, opt_view(r))
                == after_text(old(ctx)@, text),
            !(event@.data matches Some(DataView::Text(_))) ==> *final(ctx) == *old(ctx) && r
                is None,
    {
        if let Some(ChatResponseData::Text { text }) = &event.data {
            if ctx.is_replace_mode && !ctx.first_text_processed {
                match ctx.replace_buffer.take() {
                    Some(mut merged) => {
                        merged.append(text);
                        ctx.replace_buffer = Some(merged.clone());
                        ctx.first_text_processed = true;
                        return Some(merged);
                    },
                    None => {
                        ctx.content.append(text);
                        return Some(text.clone());
                    },
                }
            } else if ctx.is_replace_mode {
                ctx.is_replace_mode = false;
                ctx.first_text_processed = false;
                if let Some(replacement) = ctx.replace_buffer.take() {
                    ctx.content = replacement;
                }
                ctx.content.append(text);
                return Some(text.clone());
            } else {
                ctx.content.append(text);
                return Some(text.clone());
            }
        }
        None
    }
}

/// Handles files.
#[derive(Clone, Copy)]
pub struct FileEventHandler;

impl FileEventHandler {
    /// Handles an event that should carry a file.
    pub fn handle(&self, event: &ChatResponse, ctx: &mut EventContext) -> (r: Option<String>)
        ensures
            event@.data matches Some(DataView::File(file)) ==> (final(ctx)@, opt_view(r))
                == after_file(old(ctx)@, file),
            !(event@.data matches Some(DataView::File(_))) ==> *final(ctx) == *old(ctx) && r
                is None,
            old(ctx)@.wf() ==> final(ctx)@.wf(),
    {
        if let Some(ChatResponseData::File(file_data)) = &event.data {
            ctx.file_refs.insert(file_data.inline_ref.clone(), file_data.clone());
            ctx.has_new_file_refs = true;
            if !ctx.image_urls_sent {
                if let Some(content) = &ctx.replace_buffer {
                    let img_marker = marker_text(&file_data.inline_ref);
                    if contains(content, &img_marker) {
                        let replacement = link_text(&file_data.url);
                        let processed = replace(content, &img_marker, &replacement);
                        ctx.image_urls_sent = true;
                        return Some(processed);
                    }
                }
            }
        }
        None
    }
}

/// Handles replacements.
#[derive(Clone, Copy)]
pub struct ReplaceResponseEventHandler;

impl ReplaceResponseEventHandler {
    /// Handles an event that should carry a text.
    pub fn handle(&self, event: &ChatResponse, ctx: &mut EventContext) -> (r: Option<String>)
        ensures
            event@.data matches Some(DataView::Text(text)) ==> (final(ctx)@, opt_view(r))
                == after_replacement(old(ctx)@, text),
            !(event@.data matches Some(DataView::Text(_))) ==> *final(ctx) == *old(ctx) && r
                is None,
    {
        if let Some(ChatResponseData::Text { text }) = &event.data {
            ctx.is_replace_mode = true;
            ctx.replace_buffer = Some(text.clone());
            ctx.first_text_processed = false;
            if !ctx.file_refs.is_empty() && contains(text, "[") {
                let (processed, has_refs) = replace_references(text, &ctx.file_refs);
                if has_refs {
                    ctx.image_urls_sent = true;
                    return Some(processed);
                }
            }
        }
        None
    }
}

/// Handles structured data.
#[derive(Clone, Copy)]
pub struct JsonEventHandler;

impl JsonEventHandler {
    /// Handles an event that may carry tool calls.
    pub fn handle(&self, event: &ChatResponse, ctx: &mut EventContext) -> (r: Option<String>)
        ensures
            event@.data matches Some(DataView::ToolCalls(calls)) ==> (final(ctx)@, opt_view(r))
                == after_tool_calls(old(ctx)@, calls),
            !(event@.data matches Some(DataView::ToolCalls(_))) ==> *final(ctx) == *old(ctx) && r
                is None,
    {
        if let Some(ChatResponseData::ToolCalls(tool_calls)) = &event.data {
            let mut more = tool_calls.clone();
            assert(views(more@) =~= views(tool_calls@));
            let ghost before = ctx.tool_calls@;
            let ghost added = more@;
            ctx.tool_calls.append(&mut more);
            assert(views(ctx.tool_calls@) =~= views(before) + views(added));
            return Some("tool_calls".to_owned());
        }
        None
    }
}

/// Handles failures.
#[derive(Clone, Copy)]
pub struct ErrorEventHandler;

impl ErrorEventHandler {
    /// Handles an event that should describe a failure.
    pub fn handle(&self, event: &ChatResponse, ctx: &mut EventContext) -> (r: Option<String>)
        ensures
            event@.data matches Some(DataView::Error(text, _)) ==> (final(ctx)@, opt_view(r))
                == after_failure(old(ctx)@, text),
            !(event@.data matches Some(DataView::Error(_, _))) ==> *final(ctx) == *old(ctx) && r
                is None,
    {
        if let Some(ChatResponseData::Error { text, allow_retry }) = &event.data {
            ctx.error = Some(convert_poe_error_to_openai(text, *allow_retry));
            return Some("error".to_owned());
        }
        None
    }
}

/// Handles the end.
#[derive(Clone, Copy)]
pub struct DoneEventHandler;

impl DoneEventHandler {
    /// Handles the end of the answer, whatever the event carries.
    pub fn handle(&self, _event: &ChatResponse, ctx: &mut EventContext) -> (r: Option<String>)
        ensures
            (final(ctx)@, opt_view(r)) == after_done(old(ctx)@),
    {
        ctx.done = true;
        if !ctx.image_urls_sent && !ctx.file_refs.is_empty() {
            if let Some(content) = &ctx.replace_buffer {
                let (processed, has_refs) = replace_references(content, &ctx.file_refs);
                if has_refs {
                    ctx.image_urls_sent = true;
                    return Some(processed);
                }
            }
        }
        Some("done".to_owned())
    }
}

/// Hands each event to the handler for its sort.
#[derive(Clone, Copy)]
pub struct EventHandlerManager {
    /// For texts.
    pub text_handler: TextEventHandler,
    /// For files.
    pub file_handler: FileEventHandler,
    /// For replacements.
    pub replace_handler: ReplaceResponseEventHandler,
    /// For structured data.
    pub json_handler: JsonEventHandler,
    /// For failures.
    pub error_handler: ErrorEventHandler,
    /// For the end.
    pub done_handler: DoneEventHandler,
}

impl EventHandlerManager {
    /// One handler of each sort.
    pub fn new() -> (r: EventHandlerManager)
        ensures
            r == (EventHandlerManager {
                text_handler: TextEventHandler,
                file_handler: FileEventHandler,
                replace_handler: ReplaceResponseEventHandler,
                json_handler: JsonEventHandler,
                error_handler: ErrorEventHandler,
                done_handler: DoneEventHandler,
            }),
    {
        EventHandlerManager {
            text_handler: TextEventHandler,
            file_handler: FileEventHandler,
            replace_handler: ReplaceResponseEventHandler,
            json_handler: JsonEventHandler,
            error_handler: ErrorEventHandler,
            done_handler: DoneEventHandler,
        }
    }

    /// Handles an event: brings the context up to date and returns what can be
    /// passed on.
    pub fn handle(&self, event: &ChatResponse, ctx: &mut EventContext) -> (r: Option<String>)
        ensures
            (final(ctx)@, opt_view(r)) == after_event(old(ctx)@, event@),
            old(ctx)@.wf() ==> final(ctx)@.wf(),
    {
        match event.event {
            ChatEventType::Text => self.text_handler.handle(event, ctx),
            ChatEventType::File => self.file_handler.handle(event, ctx),
            ChatEventType::ReplaceResponse => self.replace_handler.handle(event, ctx),
            ChatEventType::Json => self.json_handler.handle(event, ctx),
            ChatEventType::Error => self.error_handler.handle(event, ctx),
            ChatEventType::Done => self.done_handler.handle(event, ctx),
        }
    }
}

} // verus!
