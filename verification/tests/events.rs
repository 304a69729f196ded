use poe2openai::evert::{
    DoneEventHandler, ErrorEventHandler, EventContext, EventHandlerManager, FileEventHandler,
    JsonEventHandler, ReplaceResponseEventHandler, TextEventHandler,
};
use poe2openai::types::{
    ChatEventType, ChatResponse, ChatResponseData, ChatToolCall, FileData, FunctionCall,
};

fn text(s: &str) -> ChatResponse {
    ChatResponse {
        event: ChatEventType::Text,
        data: Some(ChatResponseData::Text { text: s.to_string() }),
    }
}

fn replacement(s: &str) -> ChatResponse {
    ChatResponse {
        event: ChatEventType::ReplaceResponse,
        data: Some(ChatResponseData::Text { text: s.to_string() }),
    }
}

fn file(id: &str, url: &str) -> ChatResponse {
    ChatResponse {
        event: ChatEventType::File,
        data: Some(ChatResponseData::File(FileData {
            url: url.to_string(),
            name: "n".to_string(),
            content_type: "image/png".to_string(),
            inline_ref: id.to_string(),
        })),
    }
}

fn call(id: &str) -> ChatToolCall {
    ChatToolCall {
        id: id.to_string(),
        kind: "function".to_string(),
        function: FunctionCall { name: "f".to_string(), arguments: "{}".to_string() },
    }
}

fn done() -> ChatResponse {
    ChatResponse { event: ChatEventType::Done, data: Some(ChatResponseData::Empty) }
}

fn some(s: &str) -> Option<String> {
    Some(s.to_string())
}

#[test]
fn texts_are_added_and_passed_on() {
    let manager = EventHandlerManager::new();
    let mut ctx = EventContext::default();
    assert_eq!(manager.handle(&text("a"), &mut ctx), some("a"));
    assert_eq!(manager.handle(&text("b"), &mut ctx), some("b"));
    assert_eq!(ctx.content, "ab");
    assert_eq!(ctx.replace_buffer, None);
}

#[test]
fn a_replacement_waits_for_the_next_text() {
    let manager = EventHandlerManager::new();
    let mut ctx = EventContext::default();
    manager.handle(&text("old"), &mut ctx);
    assert_eq!(manager.handle(&replacement("new"), &mut ctx), None);
    assert!(ctx.is_replace_mode && !ctx.first_text_processed);
    assert_eq!(manager.handle(&text(" one"), &mut ctx), some("new one"));
    assert_eq!(ctx.replace_buffer, some("new one"));
    assert_eq!(ctx.content, "old");
    assert_eq!(manager.handle(&text(" two"), &mut ctx), some(" two"));
    assert_eq!(ctx.content, "new one two");
    assert_eq!(ctx.replace_buffer, None);
    assert!(!ctx.is_replace_mode && !ctx.first_text_processed);
}

#[test]
fn replace_mode_without_a_buffer_adds_to_the_content() {
    let mut ctx = EventContext::default();
    ctx.is_replace_mode = true;
    assert_eq!(TextEventHandler.handle(&text("x"), &mut ctx), some("x"));
    assert_eq!(ctx.content, "x");
    ctx.first_text_processed = true;
    assert_eq!(TextEventHandler.handle(&text("y"), &mut ctx), some("y"));
    assert_eq!(ctx.content, "xy");
    assert!(!ctx.is_replace_mode);
}

#[test]
fn a_file_completes_a_replacement_once() {
    let mut ctx = EventContext::default();
    assert_eq!(ReplaceResponseEventHandler.handle(&replacement("see [a][b]"), &mut ctx), None);
    assert_eq!(FileEventHandler.handle(&file("c", "u0"), &mut ctx), None);
    assert_eq!(FileEventHandler.handle(&file("a", "u1"), &mut ctx), some("see (u1)[b]"));
    assert!(ctx.image_urls_sent && ctx.has_new_file_refs);
    assert_eq!(FileEventHandler.handle(&file("b", "u2"), &mut ctx), None);
    assert_eq!(ctx.file_refs.entries.len(), 3);
}

#[test]
fn a_replacement_with_known_files_goes_out_at_once() {
    let mut ctx = EventContext::default();
    assert_eq!(FileEventHandler.handle(&file("a", "u1"), &mut ctx), None);
    assert_eq!(
        ReplaceResponseEventHandler.handle(&replacement("![x][a]"), &mut ctx),
        some("![x](u1)")
    );
    assert!(ctx.image_urls_sent);
    assert_eq!(ctx.replace_buffer, some("![x][a]"));
    assert_eq!(ReplaceResponseEventHandler.handle(&replacement("plain"), &mut ctx), None);
}

#[test]
fn the_end_brings_out_unsent_links() {
    let mut ctx = EventContext::default();
    ctx.replace_buffer = some("[a]");
    FileEventHandler.handle(&file("a", "u1"), &mut ctx);
    ctx.image_urls_sent = false;
    assert_eq!(DoneEventHandler.handle(&done(), &mut ctx), some("(u1)"));
    assert!(ctx.done && ctx.image_urls_sent);
    assert_eq!(DoneEventHandler.handle(&done(), &mut ctx), some("done"));
}

#[test]
fn tool_calls_accumulate() {
    let mut ctx = EventContext::default();
    let event = ChatResponse {
        event: ChatEventType::Json,
        data: Some(ChatResponseData::ToolCalls(vec![call("1"), call("2")])),
    };
    assert_eq!(JsonEventHandler.handle(&event, &mut ctx), some("tool_calls"));
    assert_eq!(JsonEventHandler.handle(&event, &mut ctx), some("tool_calls"));
    assert_eq!(ctx.tool_calls.len(), 4);
    assert_eq!(ctx.tool_calls[3], call("2"));
}

#[test]
fn failures_are_kept() {
    let mut ctx = EventContext::default();
    let event = ChatResponse {
        event: ChatEventType::Error,
        data: Some(ChatResponseData::Error { text: "Invalid token".to_string(), allow_retry: true }),
    };
    assert_eq!(ErrorEventHandler.handle(&event, &mut ctx), some("error"));
    let (status, body) = ctx.error.unwrap();
    assert_eq!((status, body.error.code.as_str()), (401, "invalid_api_key"));
}

#[test]
fn events_without_fitting_data_change_nothing() {
    let manager = EventHandlerManager::new();
    for kind in [
        ChatEventType::Text,
        ChatEventType::File,
        ChatEventType::ReplaceResponse,
        ChatEventType::Json,
        ChatEventType::Error,
    ] {
        let mut ctx = EventContext::default();
        let event = ChatResponse { event: kind, data: Some(ChatResponseData::Empty) };
        assert_eq!(manager.handle(&event, &mut ctx), None);
        assert_eq!(ctx, EventContext::default());
    }
}

#[test]
fn a_replacement_discards_what_came_before() {
    let manager = EventHandlerManager::new();
    let mut with_past = EventContext::default();
    let mut without = EventContext::default();
    manager.handle(&text("past"), &mut with_past);
    for event in [replacement("r"), text("1"), text("2")] {
        manager.handle(&event, &mut with_past);
        manager.handle(&event, &mut without);
    }
    assert_eq!(with_past, without);
    assert_eq!(without.content, "r12");
}
