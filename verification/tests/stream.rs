use poe2openai::evert::EventContext;
use poe2openai::files::FileRefs;
use poe2openai::output::OutputGenerator;
use poe2openai::stream::{
    closing_message, frame_messages, NonStreamStep, StreamItem, StreamOutlet, StreamPayload,
    StreamState,
};
use poe2openai::types::{
    ChatEventType, ChatResponse, ChatResponseData, ChatToolCall, FileData, FunctionCall, Usage,
};

fn generator(include_usage: bool) -> OutputGenerator {
    OutputGenerator {
        id: "abc".to_string(),
        created: 17,
        model: "bot".to_string(),
        prompt_tokens: 5,
        include_usage,
    }
}

fn event(kind: ChatEventType, data: ChatResponseData) -> Option<StreamItem> {
    Some(StreamItem::Event(ChatResponse { event: kind, data: Some(data) }))
}

fn text(s: &str) -> Option<StreamItem> {
    event(ChatEventType::Text, ChatResponseData::Text { text: s.to_string() })
}

fn replacement(s: &str) -> Option<StreamItem> {
    event(ChatEventType::ReplaceResponse, ChatResponseData::Text { text: s.to_string() })
}

fn file(id: &str, url: &str) -> Option<StreamItem> {
    event(
        ChatEventType::File,
        ChatResponseData::File(FileData {
            url: url.to_string(),
            name: "n".to_string(),
            content_type: "image/png".to_string(),
            inline_ref: id.to_string(),
        }),
    )
}

fn tools() -> Option<StreamItem> {
    event(
        ChatEventType::Json,
        ChatResponseData::ToolCalls(vec![ChatToolCall {
            id: "1".to_string(),
            kind: "function".to_string(),
            function: FunctionCall { name: "f".to_string(), arguments: "{}".to_string() },
        }]),
    )
}

fn failure(s: &str) -> Option<StreamItem> {
    event(
        ChatEventType::Error,
        ChatResponseData::Error { text: s.to_string(), allow_retry: false },
    )
}

fn done() -> Option<StreamItem> {
    event(ChatEventType::Done, ChatResponseData::Empty)
}

/// A short form of a message: the speaker, the text, the tool calls and the
/// reason of the end.
fn shown(payload: &StreamPayload) -> String {
    match payload {
        StreamPayload::Chunk { chunk, usage } => {
            assert_eq!(chunk.id, "chatcmpl-abc");
            assert_eq!(chunk.object, "chat.completion.chunk");
            assert_eq!((chunk.created, chunk.model.as_str()), (17, "bot"));
            assert_eq!(chunk.choices.len(), 1);
            let choice = &chunk.choices[0];
            assert_eq!((choice.index, &choice.delta.refusal), (0, &None));
            format!(
                "{:?}|{:?}|{}|{:?}|{:?}",
                choice.delta.role,
                choice.delta.content,
                choice.delta.tool_calls.as_ref().map_or(0, |c| c.len()),
                choice.finish_reason,
                usage.as_ref().map(|u| u.total_tokens),
            )
        }
        StreamPayload::Failure(body) => format!("failure {}", body.error.code),
    }
}

fn run(g: &OutputGenerator, items: Vec<Option<StreamItem>>) -> (StreamState, Vec<Vec<String>>) {
    let mut state = StreamState::new();
    let mut out = Vec::new();
    for item in items {
        match g.process_stream(&mut state, item).unwrap() {
            Some(payloads) => out.push(payloads.iter().map(shown).collect()),
            None => out.push(vec!["ended".to_string()]),
        }
    }
    (state, out)
}

const ROLE: &str = "Some(\"assistant\")|None|0|None|None";

#[test]
fn texts_go_out_after_the_speaker() {
    let (state, out) = run(&generator(false), vec![text("a"), text("b"), done(), text("c")]);
    assert_eq!(
        out,
        vec![
            vec![ROLE, "None|Some(\"a\")|0|None|None"],
            vec!["None|Some(\"b\")|0|None|None"],
            vec!["None|Some(\"\")|0|Some(\"stop\")|None"],
            vec!["ended"],
        ]
    );
    assert!(state.is_done);
    assert_eq!(state.ctx.content, "ab");
}

#[test]
fn usage_goes_out_with_the_last_chunk() {
    let (state, out) = run(&generator(true), vec![text("hello world"), done()]);
    assert_eq!(out[1], vec!["None|Some(\"\")|0|Some(\"stop\")|Some(7)"]);
    assert_eq!(state.ctx.completion_tokens, 2);
}

#[test]
fn an_end_without_anything_names_the_speaker() {
    let (_, out) = run(&generator(false), vec![done()]);
    assert_eq!(out, vec![vec![ROLE, "None|Some(\"\")|0|Some(\"stop\")|None"]]);
}

#[test]
fn tool_calls_go_out_and_are_the_reason_of_the_end() {
    let (_, out) = run(&generator(false), vec![tools(), tools(), done()]);
    assert_eq!(
        out,
        vec![
            vec![ROLE, "None|None|1|Some(\"tool_calls\")|None"],
            vec!["None|None|2|Some(\"tool_calls\")|None"],
            vec!["None|Some(\"\")|0|Some(\"tool_calls\")|None"],
        ]
    );
}

#[test]
fn structured_data_without_tool_calls_sends_nothing() {
    let (_, out) =
        run(&generator(false), vec![event(ChatEventType::Json, ChatResponseData::Empty)]);
    assert_eq!(out, vec![Vec::<String>::new()]);
}

#[test]
fn a_replacement_names_the_speaker_and_waits() {
    let (_, out) =
        run(&generator(false), vec![replacement("r"), text("1"), text("2"), replacement("s")]);
    assert_eq!(
        out,
        vec![
            vec![ROLE],
            vec!["None|Some(\"r1\")|0|None|None"],
            vec!["None|Some(\"2\")|0|None|None"],
            vec![],
        ]
    );
}

#[test]
fn files_become_links_in_later_texts() {
    let (_, out) =
        run(&generator(false), vec![file("a", "u1"), text("x [a]"), replacement("[a]"), done()]);
    assert_eq!(
        out,
        vec![
            vec![ROLE],
            vec!["None|Some(\"x (u1)\")|0|None|None"],
            vec!["None|Some(\"(u1)\")|0|None|None"],
            vec!["None|Some(\"\")|0|Some(\"stop\")|None"],
        ]
    );
}

#[test]
fn a_file_sends_the_replacement_that_refers_to_it() {
    let (_, out) = run(&generator(false), vec![replacement("[a]"), file("a", "u1")]);
    assert_eq!(out[1], vec!["None|Some(\"(u1)\")|0|None|None"]);
}

#[test]
fn a_failure_is_the_last_message() {
    let (state, out) = run(&generator(false), vec![text("a"), failure("Bot does not exist"), text("b")]);
    assert_eq!(out[1], vec!["failure model_not_found"]);
    assert_eq!(out[2], vec!["ended"]);
    assert!(state.is_done);
}

#[test]
fn a_broken_source_is_a_failure() {
    let (state, out) =
        run(&generator(false), vec![Some(StreamItem::Failure("rate limit".to_string())), done()]);
    assert_eq!(out, vec![vec!["failure rate_limit_exceeded"], vec!["ended"]]);
    assert!(state.is_done);
}

#[test]
fn the_source_may_end_without_a_sign() {
    let (state, out) = run(&generator(false), vec![text("a"), None]);
    assert_eq!(out[1], vec!["ended"]);
    assert!(!state.is_done);
}

#[test]
fn an_error_event_without_data_sends_nothing() {
    let (state, out) =
        run(&generator(false), vec![event(ChatEventType::Error, ChatResponseData::Empty)]);
    assert_eq!(out, vec![Vec::<String>::new()]);
    assert!(!state.is_done);
}

#[test]
fn unsent_links_at_the_end_go_out_with_a_reason() {
    let g = generator(false);
    let mut ctx = EventContext::default();
    let out = g.end_stream(&mut ctx, Some("(u1)".to_string())).unwrap();
    assert_eq!(out.iter().map(shown).collect::<Vec<_>>(), vec!["None|Some(\"(u1)\")|0|Some(\"stop\")|None"]);
    assert!(ctx.image_urls_sent);
}

#[test]
fn totals_over_32_bits_are_reported() {
    let mut g = generator(true);
    g.prompt_tokens = u32::MAX;
    assert!(g.usage_for(0).is_ok());
    assert!(g.usage_for(1).is_err());
    let mut state = StreamState::new();
    g.process_stream(&mut state, text("hello")).unwrap();
    assert!(g.process_stream(&mut state, done()).is_err());
    let mut ctx = EventContext::default();
    g.handle_non_stream_response(&mut ctx, text("hello"));
    assert_eq!(g.handle_non_stream_response(&mut ctx, done()), NonStreamStep::Uncountable);
}

#[test]
fn the_whole_answer_holds_text_links_tools_and_usage() {
    let g = generator(true);
    let mut ctx = EventContext::default();
    for item in [file("a", "u1"), text("x [a]"), tools()] {
        assert_eq!(g.handle_non_stream_response(&mut ctx, item), NonStreamStep::Pending);
    }
    let answer = match g.handle_non_stream_response(&mut ctx, done()) {
        NonStreamStep::Reply(answer) => answer,
        other => panic!("{:?}", other),
    };
    assert_eq!(answer.id, "chatcmpl-abc");
    assert_eq!(answer.object, "chat.completion");
    assert_eq!((answer.created, answer.model.as_str()), (17, "bot"));
    let choice = &answer.choices[0];
    assert_eq!(choice.message.role, "assistant");
    assert_eq!(choice.message.content, "x (u1)");
    assert_eq!(choice.message.tool_calls.as_ref().unwrap().len(), 1);
    assert_eq!(choice.finish_reason.as_deref(), Some("tool_calls"));
    assert_eq!(choice.logprobs, None);
    let usage = answer.usage.unwrap();
    assert_eq!(usage.completion_tokens, ctx.completion_tokens);
    assert_eq!(usage.total_tokens, 5 + usage.completion_tokens);
    assert_eq!(usage.cached_tokens, 0);
}

#[test]
fn the_whole_answer_without_usage() {
    let g = generator(false);
    let mut ctx = EventContext::default();
    g.handle_non_stream_response(&mut ctx, text("old"));
    g.handle_non_stream_response(&mut ctx, replacement("new"));
    match g.handle_non_stream_response(&mut ctx, None) {
        NonStreamStep::Reply(answer) => {
            assert_eq!(answer.choices[0].message.content, "new");
            assert_eq!(answer.choices[0].message.tool_calls, None);
            assert_eq!(answer.choices[0].finish_reason.as_deref(), Some("stop"));
            assert_eq!(answer.usage, None);
        }
        other => panic!("{:?}", other),
    }
}

#[test]
fn failures_take_the_place_of_the_whole_answer() {
    let g = generator(false);
    let mut ctx = EventContext::default();
    match g.handle_non_stream_response(&mut ctx, failure("Unauthorized")) {
        NonStreamStep::Failed(status, body) => {
            assert_eq!((status, body.error.kind.as_str()), (401, "invalid_auth"))
        }
        other => panic!("{:?}", other),
    }
    match g.handle_non_stream_response(&mut ctx, Some(StreamItem::Failure("x".to_string()))) {
        NonStreamStep::Failed(status, body) => {
            assert_eq!((status, body.error.message.as_str()), (400, "x"))
        }
        other => panic!("{:?}", other),
    }
}

#[test]
fn both_ways_end_with_the_same_item() {
    let g = generator(false);
    let items = || vec![text("a"), replacement("b"), tools(), file("f", "u"), text("c"), done()];
    let mut state = StreamState::new();
    let mut ctx = EventContext::default();
    for (s, w) in items().into_iter().zip(items()) {
        g.process_stream(&mut state, s).unwrap();
        let reply = g.handle_non_stream_response(&mut ctx, w);
        assert_eq!(state.is_done, reply != NonStreamStep::Pending);
        assert_eq!(state.ctx.replace_buffer, ctx.replace_buffer);
    }
    assert!(state.is_done);
}

#[test]
fn messages_are_framed_as_server_sent_events() {
    assert_eq!(frame_messages(&vec![]), "");
    assert_eq!(
        frame_messages(&vec!["{}".to_string(), "[]".to_string()]),
        "data: {}\n\ndata: []\n\n"
    );
    assert_eq!(closing_message(), "data: [DONE]\n\n");
}

#[test]
fn a_new_generator_has_a_random_name_and_the_time() {
    let a = OutputGenerator::new("m".to_string(), 3, true);
    let b = OutputGenerator::new("m".to_string(), 3, true);
    assert_eq!(a.id.len(), 10);
    assert!(a.id.chars().all(|c| c.is_ascii_alphanumeric() || c == '_' || c == '-'));
    assert_ne!(a.id, b.id);
    assert!(a.created > 1_600_000_000);
    assert_eq!((a.model.as_str(), a.prompt_tokens, a.include_usage), ("m", 3, true));
}

#[test]
fn references_of_a_text_are_processed() {
    let g = generator(false);
    assert_eq!(g.process_file_references("[a]", &FileRefs::new()), "[a]");
}

#[test]
fn given_counts_make_the_last_messages() {
    let g = generator(true);
    let mut ctx = EventContext::default();
    let usage =
        Usage { prompt_tokens: 5, completion_tokens: 4, total_tokens: 9, cached_tokens: 0 };
    let out = g.end_with(&mut ctx, usage);
    assert_eq!(
        out.iter().map(shown).collect::<Vec<_>>(),
        vec![ROLE, "None|Some(\"\")|0|Some(\"stop\")|Some(9)"]
    );
    assert_eq!(ctx.completion_tokens, 4);
}

#[test]
fn an_outlet_closes_once() {
    let mut outlet = StreamOutlet::new();
    assert_eq!(outlet.emit(Some(vec![])), None);
    assert_eq!(outlet.emit(Some(vec!["{}".to_string()])), Some("data: {}\n\n".to_string()));
    assert!(!outlet.closed);
    assert_eq!(outlet.emit(None), Some("data: [DONE]\n\n".to_string()));
    assert!(outlet.closed);
    assert_eq!(outlet.emit(None), None);
    assert_eq!(outlet.emit(Some(vec!["{}".to_string()])), None);
}

/// What goes out of a stream whose source ends after the items, each message
/// written as an object that holds its short form.
fn whole_output(items: Vec<Option<StreamItem>>) -> Vec<String> {
    let g = generator(false);
    let mut state = StreamState::new();
    let mut outlet = StreamOutlet::new();
    let mut source = items.into_iter();
    let mut out = Vec::new();
    while !outlet.closed {
        let item = if state.is_done { None } else { source.next().unwrap_or(None) };
        let payloads = g.process_stream(&mut state, item).unwrap();
        let jsons = payloads.map(|list| list.iter().map(|p| format!("{{{}}}", shown(p))).collect());
        out.extend(outlet.emit(jsons));
    }
    out
}

#[test]
fn the_closing_event_is_last_and_once() {
    let closing = "data: [DONE]\n\n".to_string();
    assert_eq!(whole_output(vec![]), vec![closing.clone()]);
    for items in [
        vec![text("a"), text("b"), done(), text("c")],
        vec![text("a"), failure("x"), text("b")],
        vec![Some(StreamItem::Failure("x".to_string()))],
        vec![replacement("r"), replacement("s"), tools()],
        vec![event(ChatEventType::Json, ChatResponseData::Empty)],
    ] {
        let out = whole_output(items);
        assert_eq!(out.last(), Some(&closing));
        assert_eq!(out.iter().filter(|o| **o == closing).count(), 1);
        assert!(out.iter().all(|o| !o.is_empty()));
    }
}

#[test]
fn steps_without_messages_send_nothing() {
    assert_eq!(
        whole_output(vec![replacement("r"), replacement("s")]),
        vec![format!("data: {{{}}}\n\n", ROLE), "data: [DONE]\n\n".to_string()]
    );
}

#[test]
fn only_the_end_says_stop() {
    let stops = |items| whole_output(items).iter().any(|o| o.contains("Some(\"stop\")"));
    assert!(!stops(vec![text("a"), tools(), replacement("r"), text("b")]));
    assert!(stops(vec![text("a"), done()]));
}
