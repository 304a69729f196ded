//! Requests in the form that Poe expects.
use crate::config::{configured, find_model};
use crate::content::{content_text, get_text_from_openai_content};
use crate::external::{json_member, json_string_member};
use crate::text::{chars_of, find_from, first_index, join, joined, same_text, string_of, views};
use crate::types::{
    opt_view, opt_views, Attachment, AttachmentView, ChatMessage, ChatMessageView, ChatToolCall,
    ChatToolResult, ChatToolResultView, Config, ConfigView, ContentView, ItemView, Message,
    MessageView, OpenAiContent, OpenAiContentItem,
};
use vstd::prelude::*;

verus! {

/// A request to a bot. The temperature, the tools and the bias of the tokens
/// go through as they come.
#[derive(Debug)]
pub struct ChatRequest<F, T, B> {
    /// The version of the protocol.
    pub version: String,
    /// The sort of request, the JSON member `type`.
    pub kind: String,
    /// The messages.
    pub query: Vec<ChatMessage>,
    /// The temperature.
    pub temperature: Option<F>,
    /// Who asks.
    pub user_id: String,
    /// The conversation.
    pub conversation_id: String,
    /// The message.
    pub message_id: String,
    /// The tools that the bot may call.
    pub tools: Option<Vec<T>>,
    /// Tool calls.
    pub tool_calls: Option<Vec<ChatToolCall>>,
    /// The results of tool calls.
    pub tool_results: Option<Vec<ChatToolResult>>,
    /// The bias of the tokens.
    pub logit_bias: Option<B>,
    /// The texts that end the answer.
    pub stop_sequences: Option<Vec<String>>,
}

/// The text parts of a content.
pub open spec fn text_parts(content: ContentView) -> Seq<Seq<char>> {
    match content {
        ContentView::Text(s) => seq![s],
        ContentView::Multi(items) => item_texts(items),
    }
}

/// The texts among parts.
pub open spec fn item_texts(items: Seq<ItemView>) -> Seq<Seq<char>>
    decreases items.len(),
{
    if items.len() == 0 {
        Seq::empty()
    } else {
        match items.last() {
            ItemView::Text(text) => item_texts(items.drop_last()).push(text),
            ItemView::ImageUrl(_) => item_texts(items.drop_last()),
        }
    }
}

/// The images among parts, as attachments.
pub open spec fn item_attachments(items: Seq<ItemView>) -> Seq<AttachmentView>
    decreases items.len(),
{
    if items.len() == 0 {
        Seq::empty()
    } else {
        match items.last() {
            ItemView::Text(_) => item_attachments(items.drop_last()),
            ItemView::ImageUrl(url) => item_attachments(items.drop_last()).push(
                AttachmentView { url, content_type: None },
            ),
        }
    }
}

/// The images of a content, as attachments.
pub open spec fn attachments_of(content: ContentView) -> Seq<AttachmentView> {
    match content {
        ContentView::Text(_) => Seq::empty(),
        ContentView::Multi(items) => item_attachments(items),
    }
}

/// A message for Poe under a given role: its texts, one per line, and its
/// images as attachments.
pub open spec fn poe_message(message: MessageView, role: Seq<char>) -> ChatMessageView {
    ChatMessageView {
        role,
        content: joined(text_parts(message.content), "\n"@),
        attachments: if attachments_of(message.content).len() > 0 {
            Some(attachments_of(message.content))
        } else {
            None
        },
        content_type: "text/markdown"@,
    }
}

/// Converts a message into the form that Poe expects, under another role where
/// one is given.
pub fn openai_message_to_poe(msg: &Message, role_override: Option<String>) -> (r: ChatMessage)
    ensures
        r@ == poe_message(
            msg@,
            match role_override {
                Some(role) => role@,
                None => msg.role@,
            },
        ),
{
    let mut attachments: Vec<Attachment> = Vec::new();
    let mut texts: Vec<String> = Vec::new();
    match &msg.content {
        OpenAiContent::Text(s) => {
            texts.push(s.clone());
            assert(views(texts@) =~= seq![s@]);
            assert(views(attachments@) =~= Seq::<AttachmentView>::empty());
        },
        OpenAiContent::Multi(items) => {
            let mut i: usize = 0;
            assert(views(texts@) =~= Seq::<Seq<char>>::empty());
            assert(views(attachments@) =~= Seq::<AttachmentView>::empty());
            while i < items.len()
                invariant
                    i <= items.len(),
                    views(texts@) == item_texts(views(items@).take(i as int)),
                    views(attachments@) == item_attachments(views(items@).take(i as int)),
                decreases items.len() - i,
            {
                let ghost next = views(items@).take(i + 1);
                let ghost texts_before = views(texts@);
                let ghost attachments_before = views(attachments@);
                assert(next.drop_last() =~= views(items@).take(i as int));
                assert(next.last() == items@[i as int]@);
                match &items[i] {
                    OpenAiContentItem::Text { text } => {
                        texts.push(text.clone());
                        assert(views(texts@) =~= texts_before.push(text@));
                    },
                    OpenAiContentItem::ImageUrl { image_url } => {
                        let attachment = Attachment {
                            url: image_url.url.clone(),
                            content_type: None,
                        };
                        attachments.push(attachment);
                        assert(views(attachments@) =~= attachments_before.push(attachment@));
                    },
                }
                i += 1;
            }
            assert(views(items@).take(i as int) =~= views(items@));
        },
    }
    let role = match role_override {
        Some(role) => role,
        None => msg.role.clone(),
    };
    ChatMessage {
        role,
        content: join(&texts, "\n"),
        attachments: if attachments.len() > 0 {
            Some(attachments)
        } else {
            None
        },
        content_type: "text/markdown".to_owned(),
    }
}

/// The identifier that stands between the first two quotes after the first
/// `tool_call_id` in a text.
pub open spec fn scanned_id(content: Seq<char>) -> Option<Seq<char>> {
    match first_index(content, "tool_call_id"@) {
        Some(i) => {
            let rest = content.skip(i);
            match first_index(rest, "\""@) {
                Some(j) => {
                    let tail = rest.skip(j + 1);
                    match first_index(tail, "\""@) {
                        Some(k) => Some(tail.take(k)),
                        None => None,
                    }
                },
                None => None,
            }
        },
        None => None,
    }
}

/// The call that a tool message answers, given the member `tool_call_id` where
/// the message is a JSON object with one.
pub open spec fn call_id_with(member: Option<Seq<char>>, content: Seq<char>) -> Option<Seq<char>> {
    match member {
        Some(id) => Some(id),
        None => scanned_id(content),
    }
}

/// The call that a tool message answers.
pub open spec fn call_id(content: Seq<char>) -> Option<Seq<char>> {
    call_id_with(json_string_member(content, "tool_call_id"@), content)
}

/// Finds the identifier between the first two quotes after the first
/// `tool_call_id` in a text.
pub fn scan_tool_call_id(content: &str) -> (r: Option<String>)
    ensures
        opt_view(r) == scanned_id(content@),
{
    let cs = chars_of(content);
    let key = chars_of("tool_call_id");
    let quote = chars_of("\"");
    proof {
        reveal_strlit("\"");
        assert(cs@.skip(0) =~= cs@);
    }
    if let Some(start) = find_from(&cs, &key, 0) {
        if let Some(open) = find_from(&cs, &quote, start) {
            assert(cs@.skip(start as int).skip(open - start + 1) =~= cs@.skip(open + 1));
            if let Some(close) = find_from(&cs, &quote, open + 1) {
                assert(cs@.skip(open + 1).take(close - (open + 1)) =~= cs@.subrange(
                    open + 1,
                    close as int,
                ));
                return Some(string_of(&cs, open + 1, close));
            }
        }
    }
    None
}

/// The call that a tool message answers, given the member `tool_call_id` where
/// the message is a JSON object with one.
pub fn tool_call_id_with(member: Option<String>, content: &str) -> (r: Option<String>)
    ensures
        opt_view(r) == call_id_with(opt_view(member), content@),
{
    match member {
        Some(id) => Some(id),
        None => scan_tool_call_id(content),
    }
}

/// The call that a tool message answers.
pub fn extract_tool_call_id(content: &str) -> (r: Option<String>)
    ensures
        opt_view(r) == call_id(content@),
{
    let member = json_member(content, "tool_call_id");
    tool_call_id_with(member, content)
}

/// The role under which a message goes to Poe.
pub open spec fn poe_role(role: Seq<char>, replace_response: bool) -> Seq<char> {
    if role == "assistant"@ {
        "bot"@
    } else if role == "developer"@ || (role == "system"@ && replace_response) {
        "user"@
    } else {
        role
    }
}

/// Whether system messages go to a model as user messages.
pub open spec fn replaces_response(config: ConfigView, model: Seq<char>) -> bool {
    configured(config.models, model) matches Some(c) && c.replace_response == Some(true)
}

/// The messages in the form that Poe expects.
pub open spec fn poe_query(messages: Seq<MessageView>, replace_response: bool) -> Seq<
    ChatMessageView,
> {
    Seq::new(
        messages.len(),
        |i: int| poe_message(messages[i], poe_role(messages[i].role, replace_response)),
    )
}

/// The results of tool calls among messages: those tool messages of which it
/// is known what call they answer.
pub open spec fn tool_results_of(messages: Seq<MessageView>) -> Seq<ChatToolResultView>
    decreases messages.len(),
{
    if messages.len() == 0 {
        Seq::empty()
    } else {
        let before = tool_results_of(messages.drop_last());
        let text = content_text(messages.last().content);
        if messages.last().role == "tool"@ {
            match call_id(text) {
                Some(id) => before.push(
                    ChatToolResultView {
                        role: "tool"@,
                        tool_call_id: id,
                        name: "unknown"@,
                        content: text,
                    },
                ),
                None => before,
            }
        } else {
            before
        }
    }
}

/// Converts the messages into the form that Poe expects.
fn convert_messages(messages: &Vec<Message>, replace_response: bool) -> (query: Vec<ChatMessage>)
    ensures
        views(query@) == poe_query(views(messages@), replace_response),
{
    let ghost all = views(messages@);
    let mut query: Vec<ChatMessage> = Vec::new();
    let mut i: usize = 0;
    while i < messages.len()
        invariant
            i <= messages.len(),
            all == views(messages@),
            query.len() == i,
            forall|j: int|
                0 <= j < i ==> (#[trigger] query@[j])@ == poe_message(
                    all[j],
                    poe_role(all[j].role, replace_response),
                ),
        decreases messages.len() - i,
    {
        let role = &messages[i].role;
        let role_override = if same_text(role, "assistant") {
            Some("bot".to_owned())
        } else if same_text(role, "developer") || (same_text(role, "system") && replace_response) {
            Some("user".to_owned())
        } else {
            None
        };
        let message = openai_message_to_poe(&messages[i], role_override);
        query.push(message);
        i += 1;
    }
    assert(views(query@) =~= poe_query(all, replace_response));
    query
}

/// Collects the results of tool calls.
fn collect_tool_results(messages: &Vec<Message>) -> (results: Vec<ChatToolResult>)
    ensures
        views(results@) == tool_results_of(views(messages@)),
{
    let ghost all = views(messages@);
    let mut results: Vec<ChatToolResult> = Vec::new();
    let mut i: usize = 0;
    assert(views(results@) =~= Seq::<ChatToolResultView>::empty());
    while i < messages.len()
        invariant
            i <= messages.len(),
            all == views(messages@),
            views(results@) == tool_results_of(all.take(i as int)),
        decreases messages.len() - i,
    {
        let ghost next = all.take(i + 1);
        let ghost before = views(results@);
        assert(next.drop_last() =~= all.take(i as int));
        assert(next.last() == messages@[i as int]@);
        if same_text(&messages[i].role, "tool") {
            let content = get_text_from_openai_content(&messages[i].content);
            if let Some(tool_call_id) = extract_tool_call_id(&content) {
                let result = ChatToolResult {
                    role: "tool".to_owned(),
                    tool_call_id,
                    name: "unknown".to_owned(),
                    content,
                };
                results.push(result);
                assert(views(results@) =~= before.push(result@));
            }
        }
        i += 1;
    }
    assert(all.take(i as int) =~= all);
    results
}

/// Makes the request to a bot.
pub fn create_chat_request<F, T, B>(
    config: &Config,
    model: &str,
    messages: &Vec<Message>,
    temperature: Option<F>,
    tools: Option<Vec<T>>,
    logit_bias: Option<B>,
    stop: Option<Vec<String>>,
) -> (r: ChatRequest<F, T, B>)
    ensures
        r.version@ == "1.1"@,
        r.kind@ == "query"@,
        views(r.query@) == poe_query(views(messages@), replaces_response(config@, model@)),
        r.temperature == temperature,
        r.user_id@ == ""@,
        r.conversation_id@ == ""@,
        r.message_id@ == ""@,
        r.tools == tools,
        r.tool_calls is None,
        opt_views(r.tool_results) == (if tool_results_of(views(messages@)).len() > 0 {
            Some(tool_results_of(views(messages@)))
        } else {
            None
        }),
        r.logit_bias == logit_bias,
        r.stop_sequences == stop,
{
    let replace_response = match find_model(&config.models, model) {
        Some(c) => c.replace_response.unwrap_or(false),
        None => false,
    };
    let query = convert_messages(messages, replace_response);
    let results = collect_tool_results(messages);
    ChatRequest {
        version: "1.1".to_owned(),
        kind: "query".to_owned(),
        query,
        temperature,
        user_id: "".to_owned(),
        conversation_id: "".to_owned(),
        message_id: "".to_owned(),
        tools,
        tool_calls: None,
        tool_results: if results.len() > 0 {
            Some(results)
        } else {
            None
        },
        logit_bias,
        stop_sequences: stop,
    }
}

/// No message goes to Poe under a role that only OpenAI knows.
pub proof fn poe_knows_every_role(messages: Seq<MessageView>, replace_response: bool, i: int)
    requires
        0 <= i < messages.len(),
    ensures
        poe_query(messages, replace_response)[i].role != "assistant"@,
        poe_query(messages, replace_response)[i].role != "developer"@,
        replace_response ==> poe_query(messages, replace_response)[i].role != "system"@,
{
    reveal_strlit("assistant");
    reveal_strlit("developer");
    reveal_strlit("system");
    reveal_strlit("bot");
    reveal_strlit("user");
    assert("bot"@.len() == 3 && "user"@.len() == 4 && "system"@.len() == 6);
    assert("assistant"@.len() == 9 && "developer"@.len() == 9);
    assert("assistant"@[0] != "developer"@[0]);
}

/// Every image of a message goes along, and nothing else is attached.
pub proof fn images_become_attachments(items: Seq<ItemView>, url: Seq<char>)
    ensures
        items.contains(ItemView::ImageUrl(url)) <==> item_attachments(items).contains(
            AttachmentView { url, content_type: None },
        ),
    decreases items.len(),
{
    let target = AttachmentView { url, content_type: None };
    if items.len() > 0 {
        let before = items.drop_last();
        let known = item_attachments(before);
        images_become_attachments(before, url);
        assert(items =~= before.push(items.last()));
        if items.contains(ItemView::ImageUrl(url)) {
            let i = choose|i: int| 0 <= i < items.len() && items[i] == ItemView::ImageUrl(url);
            if i < before.len() {
                assert(before[i] == ItemView::ImageUrl(url));
                assert(known.contains(target));
                let k = choose|k: int| 0 <= k < known.len() && known[k] == target;
                assert(item_attachments(items)[k] == target);
            } else {
                assert(item_attachments(items).last() == target);
            }
        }
        if item_attachments(items).contains(target) {
            let k = choose|k: int|
                0 <= k < item_attachments(items).len() && item_attachments(items)[k] == target;
            if k < known.len() {
                assert(known[k] == target);
                assert(before.contains(ItemView::ImageUrl(url)));
                let i = choose|i: int| 0 <= i < before.len() && before[i] == ItemView::ImageUrl(url);
                assert(items[i] == ItemView::ImageUrl(url));
            } else {
                assert(items[items.len() - 1] == ItemView::ImageUrl(url));
            }
        }
    }
}

} // verus!
