//! What a conversation becomes on its way to Poe, told by its own messages and
//! parts.
use crate::answer_laws::counts_as;
use crate::chat::{
    carries, prepared_with, AcceptedRequest, ChatCompletionRequest, PreparedChat,
};
use crate::config::configured;
use crate::content::{
    content_text, flattened, flattened_texts, plain_texts_stay, unescaped, unquoted,
};
use crate::external::{hex_digit, json_string_member, o200k_encoding};
use crate::poe_client::{
    call_id, item_attachments, item_texts, poe_message, poe_query, replaces_response,
    tool_results_of, ChatRequest,
};
use crate::text::{first_index, joined, replaced, views};
use crate::text_laws::{
    each_ended, first_occurrence_is_first, joining_concatenates, reads_at, stands_in,
};
use crate::tokens::{countable, message_total, text_counts, token_count, token_sum};
use crate::types::{
    AttachmentView, ChatMessageView, ConfigView, ContentView, ItemView, MessageView,
    ModelEntryView,
};
use vstd::prelude::*;

verus! {

/// The parts that are texts.
pub open spec fn texts_among(items: Seq<ItemView>) -> Seq<ItemView> {
    items.filter(|item: ItemView| item is Text)
}

/// The parts that are images.
pub open spec fn images_among(items: Seq<ItemView>) -> Seq<ItemView> {
    items.filter(|item: ItemView| item is ImageUrl)
}

/// The texts of text parts, each on a line of its own.
pub open spec fn as_lines(parts: Seq<ItemView>) -> Seq<char> {
    parts.map_values(|part: ItemView| part->Text_0 + "\n"@).flatten()
}

/// The texts of text parts as they are counted, each on a line of its own.
pub open spec fn as_counted_lines(parts: Seq<ItemView>) -> Seq<char> {
    parts.map_values(|part: ItemView| flattened(part->Text_0) + "\n"@).flatten()
}

/// The attachments of a message, none counting as an empty list.
pub open spec fn attached(message: ChatMessageView) -> Seq<AttachmentView> {
    if message.attachments is Some {
        message.attachments->0
    } else {
        Seq::empty()
    }
}

/// One more part: the texts and the images among parts.
proof fn lemma_one_more_part(items: Seq<ItemView>)
    requires
        items.len() > 0,
    ensures
        texts_among(items) == (if items.last() is Text {
            texts_among(items.drop_last()).push(items.last())
        } else {
            texts_among(items.drop_last())
        }),
        images_among(items) == (if items.last() is ImageUrl {
            images_among(items.drop_last()).push(items.last())
        } else {
            images_among(items.drop_last())
        }),
{
    reveal(Seq::filter);
}

/// The attachments are the images, and the texts the text parts.
proof fn lemma_parts(items: Seq<ItemView>)
    ensures
        item_attachments(items).len() == images_among(items).len(),
        forall|k: int|
            0 <= k < images_among(items).len() ==> (#[trigger] item_attachments(items)[k]) == (
            AttachmentView { url: images_among(items)[k]->ImageUrl_0, content_type: None }),
        item_texts(items) == texts_among(items).map_values(|part: ItemView| part->Text_0),
        flattened_texts(items) == texts_among(items).map_values(
            |part: ItemView| flattened(part->Text_0),
        ),
    decreases items.len(),
{
    if items.len() == 0 {
        reveal(Seq::filter);
        assert(item_texts(items) =~= texts_among(items).map_values(|part: ItemView| part->Text_0));
        assert(flattened_texts(items) =~= texts_among(items).map_values(
            |part: ItemView| flattened(part->Text_0),
        ));
    } else {
        let before = items.drop_last();
        lemma_parts(before);
        lemma_one_more_part(items);
        assert(item_texts(items) =~= texts_among(items).map_values(|part: ItemView| part->Text_0));
        assert(flattened_texts(items) =~= texts_among(items).map_values(
            |part: ItemView| flattened(part->Text_0),
        ));
    }
}

/// A message for Poe holds a content whole. Its text is the text of the content,
/// or those of the text parts line by line, and its attachments are the images:
/// as many, in the same order, each with its address.
pub open spec fn holds_whole(m: ChatMessageView, content: ContentView) -> bool {
    &&& m.content_type == "text/markdown"@
    &&& match content {
        ContentView::Text(text) => m.content == text && m.attachments is None,
        ContentView::Multi(items) => {
            let texts = texts_among(items);
            let images = images_among(items);
            &&& texts.len() == 0 ==> m.content.len() == 0
            &&& texts.len() > 0 ==> m.content + "\n"@ == as_lines(texts)
            &&& m.attachments is Some <==> images.len() > 0
            &&& attached(m).len() == images.len()
            &&& forall|k: int|
                0 <= k < images.len() ==> (#[trigger] attached(m)[k]).url == images[k]->ImageUrl_0
                    && attached(m)[k].content_type is None
        },
    }
}

/// A message is converted whole, under the role that it is given.
pub proof fn messages_are_converted_whole(message: MessageView, role: Seq<char>)
    ensures
        poe_message(message, role).role == role,
        holds_whole(poe_message(message, role), message.content),
{
    match message.content {
        ContentView::Text(text) => {
            assert(joined(seq![text], "\n"@) == text);
        },
        ContentView::Multi(items) => {
            lemma_parts(items);
            let texts = item_texts(items);
            joining_concatenates(texts, "\n"@);
            assert(each_ended(texts, "\n"@) =~= texts_among(items).map_values(
                |part: ItemView| part->Text_0 + "\n"@,
            ));
        },
    }
}

/// Every message goes to Poe, in order and whole, under its role or the one that
/// Poe has for it.
pub proof fn messages_travel_whole(
    messages: Seq<MessageView>,
    replace_response: bool,
    i: int,
)
    requires
        0 <= i < messages.len(),
    ensures
        poe_query(messages, replace_response).len() == messages.len(),
        ({
            let role = messages[i].role;
            let m = poe_query(messages, replace_response)[i];
            &&& holds_whole(m, messages[i].content)
            &&& role == "assistant"@ ==> m.role == "bot"@
            &&& role == "developer"@ ==> m.role == "user"@
            &&& role == "system"@ ==> m.role == (if replace_response {
                "user"@
            } else {
                "system"@
            })
            &&& role != "assistant"@ && role != "developer"@ && role != "system"@ ==> m.role == role
        }),
{
    reveal_strlit("assistant");
    reveal_strlit("developer");
    reveal_strlit("system");
    reveal_strlit("user");
    reveal_strlit("bot");
    assert("developer"@[0] == 'd' && "assistant"@[0] == 'a');
    messages_are_converted_whole(messages[i], poe_query(messages, replace_response)[i].role);
}

/// A text is what is counted of a content: the text itself, or the texts of the
/// text parts line by line.
pub open spec fn is_counted_text(content: ContentView, text: Seq<char>) -> bool {
    match content {
        ContentView::Text(s) => text == s,
        ContentView::Multi(items) => if texts_among(items).len() == 0 {
            text.len() == 0
        } else {
            text + "\n"@ == as_counted_lines(texts_among(items))
        },
    }
}

/// Every content has one counted text, which is what its text is taken for.
pub proof fn contents_have_one_text(content: ContentView, text: Seq<char>)
    ensures
        is_counted_text(content, content_text(content)),
        is_counted_text(content, text) ==> text == content_text(content),
{
    if let ContentView::Multi(items) = content {
        lemma_parts(items);
        let texts = flattened_texts(items);
        joining_concatenates(texts, "\n"@);
        assert(each_ended(texts, "\n"@) =~= texts_among(items).map_values(
            |part: ItemView| flattened(part->Text_0) + "\n"@,
        ));
        if is_counted_text(content, text) {
            let got = content_text(content);
            if texts_among(items).len() == 0 {
                assert(text =~= got);
            } else {
                assert(text + "\n"@ == got + "\n"@);
                assert((text + "\n"@).take(text.len() as int) =~= text);
                assert((text + "\n"@).len() == (got + "\n"@).len());
                assert((got + "\n"@).take(got.len() as int) =~= got);
            }
        }
    }
}

/// A single text part without backslashes and control characters has the text
/// that it has as a plain content.
pub proof fn one_part_is_its_text(text: Seq<char>)
    requires
        forall|i: int| 0 <= i < text.len() ==> unescaped(#[trigger] text[i]),
    ensures
        content_text(ContentView::Multi(seq![ItemView::Text(text)])) == text,
        content_text(ContentView::Text(text)) == text,
{
    let items = seq![ItemView::Text(text)];
    plain_texts_stay(text);
    assert(items.drop_last() =~= Seq::<ItemView>::empty());
    assert(flattened_texts(items.drop_last()) =~= Seq::<Seq<char>>::empty());
    assert(flattened_texts(items) =~= seq![text]);
}

/// Counting goes message by message: none count two, and each message adds four
/// and the tokens of its text, of a content of parts as of a plain text.
pub proof fn every_message_counts(
    messages: Seq<MessageView>,
    m: MessageView,
    text: Seq<char>,
    n: u32,
)
    requires
        is_counted_text(m.content, text),
        counts_as(text, n),
    ensures
        message_total(text_counts(Seq::<MessageView>::empty())) == 2,
        message_total(text_counts(messages.push(m))) == message_total(text_counts(messages)) + 4
            + n,
        countable(messages.push(m)) <==> countable(messages),
{
    contents_have_one_text(m.content, text);
    let all = messages.push(m);
    let counts = text_counts(all);
    assert(text_counts(Seq::<MessageView>::empty()) =~= Seq::<u32>::empty());
    assert(token_sum(Seq::<u32>::empty()) == 0);
    assert(counts.drop_last() =~= text_counts(messages));
    assert(token_count(text) == Some(n));
    assert(counts.last() == n);
    assert(token_sum(counts) == token_sum(counts.drop_last()) + n);
    assert(all[messages.len() as int] == m);
    if countable(all) {
        assert forall|i: int| 0 <= i < messages.len() implies token_count(
            content_text((#[trigger] messages[i]).content),
        ) is Some by {
            assert(all[i] == messages[i]);
        }
    }
    if countable(messages) {
        assert forall|i: int| 0 <= i < all.len() implies token_count(
            content_text((#[trigger] all[i]).content),
        ) is Some by {
            if i < messages.len() {
                assert(all[i] == messages[i]);
            }
        }
    }
}

/// Messages can be counted where the encoder copes with each of their texts.
pub proof fn every_text_must_be_countable(messages: Seq<MessageView>)
    ensures
        countable(messages) <==> forall|i: int, text: Seq<char>|
            #![trigger is_counted_text(messages[i].content, text)]
            0 <= i < messages.len() && is_counted_text(messages[i].content, text)
                ==> o200k_encoding(text) != Some(None::<Seq<u32>>),
{
    assert forall|i: int, text: Seq<char>|
        #![trigger is_counted_text(messages[i].content, text)]
        0 <= i < messages.len() implies (is_counted_text(messages[i].content, text) <==> text
        == content_text(messages[i].content)) by {
        contents_have_one_text(messages[i].content, text);
    }
    if !countable(messages) {
        let i = choose|i: int|
            0 <= i < messages.len() && token_count(content_text((#[trigger] messages[i]).content))
                is None;
        assert(is_counted_text(messages[i].content, content_text(messages[i].content)));
    } else {
        assert forall|i: int, text: Seq<char>|
            #![trigger is_counted_text(messages[i].content, text)]
            0 <= i < messages.len() && is_counted_text(
                messages[i].content,
                text,
            ) implies o200k_encoding(text) != Some(None::<Seq<u32>>) by {
            assert(token_count(content_text(messages[i].content)) is Some);
        }
    }
}

/// A message with a single text part without backslashes and control characters
/// counts as much as the same message with that text as its content.
pub proof fn one_part_counts_as_its_text(
    messages: Seq<MessageView>,
    role: Seq<char>,
    text: Seq<char>,
)
    requires
        forall|i: int| 0 <= i < text.len() ==> unescaped(#[trigger] text[i]),
    ensures
        ({
            let part = MessageView {
                role,
                content: ContentView::Multi(seq![ItemView::Text(text)]),
            };
            let whole = MessageView { role, content: ContentView::Text(text) };
            &&& text_counts(messages.push(part)) == text_counts(messages.push(whole))
            &&& countable(messages.push(part)) <==> countable(messages.push(whole))
        }),
{
    one_part_is_its_text(text);
    let part = MessageView { role, content: ContentView::Multi(seq![ItemView::Text(text)]) };
    let whole = MessageView { role, content: ContentView::Text(text) };
    let a = messages.push(part);
    let b = messages.push(whole);
    assert forall|i: int| 0 <= i < a.len() implies content_text((#[trigger] a[i]).content)
        == content_text(b[i].content) by {}
    assert(text_counts(a) =~= text_counts(b));
    if countable(a) {
        assert forall|i: int| 0 <= i < b.len() implies token_count(
            content_text((#[trigger] b[i]).content),
        ) is Some by {
            assert(token_count(content_text(a[i].content)) is Some);
        }
    }
}

/// Quotes stay, backslashes and control characters are escaped, and any other
/// character stands for itself: how a text part is counted goes character by
/// character.
pub proof fn counting_escapes_by_character(a: Seq<char>, b: Seq<char>, c: char)
    ensures
        flattened(a + b) == flattened(a) + flattened(b),
        c == '"' ==> flattened(seq![c]) == seq!['"'],
        c == '\\' ==> flattened(seq![c]) == seq!['\\', '\\'],
        c == '\n' ==> flattened(seq![c]) == seq!['\\', 'n'],
        c == '\t' ==> flattened(seq![c]) == seq!['\\', 't'],
        c == '\r' ==> flattened(seq![c]) == seq!['\\', 'r'],
        c == '\u{8}' ==> flattened(seq![c]) == seq!['\\', 'b'],
        c == '\u{c}' ==> flattened(seq![c]) == seq!['\\', 'f'],
        (c as nat) < 32 && c != '\n' && c != '\t' && c != '\r' && c != '\u{8}' && c != '\u{c}'
            ==> flattened(seq![c]) == seq![
            '\\',
            'u',
            '0',
            '0',
            hex_digit(c as nat / 16),
            hex_digit(c as nat % 16),
        ],
        c != '\\' && (c as nat) >= 32 ==> flattened(seq![c]) == seq![c],
    decreases b.len(),
{
    let one = seq![c];
    assert(one.drop_last() =~= Seq::<char>::empty());
    assert(flattened(one.drop_last()) =~= Seq::<char>::empty());
    assert(flattened(one) =~= crate::content::flat(c));
    if b.len() == 0 {
        assert(a + b =~= a);
        assert(flattened(a) + flattened(b) =~= flattened(a));
    } else {
        counting_escapes_by_character(a, b.drop_last(), c);
        assert((a + b).drop_last() =~= a + b.drop_last());
        assert(flattened(a) + (flattened(b.drop_last()) + crate::content::flat(b.last()))
            =~= flattened(a) + flattened(b.drop_last()) + crate::content::flat(b.last()));
    }
}

/// The tool messages of which it is known what call they answer.
pub open spec fn answering(messages: Seq<MessageView>) -> Seq<MessageView> {
    messages.filter(
        |m: MessageView| m.role == "tool"@ && call_id(content_text(m.content)) is Some,
    )
}

/// Every tool message of which it is known what call it answers gives one
/// result, in order, with its whole text.
pub proof fn tool_messages_give_results(messages: Seq<MessageView>)
    ensures
        tool_results_of(messages).len() == answering(messages).len(),
        forall|k: int|
            0 <= k < answering(messages).len() ==> ({
                let r = #[trigger] tool_results_of(messages)[k];
                let m = answering(messages)[k];
                &&& r.role == "tool"@
                &&& r.name == "unknown"@
                &&& is_counted_text(m.content, r.content)
                &&& call_id(r.content) == Some(r.tool_call_id)
            }),
    decreases messages.len(),
{
    reveal(Seq::filter);
    if messages.len() > 0 {
        let before = messages.drop_last();
        tool_messages_give_results(before);
        contents_have_one_text(messages.last().content, Seq::empty());
        assert forall|k: int| 0 <= k < answering(messages).len() implies ({
            let r = #[trigger] tool_results_of(messages)[k];
            let m = answering(messages)[k];
            &&& r.role == "tool"@
            &&& r.name == "unknown"@
            &&& is_counted_text(m.content, r.content)
            &&& call_id(r.content) == Some(r.tool_call_id)
        }) by {
            if k < answering(before).len() {
                assert(tool_results_of(messages)[k] == tool_results_of(before)[k]);
                assert(answering(messages)[k] == answering(before)[k]);
            }
        }
    }
}

/// Where a text stands and stands nowhere before is its first occurrence.
proof fn lemma_first(s: Seq<char>, p: Seq<char>, n: int)
    requires
        reads_at(s, p, n),
        forall|j: int| 0 <= j < n ==> !#[trigger] reads_at(s, p, j),
    ensures
        first_index(s, p) == Some(n),
{
    first_occurrence_is_first(s, p);
}

/// The place of the first quote in a text.
proof fn lemma_first_quote(before: Seq<char>, after: Seq<char>)
    requires
        !before.contains('"'),
    ensures
        first_index(before + seq!['"'] + after, "\""@) == Some(before.len() as int),
{
    reveal_strlit("\"");
    let s = before + seq!['"'] + after;
    let n = before.len() as int;
    assert(s[n + 0] == '"');
    assert(reads_at(s, "\""@, n));
    assert forall|j: int| 0 <= j < n implies !#[trigger] reads_at(s, "\""@, j) by {
        if reads_at(s, "\""@, j) {
            assert(s[j + 0] == "\""@[0]);
            assert(before[j] == '"');
        }
    }
    lemma_first(s, "\""@, n);
}

/// The call that a tool message answers stands under `tool_call_id` in its
/// JSON object. Where the message is none, it is what stands between the next
/// two quotes after the first `tool_call_id`.
pub proof fn call_ids_stand_between_quotes(
    a: Seq<char>,
    b: Seq<char>,
    id: Seq<char>,
    rest: Seq<char>,
)
    requires
        !b.contains('"'),
        !id.contains('"'),
        forall|i: int|
            0 <= i < a.len() ==> !#[trigger] reads_at(
                a + "tool_call_id"@ + b + seq!['"'] + id + seq!['"'] + rest,
                "tool_call_id"@,
                i,
            ),
    ensures
        ({
            let content = a + "tool_call_id"@ + b + seq!['"'] + id + seq!['"'] + rest;
            json_string_member(content, "tool_call_id"@) is None ==> call_id(content) == Some(id)
        }),
{
    let key = "tool_call_id"@;
    reveal_strlit("tool_call_id");
    let content = a + key + b + seq!['"'] + id + seq!['"'] + rest;
    let n = a.len() as int;
    assert forall|k: int| 0 <= k < key.len() implies content[n + k] == #[trigger] key[k] by {}
    assert(reads_at(content, key, n));
    lemma_first(content, key, n);
    let tail = id + seq!['"'] + rest;
    let before = key + b;
    assert(content.skip(n) =~= before + seq!['"'] + tail);
    assert forall|k: int| 0 <= k < before.len() implies before[k] != '"' by {
        if k < key.len() {
            assert(before[k] == key[k]);
        } else {
            assert(before[k] == b[k - key.len()]);
        }
    }
    lemma_first_quote(before, tail);
    assert(content.skip(n).skip(before.len() as int + 1) =~= tail);
    lemma_first_quote(id, rest);
    assert(tail.take(id.len() as int) =~= id);
}

/// The call that a tool message answers is never made up: it is the member of
/// its JSON object, or stands between two quotes of a message that has a
/// `tool_call_id`.
pub proof fn call_ids_are_not_made_up(content: Seq<char>)
    ensures
        json_string_member(content, "tool_call_id"@) is Some ==> call_id(content)
            == json_string_member(content, "tool_call_id"@),
        json_string_member(content, "tool_call_id"@) is None && call_id(content) is Some ==> {
            &&& stands_in(content, "tool_call_id"@)
            &&& !call_id(content)->0.contains('"')
            &&& stands_in(content, seq!['"'] + call_id(content)->0 + seq!['"'])
        },
{
    reveal_strlit("\"");
    if json_string_member(content, "tool_call_id"@) is None && call_id(content) is Some {
        let id = call_id(content)->0;
        first_occurrence_is_first(content, "tool_call_id"@);
        let i = first_index(content, "tool_call_id"@)->0;
        let rest = content.skip(i);
        first_occurrence_is_first(rest, "\""@);
        let j = first_index(rest, "\""@)->0;
        let tail = rest.skip(j + 1);
        first_occurrence_is_first(tail, "\""@);
        let k = first_index(tail, "\""@)->0;
        assert(rest[j + 0] == "\""@[0]);
        assert(tail[k + 0] == "\""@[0]);
        assert(id == tail.take(k));
        if id.contains('"') {
            let c = choose|c: int| 0 <= c < id.len() && id[c] == '"';
            assert(tail[c + 0] == '"');
            assert(reads_at(tail, "\""@, c));
        }
        let q = seq!['"'] + id + seq!['"'];
        assert forall|c: int| 0 <= c < q.len() implies content[i + j + c] == #[trigger] q[c] by {
            assert(rest[j + c] == content[i + j + c]);
            if c > 0 {
                assert(tail[c - 1] == rest[j + c]);
            }
        }
        assert(reads_at(content, q, i + j));
    }
}

/// What goes to Poe is what the client has asked for: the conversation and the
/// results of tool calls in it, and the temperature, the tools, the biases and
/// the stops as they came. System messages go as user messages exactly where
/// the table says so of the model.
pub proof fn requests_hold_what_was_asked<F, T, B>(
    sent: ChatRequest<F, T, B>,
    config: ConfigView,
    model: Seq<char>,
    messages: Seq<MessageView>,
    request: ChatCompletionRequest<F, T, B>,
)
    requires
        carries(sent, config, model, messages, request),
        config.wf(),
    ensures
        ({
            let replaced = exists|k: int|
                0 <= k < config.models.len() && (#[trigger] config.models[k]).name == model
                    && config.models[k].config.replace_response == Some(true);
            &&& sent.query@.len() == messages.len()
            &&& forall|i: int|
                0 <= i < messages.len() ==> (#[trigger] sent.query@[i])@ == poe_query(
                    messages,
                    replaced,
                )[i]
        }),
        sent.tool_results is None <==> answering(messages).len() == 0,
        sent.tool_results is Some ==> views(sent.tool_results->0@) == tool_results_of(messages),
        sent.tool_calls is None,
        sent.temperature == request.temperature,
        sent.tools == request.tools,
        sent.logit_bias == request.logit_bias,
        sent.stop_sequences == request.stop,
        sent.version@ == "1.1"@,
        sent.kind@ == "query"@,
        sent.user_id@.len() == 0 && sent.conversation_id@.len() == 0 && sent.message_id@.len() == 0,
{
    reveal_strlit("");
    let replaced = exists|k: int|
        0 <= k < config.models.len() && (#[trigger] config.models[k]).name == model
            && config.models[k].config.replace_response == Some(true);
    configuration_is_by_name(config.models, model);
    if replaced {
        let k = choose|k: int|
            0 <= k < config.models.len() && (#[trigger] config.models[k]).name == model
                && config.models[k].config.replace_response == Some(true);
    }
    assert(replaces_response(config, model) == replaced);
    tool_messages_give_results(messages);
    assert(views(sent.query@).len() == poe_query(messages, replaced).len());
    assert forall|i: int| 0 <= i < messages.len() implies (#[trigger] sent.query@[i])@ == poe_query(
        messages,
        replaced,
    )[i] by {
        assert(views(sent.query@)[i] == sent.query@[i]@);
    }
}

/// The answer is made for the model under the name that the client used, with
/// the count of the question; it is streamed, and its tokens are counted for the
/// client, exactly where the client says so.
pub proof fn answers_are_made_as_asked<F, T, B>(
    chat: PreparedChat<F, T, B>,
    config: ConfigView,
    accepted: AcceptedRequest<F, T, B>,
    messages: Seq<MessageView>,
    prompt_tokens: u32,
)
    requires
        prepared_with(chat, config, accepted, messages, prompt_tokens),
    ensures
        carries(chat.request, config, accepted.original_model@, messages, accepted.request),
        chat.generator@.model == accepted.display_model@,
        chat.generator@.prompt_tokens == prompt_tokens,
        chat.generator@.include_usage <==> accepted.request.stream_options is Some
            && accepted.request.stream_options->0.include_usage == Some(true),
        chat.stream <==> accepted.request.stream == Some(true),
{
}

/// The configuration under a name is that of the first entry of the name.
pub proof fn configuration_is_by_name(models: Seq<ModelEntryView>, name: Seq<char>)
    ensures
        match configured(models, name) {
            Some(c) => exists|k: int|
                0 <= k < models.len() && (#[trigger] models[k]).name == name && models[k].config
                    == c && forall|j: int| 0 <= j < k ==> (#[trigger] models[j]).name != name,
            None => forall|k: int| 0 <= k < models.len() ==> (#[trigger] models[k]).name != name,
        },
    decreases models.len(),
{
    if models.len() > 0 && models[0].name != name {
        let rest = models.skip(1);
        configuration_is_by_name(rest, name);
        match configured(rest, name) {
            Some(c) => {
                let k = choose|k: int|
                    0 <= k < rest.len() && (#[trigger] rest[k]).name == name && rest[k].config == c
                        && forall|j: int| 0 <= j < k ==> (#[trigger] rest[j]).name != name;
                assert(models[k + 1] == rest[k]);
                assert forall|j: int| 0 <= j < k + 1 implies (#[trigger] models[j]).name
                    != name by {
                    if j > 0 {
                        assert(models[j] == rest[j - 1]);
                    }
                }
            },
            None => {
                assert forall|k: int| 0 <= k < models.len() implies (#[trigger] models[k]).name
                    != name by {
                    if k > 0 {
                        assert(models[k] == rest[k - 1]);
                    }
                }
            },
        }
    }
}

/// Totals grow by four and the count for each message, from two on.
pub proof fn totals_grow_by_message(counts: Seq<u32>, n: u32)
    ensures
        message_total(Seq::<u32>::empty()) == 2,
        message_total(counts.push(n)) == message_total(counts) + 4 + n,
{
    assert(counts.push(n).drop_last() =~= counts);
    assert(token_sum(Seq::<u32>::empty()) == 0);
}

/// The quotes around a JSON string come off, one at each end, and its escaped
/// quotes are written plainly; a text without quotes at both ends keeps both.
pub proof fn quotes_come_off(body: Seq<char>)
    ensures
        unquoted(seq!['"'] + body + seq!['"']) == replaced(body, seq!['\\', '"'], seq!['"']),
        body.len() < 2 || body[0] != '"' || body.last() != '"' ==> unquoted(body) == replaced(
            body,
            seq!['\\', '"'],
            seq!['"'],
        ),
{
    reveal_strlit("\\\"");
    reveal_strlit("\"");
    assert("\\\""@ =~= seq!['\\', '"']);
    assert("\""@ =~= seq!['"']);
    let json = seq!['"'] + body + seq!['"'];
    assert(json.subrange(1, json.len() - 1) =~= body);
}

} // verus!
