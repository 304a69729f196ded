//! What each event does to an answer and to what the client gets of it, told by
//! the events' own data.
use crate::errors::converted;
use crate::evert::{after_event, ContextView};
use crate::external::o200k_encoding;
use crate::file_laws::{linked, no_reference_is_left, plain, references_become_links};
use crate::files::{
    distinct, lemma_place, lookup, lookup_after_insert, marker, mentions, place, with_links,
    FileRefView,
};
use crate::output::{
    answer_text, role_chunk, text_chunk, tool_chunk, usage_of, usage_with, whole_answer,
    GeneratorView,
};
use crate::stream::{
    ending, fresh_stream, non_stream_step, output_for, stream_step, PayloadView,
    StreamItemView, StreamStateView,
};
use crate::stream_laws::sent;
use crate::text::contains_text;
use crate::text_laws::{occurrence_is_by_character, reads_at, stands_in};
use crate::tokens::token_count;
use crate::types::{
    ChatCompletionResponseView, ChatEventType, ChatResponseView, ChatToolCallView, DataView,
    DeltaView, FileDataView, UsageView,
};
use vstd::prelude::*;

verus! {

/// An event with its data.
pub open spec fn event_of(event: ChatEventType, data: DataView) -> Option<StreamItemView> {
    Some(StreamItemView::Event(ChatResponseView { event, data: Some(data) }))
}

/// The text of an answer so far: the replacement where there is one, else the
/// texts that came in.
pub open spec fn text_so_far(c: ContextView) -> Seq<char> {
    if c.replace_buffer is Some {
        c.replace_buffer->0
    } else {
        c.content
    }
}

/// A replacement is there only while it can still grow.
pub open spec fn settled(c: ContextView) -> bool {
    c.replace_buffer is Some ==> c.is_replace_mode
}

/// A text refers to a file: its name stands there in square brackets.
pub open spec fn refers_to(text: Seq<char>, id: Seq<char>) -> bool {
    stands_in(text, seq!['['] + id + seq![']'])
}

/// A text refers to one of the files.
pub open spec fn refers_to_any(text: Seq<char>, refs: Seq<FileRefView>) -> bool {
    exists|k: int| 0 <= k < refs.len() && refers_to(text, (#[trigger] refs[k]).ref_id)
}

/// A message is a chunk of the answer `g` with the given contents and nothing
/// else.
pub open spec fn is_chunk(
    p: PayloadView,
    g: GeneratorView,
    delta: DeltaView,
    finish_reason: Option<Seq<char>>,
) -> bool {
    &&& p is Chunk
    &&& p->Chunk_0.id == "chatcmpl-"@ + g.id
    &&& p->Chunk_0.object == "chat.completion.chunk"@
    &&& p->Chunk_0.created == g.created
    &&& p->Chunk_0.model == g.model
    &&& p->Chunk_0.choices.len() == 1
    &&& p->Chunk_0.choices[0].index == 0
    &&& p->Chunk_0.choices[0].delta == delta
    &&& p->Chunk_0.choices[0].finish_reason == finish_reason
}

/// A message is the chunk that names the speaker.
pub open spec fn is_opening(p: PayloadView, g: GeneratorView) -> bool {
    is_chunk(
        p,
        g,
        DeltaView { role: Some("assistant"@), content: None, refusal: None, tool_calls: None },
        None,
    ) && p->Chunk_1 is None
}

/// A message is a chunk with the given text and no token counts.
pub open spec fn is_text(p: PayloadView, g: GeneratorView, text: Seq<char>) -> bool {
    is_chunk(
        p,
        g,
        DeltaView { role: None, content: Some(text), refusal: None, tool_calls: None },
        None,
    ) && p->Chunk_1 is None
}

/// The opening comes first where it did not go out before, and `rest` other
/// messages follow.
pub open spec fn opened(
    g: GeneratorView,
    c: ContextView,
    out: Seq<PayloadView>,
    rest: nat,
) -> bool {
    if c.role_chunk_sent {
        out.len() == rest
    } else {
        out.len() == rest + 1 && is_opening(out[0], g)
    }
}

/// Every text goes out at once, in one chunk, with every reference to a file
/// that came before replaced by its link, whether a replacement came before or
/// not. The first text after a replacement goes out together with it. Either
/// way the text of the answer grows by exactly this text.
pub proof fn texts_go_out_with_links(g: GeneratorView, s: StreamStateView, text: Seq<char>)
    requires
        !s.is_done,
        s.ctx.error is None,
    ensures
        ({
            let (after, step) = stream_step(
                g,
                s,
                event_of(ChatEventType::Text, DataView::Text(text)),
            );
            let first = s.ctx.is_replace_mode && !s.ctx.first_text_processed
                && s.ctx.replace_buffer is Some;
            let passed = if first {
                s.ctx.replace_buffer->0 + text
            } else {
                text
            };
            let refs = s.ctx.file_refs;
            let out = sent(step);
            &&& step is Output
            &&& opened(g, s.ctx, out, 1)
            &&& is_text(out.last(), g, with_links(passed, refs))
            &&& distinct(refs) && plain(refs) ==> is_text(out.last(), g, linked(passed, refs))
            &&& distinct(refs) && plain(refs) ==> forall|k: int|
                0 <= k < refs.len() ==> !refers_to(
                    out.last()->Chunk_0.choices[0].delta.content->0,
                    (#[trigger] refs[k]).ref_id,
                )
            &&& settled(s.ctx) ==> settled(after.ctx) && text_so_far(after.ctx) == text_so_far(
                s.ctx,
            ) + text
            &&& after.is_done == s.ctx.done
            &&& after.ctx.role_chunk_sent
            &&& after.ctx.file_refs == refs
            &&& after.ctx.tool_calls == s.ctx.tool_calls
            &&& after.ctx.error is None
            &&& after.ctx.done == s.ctx.done
            &&& after.ctx.image_urls_sent == s.ctx.image_urls_sent
            &&& after.ctx.is_replace_mode == (s.ctx.is_replace_mode && !s.ctx.first_text_processed)
            &&& s.ctx.is_replace_mode ==> after.ctx.first_text_processed == first
            &&& first ==> after.ctx.content == s.ctx.content
            &&& after.ctx.has_new_file_refs == s.ctx.has_new_file_refs
            &&& after.ctx.completion_tokens == s.ctx.completion_tokens
        }),
{
    let refs = s.ctx.file_refs;
    let passed = if s.ctx.is_replace_mode && !s.ctx.first_text_processed && s.ctx.replace_buffer
        is Some {
        s.ctx.replace_buffer->0 + text
    } else {
        text
    };
    if distinct(refs) && plain(refs) {
        references_become_links(passed, refs);
        no_reference_is_left(passed, refs);
    }
}

/// Mentioning files is referring to one of them.
proof fn lemma_mentions(text: Seq<char>, refs: Seq<FileRefView>)
    ensures
        mentions(text, refs) <==> refers_to_any(text, refs),
        mentions(text, refs) ==> contains_text(text, "["@),
{
    reveal_strlit("[");
    assert forall|k: int| 0 <= k < refs.len() implies contains_text(
        text,
        marker((#[trigger] refs[k]).ref_id),
    ) == refers_to(text, refs[k].ref_id) by {
        occurrence_is_by_character(text, marker(refs[k].ref_id));
    }
    if mentions(text, refs) {
        let k = choose|k: int|
            0 <= k < refs.len() && contains_text(text, marker((#[trigger] refs[k]).ref_id));
        let m = marker(refs[k].ref_id);
        assert(refers_to(text, refs[k].ref_id));
        let i = choose|i: int| #[trigger] reads_at(text, m, i);
        assert(text[i + 0] == m[0]);
        assert(reads_at(text, "["@, i));
        occurrence_is_by_character(text, "["@);
    }
    if refers_to_any(text, refs) {
        let k = choose|k: int| 0 <= k < refs.len() && refers_to(text, (#[trigger] refs[k]).ref_id);
        assert(contains_text(text, marker(refs[k].ref_id)));
    }
}

/// A replacement is the whole text of the answer from then on. It goes out at
/// once, with its links, where it refers to a file that came before, and else
/// waits.
pub proof fn replacements_take_over(g: GeneratorView, s: StreamStateView, text: Seq<char>)
    requires
        !s.is_done,
        s.ctx.error is None,
    ensures
        ({
            let (after, step) = stream_step(
                g,
                s,
                event_of(ChatEventType::ReplaceResponse, DataView::Text(text)),
            );
            let refs = s.ctx.file_refs;
            let out = sent(step);
            &&& step is Output
            &&& text_so_far(after.ctx) == text
            &&& settled(after.ctx)
            &&& !after.ctx.first_text_processed
            &&& refers_to_any(text, refs) ==> {
                &&& opened(g, s.ctx, out, 1)
                &&& is_text(out.last(), g, with_links(text, refs))
                &&& distinct(refs) && plain(refs) ==> is_text(out.last(), g, linked(text, refs))
                &&& distinct(refs) && plain(refs) ==> forall|k: int|
                    0 <= k < refs.len() ==> !refers_to(
                        out.last()->Chunk_0.choices[0].delta.content->0,
                        (#[trigger] refs[k]).ref_id,
                    )
                &&& after.ctx.image_urls_sent
            }
            &&& !refers_to_any(text, refs) ==> {
                &&& opened(g, s.ctx, out, 0)
                &&& after.ctx.image_urls_sent == s.ctx.image_urls_sent
            }
            &&& after.is_done == s.ctx.done
            &&& after.ctx.role_chunk_sent
            &&& after.ctx.is_replace_mode
            &&& after.ctx.content == s.ctx.content
            &&& after.ctx.has_new_file_refs == s.ctx.has_new_file_refs
            &&& after.ctx.completion_tokens == s.ctx.completion_tokens
            &&& after.ctx.file_refs == refs
            &&& after.ctx.tool_calls == s.ctx.tool_calls
            &&& after.ctx.error is None
            &&& after.ctx.done == s.ctx.done
        }),
{
    let refs = s.ctx.file_refs;
    lemma_mentions(text, refs);
    if distinct(refs) && plain(refs) {
        references_become_links(text, refs);
        no_reference_is_left(text, refs);
    }
}

/// A file is known under its name from then on, in place of an earlier one of
/// that name, and the others stay. A replacement that waits for it goes out,
/// once, with the link in place of every reference to it; else no text goes
/// out.
pub proof fn files_are_kept_and_linked(g: GeneratorView, s: StreamStateView, file: FileDataView)
    requires
        !s.is_done,
        s.ctx.error is None,
        distinct(s.ctx.file_refs),
    ensures
        ({
            let (after, step) = stream_step(
                g,
                s,
                event_of(ChatEventType::File, DataView::File(file)),
            );
            let entry = FileRefView { ref_id: file.inline_ref, file };
            let out = sent(step);
            let waits = s.ctx.replace_buffer is Some && !s.ctx.image_urls_sent && refers_to(
                s.ctx.replace_buffer->0,
                file.inline_ref,
            );
            &&& step is Output
            &&& distinct(after.ctx.file_refs)
            &&& after.ctx.file_refs.contains(entry)
            &&& forall|r: FileRefView|
                r.ref_id != file.inline_ref ==> (after.ctx.file_refs.contains(r)
                    <==> s.ctx.file_refs.contains(r))
            &&& waits ==> {
                &&& opened(g, s.ctx, out, 1)
                &&& is_text(out.last(), g, with_links(s.ctx.replace_buffer->0, seq![entry]))
                &&& plain(seq![entry]) ==> !refers_to(
                    out.last()->Chunk_0.choices[0].delta.content->0,
                    file.inline_ref,
                )
                &&& after.ctx.image_urls_sent
            }
            &&& !waits ==> {
                &&& opened(g, s.ctx, out, 0)
                &&& after.ctx.image_urls_sent == s.ctx.image_urls_sent
            }
            &&& after.ctx.content == s.ctx.content
            &&& after.ctx.replace_buffer == s.ctx.replace_buffer
            &&& after.ctx.has_new_file_refs
            &&& after.ctx.completion_tokens == s.ctx.completion_tokens
            &&& after.ctx.first_text_processed == s.ctx.first_text_processed
            &&& after.ctx.is_replace_mode == s.ctx.is_replace_mode
            &&& after.is_done == s.ctx.done
            &&& after.ctx.role_chunk_sent
            &&& after.ctx.tool_calls == s.ctx.tool_calls
            &&& after.ctx.error is None
            &&& after.ctx.done == s.ctx.done
        }),
{
    let refs = s.ctx.file_refs;
    let id = file.inline_ref;
    let entry = FileRefView { ref_id: id, file };
    let (after, step) = stream_step(g, s, event_of(ChatEventType::File, DataView::File(file)));
    let new = after.ctx.file_refs;
    lemma_place(refs, id);
    match place(refs, id) {
        Some(i) => {
            assert(new =~= refs.update(i, entry));
            assert(new[i] == entry);
            assert forall|r: FileRefView| r.ref_id != id implies (new.contains(r)
                <==> refs.contains(r)) by {
                if new.contains(r) {
                    let j = choose|j: int| 0 <= j < new.len() && new[j] == r;
                    assert(refs[j] == r);
                }
                if refs.contains(r) {
                    let j = choose|j: int| 0 <= j < refs.len() && refs[j] == r;
                    assert(new[j] == r);
                }
            }
        },
        None => {
            assert(new =~= refs.push(entry));
            assert(new[refs.len() as int] == entry);
            assert forall|r: FileRefView| r.ref_id != id implies (new.contains(r)
                <==> refs.contains(r)) by {
                if new.contains(r) {
                    let j = choose|j: int| 0 <= j < new.len() && new[j] == r;
                    assert(refs[j] == r);
                }
                if refs.contains(r) {
                    let j = choose|j: int| 0 <= j < refs.len() && refs[j] == r;
                    assert(new[j] == r);
                }
            }
        },
    }
    if let Some(b) = s.ctx.replace_buffer {
        occurrence_is_by_character(b, marker(id));
        let one = seq![entry];
        assert(one.drop_last() =~= Seq::empty());
        assert(one.last() == entry);
        reveal_with_fuel(with_links, 2);
        if plain(one) {
            no_reference_is_left(b, one);
            assert(one[0].ref_id == id);
        }
    }
}

/// Tool calls are added after those before, and all of them go out together in
/// one chunk, which says that the answer stops for them.
pub proof fn tool_calls_add_up(g: GeneratorView, s: StreamStateView, calls: Seq<ChatToolCallView>)
    requires
        !s.is_done,
        s.ctx.error is None,
    ensures
        ({
            let (after, step) = stream_step(
                g,
                s,
                event_of(ChatEventType::Json, DataView::ToolCalls(calls)),
            );
            let all = s.ctx.tool_calls + calls;
            let out = sent(step);
            &&& step is Output
            &&& after.ctx.tool_calls == all
            &&& all.len() > 0 ==> {
                &&& opened(g, s.ctx, out, 1)
                &&& is_chunk(
                    out.last(),
                    g,
                    DeltaView { role: None, content: None, refusal: None, tool_calls: Some(all) },
                    Some("tool_calls"@),
                )
                &&& out.last()->Chunk_1 is None
                &&& after.ctx == (ContextView {
                    tool_calls: all,
                    role_chunk_sent: true,
                    ..s.ctx
                })
            }
            &&& all.len() == 0 ==> out.len() == 0 && after.ctx == s.ctx
            &&& after.is_done == s.ctx.done
        }),
{
    if (s.ctx.tool_calls + calls).len() == 0 {
        assert(s.ctx.tool_calls + calls =~= s.ctx.tool_calls);
    }
}

/// A failure, of the bot or of the source of its events, ends the stream with
/// one message, which holds the description of the failure.
pub proof fn failures_end_the_stream(
    g: GeneratorView,
    s: StreamStateView,
    text: Seq<char>,
    retry: bool,
)
    requires
        !s.is_done,
    ensures
        ({
            let (after, step) = stream_step(
                g,
                s,
                event_of(ChatEventType::Error, DataView::Error(text, retry)),
            );
            let (broken, last) = stream_step(g, s, Some(StreamItemView::Failure(text)));
            &&& after.is_done && broken.is_done
            &&& sent(step).len() == 1 && sent(last) == sent(step)
            &&& sent(step)[0] is Failure
            &&& sent(step)[0]->Failure_0 == converted(text).1
            &&& sent(step)[0]->Failure_0.error.message == text
            &&& broken.ctx == s.ctx
        }),
        ({
            let (after, reply) = non_stream_step(
                g,
                s.ctx,
                event_of(ChatEventType::Error, DataView::Error(text, retry)),
            );
            let (broken, last) = non_stream_step(g, s.ctx, Some(StreamItemView::Failure(text)));
            &&& reply is Failed && reply == last
            &&& reply->Failed_0 == converted(text).0
            &&& reply->Failed_1 == converted(text).1
            &&& reply->Failed_1.error.message == text
            &&& after == (ContextView { error: Some(converted(text)), ..s.ctx })
            &&& broken == s.ctx
        }),
{
}

/// A stream that is done, and one whose source has ended, sends nothing more and
/// stays as it is.
pub proof fn ended_streams_stay_as_they_are(
    g: GeneratorView,
    s: StreamStateView,
    item: Option<StreamItemView>,
)
    requires
        s.is_done || item is None,
    ensures
        stream_step(g, s, item).0 == s,
        stream_step(g, s, item).1 is Ended,
{
}

/// The number of tokens that an answer of this text is said to have.
pub open spec fn counts_as(text: Seq<char>, n: u32) -> bool {
    match o200k_encoding(text) {
        None => n == 0,
        Some(None) => false,
        Some(Some(tokens)) => n == tokens.len() % 0x1_0000_0000,
    }
}

/// The end of a stream: a chunk with an empty text, the reason of the end, and
/// the token counts where the client wants them. The counts are those of the
/// question and of the text of the answer, and they add up. Nothing goes out
/// only where the answer cannot be counted.
pub proof fn ends_tell_reason_and_counts(
    g: GeneratorView,
    s: StreamStateView,
    data: Option<DataView>,
)
    requires
        !s.is_done,
        s.ctx.error is None,
    ensures
        ({
            let (after, step) = stream_step(
                g,
                s,
                Some(StreamItemView::Event(ChatResponseView { event: ChatEventType::Done, data })),
            );
            let out = sent(step);
            let p = out.last();
            &&& after.is_done
            &&& step is Uncountable <==> forall|n: u32|
                #[trigger] counts_as(text_so_far(s.ctx), n) ==> g.prompt_tokens + n > u32::MAX
            &&& step is Output || step is Uncountable
            &&& step is Output ==> {
                &&& opened(g, s.ctx, out, 1)
                &&& is_chunk(
                    p,
                    g,
                    DeltaView { role: None, content: Some(""@), refusal: None, tool_calls: None },
                    Some(
                        if s.ctx.tool_calls.len() > 0 {
                            "tool_calls"@
                        } else {
                            "stop"@
                        },
                    ),
                )
                &&& counts_as(text_so_far(s.ctx), after.ctx.completion_tokens)
                &&& p->Chunk_1 is Some <==> g.include_usage
                &&& g.include_usage ==> {
                    let u = p->Chunk_1->0;
                    &&& u.prompt_tokens == g.prompt_tokens
                    &&& counts_as(text_so_far(s.ctx), u.completion_tokens)
                    &&& u.total_tokens == u.prompt_tokens + u.completion_tokens
                    &&& u.cached_tokens == 0
                }
            }
        }),
{
    lemma_counted(s.ctx);
}

/// Counting an answer.
proof fn lemma_counted(c: ContextView)
    ensures
        forall|n: u32|
            #[trigger] counts_as(text_so_far(c), n) <==> token_count(
                answer_text(c),
            ) == Some(n),
        match token_count(answer_text(c)) {
            Some(n) => counts_as(text_so_far(c), n),
            None => forall|n: u32| !#[trigger] counts_as(text_so_far(c), n),
        },
{
}

/// An answer holds one choice, spoken by the assistant, whose content is the
/// text of the answer with every reference to a file replaced by its link, all
/// tool calls, and the reason of the end.
pub open spec fn is_whole(
    answer: ChatCompletionResponseView,
    g: GeneratorView,
    c: ContextView,
) -> bool {
    let text = text_so_far(c);
    let refs = c.file_refs;
    let choice = answer.choices[0];
    &&& answer.id == "chatcmpl-"@ + g.id
    &&& answer.object == "chat.completion"@
    &&& answer.created == g.created
    &&& answer.model == g.model
    &&& answer.choices.len() == 1
    &&& choice.index == 0
    &&& choice.logprobs is None
    &&& choice.message.role == "assistant"@
    &&& choice.message.content == with_links(text, refs)
    &&& distinct(refs) && plain(refs) ==> choice.message.content == linked(text, refs)
    &&& distinct(refs) && plain(refs) ==> forall|k: int|
        0 <= k < refs.len() ==> !refers_to(choice.message.content, (#[trigger] refs[k]).ref_id)
    &&& choice.message.refusal is None
    &&& c.tool_calls.len() > 0 ==> choice.message.tool_calls == Some(c.tool_calls)
        && choice.finish_reason == Some("tool_calls"@)
    &&& c.tool_calls.len() == 0 ==> choice.message.tool_calls is None && choice.finish_reason
        == Some("stop"@)
}

/// An answer as a whole, given the counts, is complete, and has the counts where
/// the client wants them.
pub proof fn answers_with_counts_are_complete(g: GeneratorView, c: ContextView, usage: UsageView)
    ensures
        is_whole(whole_answer(g, c, usage), g, c),
        whole_answer(g, c, usage).usage == (if g.include_usage {
            Some(usage)
        } else {
            None
        }),
{
    let refs = c.file_refs;
    if distinct(refs) && plain(refs) {
        references_become_links(text_so_far(c), refs);
        no_reference_is_left(text_so_far(c), refs);
    }
}

/// The answer as a whole: one choice, spoken by the assistant, whose content is
/// the text of the answer, replaced or not, with every reference to a file
/// replaced by its link. It has all tool calls, the reason of the end, and the
/// token counts where the client wants them.
pub proof fn whole_answers_are_complete(g: GeneratorView, c: ContextView, data: Option<DataView>)
    requires
        c.error is None,
    ensures
        ({
            let done = Some(
                StreamItemView::Event(ChatResponseView { event: ChatEventType::Done, data }),
            );
            let reply = non_stream_step(g, c, done).1;
            let text = text_so_far(c);
            let answer = reply->Reply_0;
            &&& non_stream_step(g, c, None).1 == reply
            &&& reply is Uncountable <==> forall|n: u32|
                #[trigger] counts_as(text, n) ==> g.prompt_tokens + n > u32::MAX
            &&& reply is Reply || reply is Uncountable
            &&& reply is Reply ==> {
                &&& is_whole(answer, g, c)
                &&& counts_as(text, non_stream_step(g, c, None).0.completion_tokens)
                &&& answer.usage is Some <==> g.include_usage
                &&& g.include_usage ==> {
                    let u = answer.usage->0;
                    &&& u.prompt_tokens == g.prompt_tokens
                    &&& counts_as(text, u.completion_tokens)
                    &&& u.total_tokens == u.prompt_tokens + u.completion_tokens
                    &&& u.cached_tokens == 0
                }
            }
        }),
{
    let refs = c.file_refs;
    lemma_counted(c);
    if distinct(refs) && plain(refs) {
        references_become_links(text_so_far(c), refs);
        no_reference_is_left(text_so_far(c), refs);
    }
}

/// An answer is the same whether its text came in as it is or as a replacement
/// of another one.
pub proof fn replacements_are_answered_alike(
    g: GeneratorView,
    c: ContextView,
    text: Seq<char>,
    other: Seq<char>,
)
    requires
        c.error is None,
    ensures
        ({
            let plain_text = ContextView { content: text, replace_buffer: None, ..c };
            let put_in = ContextView { content: other, replace_buffer: Some(text), ..c };
            non_stream_step(g, plain_text, None).1 == non_stream_step(g, put_in, None).1
        }),
{
}

/// Until the end nothing is replied to a client that wants the whole answer,
/// and what is known of the answer is the same as for a client that wants a
/// stream, but for the opening of the stream.
pub proof fn whole_answers_wait_for_the_end(
    g: GeneratorView,
    s: StreamStateView,
    event: ChatResponseView,
)
    requires
        !s.is_done,
        s.ctx.error is None,
        !s.ctx.done,
    ensures
        ({
            let item = Some(StreamItemView::Event(event));
            let (c, reply) = non_stream_step(g, s.ctx, item);
            let after = stream_step(g, s, item).0.ctx;
            &&& event.event != ChatEventType::Done && !(event.event == ChatEventType::Error
                && event.data is Some && event.data->0 is Error) ==> {
                &&& reply is Pending
                &&& after == (ContextView { role_chunk_sent: after.role_chunk_sent, ..c })
            }
        }),
{
}

/// An event whose data do not fit its sort changes nothing of the answer, and
/// no text goes out for it.
pub proof fn misfits_change_nothing(g: GeneratorView, s: StreamStateView, event: ChatResponseView)
    requires
        !s.is_done,
        s.ctx.error is None,
        match event.event {
            ChatEventType::Text | ChatEventType::ReplaceResponse => !(event.data is Some
                && event.data->0 is Text),
            ChatEventType::File => !(event.data is Some && event.data->0 is File),
            ChatEventType::Json => !(event.data is Some && event.data->0 is ToolCalls),
            ChatEventType::Error => !(event.data is Some && event.data->0 is Error),
            ChatEventType::Done => false,
        },
    ensures
        ({
            let (after, step) = stream_step(g, s, Some(StreamItemView::Event(event)));
            let out = sent(step);
            &&& step is Output
            &&& after.ctx == (ContextView { role_chunk_sent: after.ctx.role_chunk_sent, ..s.ctx })
            &&& after.is_done == s.ctx.done
            &&& forall|k: int|
                0 <= k < out.len() ==> (#[trigger] out[k]) is Chunk
                    && out[k]->Chunk_0.choices[0].delta.content is None
            &&& after_event(s.ctx, event) == (s.ctx, None::<Seq<char>>)
        }),
{
}

/// Chunks hold what they are given, and nothing else.
pub proof fn chunks_hold_what_they_are_given(
    g: GeneratorView,
    text: Seq<char>,
    finish_reason: Option<Seq<char>>,
    calls: Seq<ChatToolCallView>,
)
    ensures
        is_opening(PayloadView::Chunk(role_chunk(g), None), g),
        is_chunk(
            PayloadView::Chunk(text_chunk(g, text, finish_reason), None),
            g,
            DeltaView { role: None, content: Some(text), refusal: None, tool_calls: None },
            finish_reason,
        ),
        is_chunk(
            PayloadView::Chunk(tool_chunk(g, calls), None),
            g,
            DeltaView { role: None, content: None, refusal: None, tool_calls: Some(calls) },
            Some("tool_calls"@),
        ),
{
}

/// The counts of an exchange are those of the question and of the answer, and
/// the total is their sum. There are none only where the sum takes more than 32
/// bits.
pub proof fn counts_add_up(g: GeneratorView, n: u32)
    ensures
        usage_with(g, n) is None <==> g.prompt_tokens + n > u32::MAX,
        usage_with(g, n) matches Some(u) ==> {
            &&& u.prompt_tokens == g.prompt_tokens
            &&& u.completion_tokens == n
            &&& u.total_tokens == u.prompt_tokens + u.completion_tokens
            &&& u.cached_tokens == 0
        },
{
}

/// The tokens of a text are those that the encoder makes of it: none where there
/// is no encoder, and no number where the encoder gives up.
pub proof fn tokens_are_those_of_the_encoder(text: Seq<char>, n: u32)
    ensures
        token_count(text) == Some(n) <==> counts_as(text, n),
        token_count(text) is None <==> o200k_encoding(text) == Some(None::<Seq<u32>>),
{
}

/// What goes out for what an event passed on: a text goes out with links for the
/// files that are known, the text of a file, a replacement or a failure goes out
/// as it is, and the opening comes before all of them.
pub proof fn passed_texts_go_out(
    g: GeneratorView,
    c: ContextView,
    event: ChatEventType,
    text: Seq<char>,
)
    requires
        event is Text || event is File || event is ReplaceResponse || event is Error,
    ensures
        ({
            let (after, out) = output_for(g, c, event, Some(text));
            let shown = if event is Text {
                with_links(text, c.file_refs)
            } else {
                text
            };
            &&& out is Some
            &&& opened(g, c, out->0, 1)
            &&& is_text(out->0.last(), g, shown)
            &&& event is Text && distinct(c.file_refs) && plain(c.file_refs) ==> is_text(
                out->0.last(),
                g,
                linked(text, c.file_refs),
            )
            &&& after == (ContextView { role_chunk_sent: true, ..c })
        }),
        ({
            let (after, out) = output_for(g, c, event, None);
            &&& out is Some
            &&& event is Error ==> out->0.len() == 0 && after == c
            &&& !(event is Error) ==> opened(g, c, out->0, 0) && after == (ContextView {
                role_chunk_sent: true,
                ..c
            })
        }),
{
    if distinct(c.file_refs) && plain(c.file_refs) {
        references_become_links(text, c.file_refs);
    }
}

/// At the end a text whose links did not go out yet goes out, and says that the
/// answer stops. Else the last messages go out.
pub proof fn unsent_links_go_out_at_the_end(
    g: GeneratorView,
    c: ContextView,
    text: Seq<char>,
    usage: UsageView,
)
    ensures
        text != "done"@ && !c.image_urls_sent ==> {
            let (after, out) = output_for(g, c, ChatEventType::Done, Some(text));
            &&& out is Some && out->0.len() == 1
            &&& is_chunk(
                out->0[0],
                g,
                DeltaView { role: None, content: Some(text), refusal: None, tool_calls: None },
                Some("stop"@),
            )
            &&& out->0[0]->Chunk_1 is None
            &&& after == (ContextView { image_urls_sent: true, ..c })
        },
        text == "done"@ || c.image_urls_sent ==> output_for(g, c, ChatEventType::Done, Some(text))
            == output_for(g, c, ChatEventType::Done, None),
        ({
            let (after, out) = ending(g, c, usage);
            &&& opened(g, c, out, 1)
            &&& is_chunk(
                out.last(),
                g,
                DeltaView { role: None, content: Some(""@), refusal: None, tool_calls: None },
                Some(
                    if c.tool_calls.len() > 0 {
                        "tool_calls"@
                    } else {
                        "stop"@
                    },
                ),
            )
            &&& out.last()->Chunk_1 == (if g.include_usage {
                Some(usage)
            } else {
                None
            })
            &&& after == (ContextView {
                completion_tokens: usage.completion_tokens,
                role_chunk_sent: true,
                ..c
            })
        }),
        match output_for(g, c, ChatEventType::Done, None) {
            (after, Some(out)) => exists|n: u32|
                counts_as(text_so_far(c), n) && g.prompt_tokens + n <= u32::MAX && (after, out)
                    == ending(g, c, (#[trigger] usage_with(g, n))->0),
            (after, None) => after == c && forall|n: u32|
                counts_as(text_so_far(c), n) ==> #[trigger] usage_with(g, n) is None,
        },
{
    lemma_counted(c);
    if let Some(n) = token_count(answer_text(c)) {
        assert(counts_as(text_so_far(c), n));
        if let Some(u) = usage_with(g, n) {
            assert(usage_of(g, c) == Some(u));
        }
    }
}

/// What each event hands on to be sent: a text itself, or with the replacement
/// before it that has not gone out yet; a replacement with its links; and a word
/// for what is sent in another form.
pub proof fn events_hand_on_their_texts(
    c: ContextView,
    text: Seq<char>,
    file: FileDataView,
    retry: bool,
)
    ensures
        ({
            let handed = |event: ChatEventType, data: DataView|
                after_event(c, ChatResponseView { event, data: Some(data) }).1;
            let first = c.is_replace_mode && !c.first_text_processed && c.replace_buffer is Some;
            &&& handed(ChatEventType::Text, DataView::Text(text)) == Some(
                if first {
                    c.replace_buffer->0 + text
                } else {
                    text
                },
            )
            &&& handed(ChatEventType::ReplaceResponse, DataView::Text(text)) == (if refers_to_any(
                text,
                c.file_refs,
            ) {
                Some(with_links(text, c.file_refs))
            } else {
                None
            })
            &&& handed(ChatEventType::File, DataView::File(file)) == (if c.replace_buffer is Some
                && !c.image_urls_sent && refers_to(c.replace_buffer->0, file.inline_ref) {
                Some(
                    with_links(
                        c.replace_buffer->0,
                        seq![FileRefView { ref_id: file.inline_ref, file }],
                    ),
                )
            } else {
                None
            })
            &&& handed(ChatEventType::Json, DataView::ToolCalls(Seq::empty())) == Some(
                "tool_calls"@,
            )
            &&& handed(ChatEventType::Error, DataView::Error(text, retry)) == Some("error"@)
            &&& handed(ChatEventType::Done, DataView::Empty) == Some(
                if c.replace_buffer is Some && !c.image_urls_sent && refers_to_any(
                    c.replace_buffer->0,
                    c.file_refs,
                ) {
                    with_links(c.replace_buffer->0, c.file_refs)
                } else {
                    "done"@
                },
            )
        }),
{
    lemma_mentions(text, c.file_refs);
    if let Some(b) = c.replace_buffer {
        lemma_mentions(b, c.file_refs);
        occurrence_is_by_character(b, marker(file.inline_ref));
        let one = seq![FileRefView { ref_id: file.inline_ref, file }];
        assert(one.drop_last() =~= Seq::empty());
        assert(one.last() == one[0]);
        reveal_with_fuel(with_links, 2);
    }
}

/// A stream begins with nothing: no text, no file, no tool call, no failure, and
/// nothing sent.
pub proof fn streams_begin_with_nothing()
    ensures
        ({
            let s = fresh_stream();
            &&& !s.is_done
            &&& text_so_far(s.ctx).len() == 0
            &&& s.ctx.content.len() == 0
            &&& s.ctx.replace_buffer is None
            &&& settled(s.ctx)
            &&& s.ctx.file_refs.len() == 0
            &&& s.ctx.tool_calls.len() == 0
            &&& s.ctx.error is None
            &&& !s.ctx.done
            &&& !s.ctx.is_replace_mode
            &&& !s.ctx.first_text_processed
            &&& !s.ctx.role_chunk_sent
            &&& !s.ctx.has_new_file_refs
            &&& !s.ctx.image_urls_sent
            &&& s.ctx.completion_tokens == 0
        }),
{
    reveal_strlit("");
}

/// What each event changes of what is known of an answer, and that it changes
/// nothing else.
pub proof fn events_change_what_they_are_about(
    c: ContextView,
    text: Seq<char>,
    file: FileDataView,
    calls: Seq<ChatToolCallView>,
    retry: bool,
    data: Option<DataView>,
)
    ensures
        ({
            let after = after_event(
                c,
                ChatResponseView { event: ChatEventType::Text, data: Some(DataView::Text(text)) },
            ).0;
            &&& settled(c) ==> settled(after) && text_so_far(after) == text_so_far(c) + text
            &&& after == (ContextView {
                content: after.content,
                replace_buffer: after.replace_buffer,
                is_replace_mode: after.is_replace_mode,
                first_text_processed: after.first_text_processed,
                ..c
            })
        }),
        ({
            let after = after_event(
                c,
                ChatResponseView {
                    event: ChatEventType::ReplaceResponse,
                    data: Some(DataView::Text(text)),
                },
            ).0;
            after == (ContextView {
                replace_buffer: Some(text),
                is_replace_mode: true,
                first_text_processed: false,
                image_urls_sent: c.image_urls_sent || refers_to_any(text, c.file_refs),
                ..c
            })
        }),
        ({
            let after = after_event(
                c,
                ChatResponseView { event: ChatEventType::File, data: Some(DataView::File(file)) },
            ).0;
            &&& lookup(after.file_refs, file.inline_ref) == Some(file)
            &&& after == (ContextView {
                file_refs: after.file_refs,
                has_new_file_refs: true,
                image_urls_sent: c.image_urls_sent || (c.replace_buffer is Some && refers_to(
                    c.replace_buffer->0,
                    file.inline_ref,
                )),
                ..c
            })
        }),
        after_event(
            c,
            ChatResponseView {
                event: ChatEventType::Json,
                data: Some(DataView::ToolCalls(calls)),
            },
        ).0 == (ContextView { tool_calls: c.tool_calls + calls, ..c }),
        after_event(
            c,
            ChatResponseView {
                event: ChatEventType::Error,
                data: Some(DataView::Error(text, retry)),
            },
        ).0 == (ContextView { error: Some(converted(text)), ..c }),
        after_event(c, ChatResponseView { event: ChatEventType::Done, data }).0 == (ContextView {
            done: true,
            image_urls_sent: c.image_urls_sent || (c.replace_buffer is Some && refers_to_any(
                c.replace_buffer->0,
                c.file_refs,
            )),
            ..c
        }),
{
    lemma_mentions(text, c.file_refs);
    if let Some(b) = c.replace_buffer {
        lemma_mentions(b, c.file_refs);
        occurrence_is_by_character(b, marker(file.inline_ref));
    }
    lookup_after_insert(c.file_refs, file.inline_ref, file, file.inline_ref);
}

/// When tool calls come in, or should have, all that are known go out, whatever
/// else is handed on; where none are known nothing does.
pub proof fn known_tool_calls_go_out(g: GeneratorView, c: ContextView, passed: Option<Seq<char>>)
    ensures
        ({
            let (after, out) = output_for(g, c, ChatEventType::Json, passed);
            &&& out is Some
            &&& c.tool_calls.len() > 0 ==> {
                &&& opened(g, c, out->0, 1)
                &&& is_chunk(
                    out->0.last(),
                    g,
                    DeltaView {
                        role: None,
                        content: None,
                        refusal: None,
                        tool_calls: Some(c.tool_calls),
                    },
                    Some("tool_calls"@),
                )
                &&& out->0.last()->Chunk_1 is None
                &&& after == (ContextView { role_chunk_sent: true, ..c })
            }
            &&& c.tool_calls.len() == 0 ==> out->0.len() == 0 && after == c
        }),
{
}

} // verus!
