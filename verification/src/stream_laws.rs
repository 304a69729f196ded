//! What holds of every stream, whatever events come in.
use crate::evert::{
    after_done, after_event, after_replacement, after_text, empty_context, ContextView,
};
use crate::output::{answer_text, end_reason, role_chunk, usage_of, GeneratorView};
use crate::stream::{
    after_end, closing, ending, framed, fresh_stream, last_chunk, let_out, non_stream_step,
    output_for, plain_chunk, stream_step, PayloadView, StepView, StreamItemView, StreamStateView,
};
use crate::types::{ChatEventType, ChatResponseView, DataView};
use vstd::prelude::*;

verus! {

/// The messages of one step.
pub open spec fn sent(step: StepView) -> Seq<PayloadView> {
    match step {
        StepView::Output(payloads) => payloads,
        _ => Seq::empty(),
    }
}

/// Where a stream stands after some items, and all messages that it sent.
pub open spec fn run(g: GeneratorView, s: StreamStateView, items: Seq<StreamItemView>) -> (
    StreamStateView,
    Seq<PayloadView>,
)
    decreases items.len(),
{
    if items.len() == 0 {
        (s, Seq::empty())
    } else {
        let (before, out) = run(g, s, items.drop_last());
        let (after, step) = stream_step(g, before, Some(items.last()));
        (after, out + sent(step))
    }
}

/// The message names the speaker.
pub open spec fn names_speaker(p: PayloadView) -> bool {
    p matches PayloadView::Chunk(chunk, _) && chunk.choices.len() > 0
        && chunk.choices[0].delta.role is Some
}

/// How a stream stands and what it sent fit together: as long as the speaker
/// was not named no chunk went out, the first chunk names the speaker and no
/// later one does, and a failure ends the stream.
spec fn consistent(g: GeneratorView, s: StreamStateView, out: Seq<PayloadView>) -> bool {
    &&& !s.ctx.role_chunk_sent ==> forall|k: int| 0 <= k < out.len() ==> out[k] is Failure
    &&& s.ctx.role_chunk_sent ==> out.len() > 0 && out[0] == PayloadView::Chunk(role_chunk(g), None)
    &&& forall|k: int| 0 < k < out.len() ==> !names_speaker(#[trigger] out[k])
    &&& forall|k: int| 0 <= k < out.len() - 1 ==> (#[trigger] out[k]) is Chunk
    &&& !s.is_done ==> forall|k: int| 0 <= k < out.len() ==> (#[trigger] out[k]) is Chunk
    &&& !s.is_done ==> s.ctx.error is None
}

/// Every end sends the last messages, the reason of the end among them: what
/// the handler of the end passes on never goes out as a text, since the handler
/// marks its links as sent.
pub proof fn every_end_sends_the_last_messages(g: GeneratorView, c: ContextView)
    ensures
        ({
            let (ended, passed) = after_done(c);
            after_end(g, ended, passed) == (match usage_of(g, ended) {
                Some(u) => (ending(g, ended, u).0, Some(ending(g, ended, u).1)),
                None => (ended, None),
            })
        }),
{
}

/// One step keeps a stream and its messages consistent.
proof fn lemma_step_consistent(
    g: GeneratorView,
    s: StreamStateView,
    out: Seq<PayloadView>,
    item: StreamItemView,
)
    requires
        consistent(g, s, out),
    ensures
        ({
            let (after, step) = stream_step(g, s, Some(item));
            consistent(g, after, out + sent(step))
        }),
{
    let (after, step) = stream_step(g, s, Some(item));
    let all = out + sent(step);
    if s.is_done {
        assert(all =~= out);
    } else {
        match item {
            StreamItemView::Failure(_) => {},
            StreamItemView::Event(event) => {
                let (c, passed) = after_event(s.ctx, event);
                assert(c.role_chunk_sent == s.ctx.role_chunk_sent);
                if event.event == ChatEventType::Done {
                    every_end_sends_the_last_messages(g, s.ctx);
                }
                if c.error is None {
                    let (c2, output) = output_for(g, c, event.event, passed);
                    assert(c2.error is None);
                    if sent(step).len() > 0 {
                        if s.ctx.role_chunk_sent {
                            assert(sent(step).len() == 1);
                            assert(!names_speaker(sent(step)[0]));
                        } else {
                            assert(out.len() == 0) by {
                                if out.len() > 0 {
                                    assert(out[0] is Failure);
                                    assert(out[0] is Chunk);
                                }
                            }
                            assert(all =~= sent(step));
                            assert(sent(step)[0] == PayloadView::Chunk(role_chunk(g), None));
                        }
                    } else {
                        assert(all =~= out);
                    }
                }
            },
        }
    }
}

/// A stream and its messages are consistent at any time.
proof fn lemma_run_consistent(g: GeneratorView, items: Seq<StreamItemView>)
    ensures
        consistent(g, run(g, fresh_stream(), items).0, run(g, fresh_stream(), items).1),
    decreases items.len(),
{
    if items.len() > 0 {
        lemma_run_consistent(g, items.drop_last());
        let (before, out) = run(g, fresh_stream(), items.drop_last());
        lemma_step_consistent(g, before, out, items.last());
    }
}

/// A stream names the speaker in its first chunk and nowhere else.
pub proof fn speaker_is_named_first_and_once(g: GeneratorView, items: Seq<StreamItemView>)
    ensures
        ({
            let out = run(g, fresh_stream(), items).1;
            &&& out.len() > 0 && out[0] is Chunk ==> out[0] == PayloadView::Chunk(
                role_chunk(g),
                None,
            )
            &&& forall|k: int| 0 < k < out.len() ==> !names_speaker(#[trigger] out[k])
        }),
{
    lemma_run_consistent(g, items);
}

/// A failure is the last message of its stream.
pub proof fn failure_is_last(g: GeneratorView, items: Seq<StreamItemView>, k: int)
    requires
        0 <= k < run(g, fresh_stream(), items).1.len(),
        run(g, fresh_stream(), items).1[k] is Failure,
    ensures
        k == run(g, fresh_stream(), items).1.len() - 1,
        run(g, fresh_stream(), items).0.is_done,
{
    lemma_run_consistent(g, items);
}

/// Once a stream has ended nothing goes out any more and nothing changes.
pub proof fn nothing_follows_the_end(
    g: GeneratorView,
    s: StreamStateView,
    items: Seq<StreamItemView>,
)
    requires
        s.is_done,
    ensures
        run(g, s, items) == (s, Seq::<PayloadView>::empty()),
    decreases items.len(),
{
    if items.len() > 0 {
        nothing_follows_the_end(g, s, items.drop_last());
        assert(Seq::<PayloadView>::empty() + Seq::<PayloadView>::empty() =~= Seq::<
            PayloadView,
        >::empty());
    }
}

/// The end of an answer ends the stream, and the last chunk says why: unless a
/// failure came before, it carries no text, the reason of the end, and the
/// token counts where the client wants them.
pub proof fn end_sends_last_chunk(g: GeneratorView, s: StreamStateView, data: Option<DataView>)
    requires
        !s.is_done,
        s.ctx.error is None,
        usage_of(g, s.ctx) is Some,
    ensures
        ({
            let item = StreamItemView::Event(ChatResponseView { event: ChatEventType::Done, data });
            let (after, step) = stream_step(g, s, Some(item));
            &&& after.is_done
            &&& sent(step).len() > 0
            &&& sent(step).last() == last_chunk(g, s.ctx, usage_of(g, s.ctx).unwrap())
        }),
{
    every_end_sends_the_last_messages(g, s.ctx);
    let ended = after_done(s.ctx).0;
    assert(answer_text(ended) == answer_text(s.ctx));
    assert(end_reason(ended) == end_reason(s.ctx));
}

/// A replacement and the texts after it make up the answer, whatever came
/// before.
pub proof fn replacement_discards_the_past(
    c: ContextView,
    replacement: Seq<char>,
    first: Seq<char>,
    second: Seq<char>,
)
    ensures
        ({
            let c1 = after_replacement(c, replacement).0;
            let c2 = after_text(c1, first).0;
            let c3 = after_text(c2, second).0;
            &&& answer_text(c1) == replacement
            &&& answer_text(c2) == replacement + first
            &&& answer_text(c3) == replacement + first + second
        }),
{
}

/// The concatenation of texts.
pub open spec fn concatenated(texts: Seq<Seq<char>>) -> Seq<char>
    decreases texts.len(),
{
    if texts.len() == 0 {
        Seq::empty()
    } else {
        concatenated(texts.drop_last()) + texts.last()
    }
}

/// The text that a client puts together from messages.
pub open spec fn received(out: Seq<PayloadView>) -> Seq<char>
    decreases out.len(),
{
    if out.len() == 0 {
        Seq::empty()
    } else {
        received(out.drop_last()) + (match out.last() {
            PayloadView::Chunk(chunk, _) => match chunk.choices[0].delta.content {
                Some(text) => text,
                None => Seq::empty(),
            },
            PayloadView::Failure(_) => Seq::empty(),
        })
    }
}

/// Events that carry the given texts.
pub open spec fn text_events(texts: Seq<Seq<char>>) -> Seq<StreamItemView> {
    Seq::new(
        texts.len(),
        |i: int|
            StreamItemView::Event(
                ChatResponseView {
                    event: ChatEventType::Text,
                    data: Some(DataView::Text(texts[i])),
                },
            ),
    )
}

/// What a client puts together from a message that follows others.
proof fn lemma_received_push(out: Seq<PayloadView>, p: PayloadView)
    ensures
        received(out.push(p)) == received(out) + received(seq![p]),
{
    assert(out.push(p).drop_last() =~= out);
    assert(seq![p].drop_last() =~= Seq::<PayloadView>::empty());
    reveal_with_fuel(received, 2);
}

/// While only texts come in, the client receives exactly the answer: the text
/// that it puts together, the text that is kept for an answer as a whole, and
/// the texts that the bot sent are the same.
pub proof fn texts_arrive_unchanged(g: GeneratorView, texts: Seq<Seq<char>>)
    ensures
        ({
            let (s, out) = run(g, fresh_stream(), text_events(texts));
            &&& !s.is_done
            &&& answer_text(s.ctx) == concatenated(texts)
            &&& received(out) == concatenated(texts)
        }),
{
    lemma_texts(g, texts);
}

/// The state that texts leave, and what arrives of them.
proof fn lemma_texts(g: GeneratorView, texts: Seq<Seq<char>>)
    ensures
        ({
            let (s, out) = run(g, fresh_stream(), text_events(texts));
            &&& s == (StreamStateView {
                ctx: ContextView {
                    content: concatenated(texts),
                    role_chunk_sent: texts.len() > 0,
                    ..empty_context()
                },
                is_done: false,
            })
            &&& received(out) == concatenated(texts)
        }),
    decreases texts.len(),
{
    let items = text_events(texts);
    if texts.len() == 0 {
        assert(run(g, fresh_stream(), items).0.ctx =~= empty_context());
    } else {
        lemma_texts(g, texts.drop_last());
        assert(items.drop_last() =~= text_events(texts.drop_last()));
        let (before, out) = run(g, fresh_stream(), items.drop_last());
        let (after, step) = stream_step(g, before, Some(items.last()));
        let role = PayloadView::Chunk(role_chunk(g), None);
        let chunk = plain_chunk(g, texts.last());
        if before.ctx.role_chunk_sent {
            assert(out + sent(step) =~= out.push(chunk));
        } else {
            assert(out + sent(step) =~= out.push(role).push(chunk));
            lemma_received_push(out, role);
        }
        lemma_received_push(out, chunk);
        lemma_received_push(out.push(role), chunk);
        reveal_with_fuel(received, 2);
        assert(seq![chunk].drop_last() =~= Seq::<PayloadView>::empty());
        assert(seq![role].drop_last() =~= Seq::<PayloadView>::empty());
        assert(received(seq![chunk]) =~= texts.last());
        assert(received(seq![role]) =~= Seq::<char>::empty());
        assert(received(out) + Seq::<char>::empty() =~= received(out));
        assert(after.ctx =~= ContextView {
            content: concatenated(texts),
            role_chunk_sent: true,
            ..empty_context()
        });
    }
}

/// Two contexts describe the same answer: they differ at most in what was
/// sent and counted.
pub open spec fn same_answer(a: ContextView, b: ContextView) -> bool {
    ContextView {
        role_chunk_sent: b.role_chunk_sent,
        completion_tokens: b.completion_tokens,
        ..a
    } == b
}

/// A stream and an answer as a whole that have come equally far take every
/// item alike: they end with the same items, and as long as they go on they
/// describe the same answer.
pub proof fn both_ways_agree(
    g: GeneratorView,
    s: StreamStateView,
    c: ContextView,
    item: StreamItemView,
)
    requires
        !s.is_done,
        s.ctx.error is None,
        !s.ctx.done,
        same_answer(s.ctx, c),
    ensures
        ({
            let (after, step) = stream_step(g, s, Some(item));
            let (next, reply) = non_stream_step(g, c, Some(item));
            &&& after.is_done <==> !(reply is Pending)
            &&& same_answer(after.ctx, next)
            &&& reply is Uncountable <==> step is Uncountable
            &&& !after.is_done ==> after.ctx.error is None && !after.ctx.done
        }),
{
    match item {
        StreamItemView::Failure(_) => {},
        StreamItemView::Event(event) => {
            let a = after_event(s.ctx, event).0;
            let b = after_event(c, event).0;
            assert(same_answer(a, b));
            if event.event == ChatEventType::Done {
                every_end_sends_the_last_messages(g, s.ctx);
                assert(answer_text(a) == answer_text(b));
            }
        },
    }
}

/// The messages of a step as JSON, given how a message is written.
pub open spec fn written(
    payloads: Seq<PayloadView>,
    write: spec_fn(PayloadView) -> Seq<char>,
) -> Seq<Seq<char>> {
    Seq::new(payloads.len(), |i: int| write(payloads[i]))
}

/// What goes out for a step: its messages together, and nothing where it has
/// none.
pub open spec fn outgoing(step: StepView, write: spec_fn(PayloadView) -> Seq<char>) -> Seq<
    Seq<char>,
> {
    if sent(step).len() > 0 {
        seq![framed(written(sent(step), write))]
    } else {
        Seq::empty()
    }
}

/// What goes out for items, step by step.
pub open spec fn outgoing_for(
    g: GeneratorView,
    items: Seq<StreamItemView>,
    write: spec_fn(PayloadView) -> Seq<char>,
) -> Seq<Seq<char>>
    decreases items.len(),
{
    if items.len() == 0 {
        Seq::empty()
    } else {
        let before = run(g, fresh_stream(), items.drop_last()).0;
        outgoing_for(g, items.drop_last(), write) + outgoing(
            stream_step(g, before, Some(items.last())).1,
            write,
        )
    }
}

/// The whole output of a stream whose source hands over the given items and
/// then ends: what goes out for each step that has messages, and the closing
/// event.
pub open spec fn whole_output(
    g: GeneratorView,
    items: Seq<StreamItemView>,
    write: spec_fn(PayloadView) -> Seq<char>,
) -> Seq<Seq<char>> {
    outgoing_for(g, items, write).push(closing())
}

/// The tokens can be counted at every step.
pub open spec fn countable_stream(g: GeneratorView, items: Seq<StreamItemView>) -> bool {
    forall|n: int|
        0 <= n < items.len() ==> !(stream_step(
            g,
            run(g, fresh_stream(), #[trigger] items.take(n)).0,
            Some(items[n]),
        ).1 is Uncountable)
}

/// A stream that is let out: where it stands, whether it is closed, and what
/// went out.
#[verifier::ext_equal]
pub struct OutletView {
    /// Where the stream stands.
    pub state: StreamStateView,
    /// Whether the closing event went out.
    pub closed: bool,
    /// What went out.
    pub out: Seq<Seq<char>>,
}

/// A stream after `n` rounds. In each round, until the stream is closed, the
/// next item is taken, or none where the source has ended, and what the step
/// yields is let out.
pub open spec fn rounds(
    g: GeneratorView,
    items: Seq<StreamItemView>,
    write: spec_fn(PayloadView) -> Seq<char>,
    n: nat,
) -> OutletView
    decreases n,
{
    if n == 0 {
        OutletView { state: fresh_stream(), closed: false, out: Seq::empty() }
    } else {
        let before = rounds(g, items, write, (n - 1) as nat);
        if before.closed {
            before
        } else {
            let item = if n <= items.len() {
                Some(items[n - 1])
            } else {
                None
            };
            let (state, step) = stream_step(g, before.state, item);
            let (closed, output) = let_out(
                false,
                match step {
                    StepView::Ended => None,
                    _ => Some(written(sent(step), write)),
                },
            );
            OutletView {
                state,
                closed,
                out: match output {
                    Some(text) => before.out.push(text),
                    None => before.out,
                },
            }
        }
    }
}

/// How far a stream is after as many rounds as there are items, or fewer.
proof fn lemma_rounds(
    g: GeneratorView,
    items: Seq<StreamItemView>,
    write: spec_fn(PayloadView) -> Seq<char>,
    n: nat,
)
    requires
        n <= items.len(),
        countable_stream(g, items),
    ensures
        ({
            let r = rounds(g, items, write, n);
            let first = items.take(n as int);
            &&& r.state == run(g, fresh_stream(), first).0
            &&& r.closed ==> r.state.is_done && r.out == outgoing_for(g, first, write).push(
                closing(),
            )
            &&& !r.closed ==> r.out == outgoing_for(g, first, write)
        }),
    decreases n,
{
    if n > 0 {
        let m = (n - 1) as nat;
        lemma_rounds(g, items, write, m);
        let before = rounds(g, items, write, m);
        let first = items.take(m as int);
        let next = items.take(n as int);
        assert(next.drop_last() =~= first);
        assert(next.last() == items[m as int]);
        let step = stream_step(g, before.state, Some(items[m as int])).1;
        assert(!(step is Uncountable));
        let known = outgoing_for(g, first, write);
        assert(outgoing_for(g, next, write) == known + outgoing(step, write));
        if sent(step).len() == 0 {
            assert(known + outgoing(step, write) =~= known);
        } else {
            assert(known + outgoing(step, write) =~= known.push(
                framed(written(sent(step), write)),
            ));
        }
    }
}

/// A closed stream stays as it is.
proof fn lemma_rounds_after_close(
    g: GeneratorView,
    items: Seq<StreamItemView>,
    write: spec_fn(PayloadView) -> Seq<char>,
    m: nat,
    n: nat,
)
    requires
        m <= n,
        rounds(g, items, write, m).closed,
    ensures
        rounds(g, items, write, n) == rounds(g, items, write, m),
    decreases n - m,
{
    if m < n {
        lemma_rounds_after_close(g, items, write, m, (n - 1) as nat);
    }
}

/// A stream whose source ends is closed after one round more than there are
/// items at the latest, and its whole output has gone out.
pub proof fn every_stream_is_closed(
    g: GeneratorView,
    items: Seq<StreamItemView>,
    write: spec_fn(PayloadView) -> Seq<char>,
    n: nat,
)
    requires
        countable_stream(g, items),
        n > items.len(),
    ensures
        rounds(g, items, write, n).closed,
        rounds(g, items, write, n).out == whole_output(g, items, write),
{
    let m = items.len();
    lemma_rounds(g, items, write, m);
    assert(items.take(m as int) =~= items);
    assert(rounds(g, items, write, m + 1).closed);
    lemma_rounds_after_close(g, items, write, m + 1, n);
}

/// Every message is written as a JSON object.
pub open spec fn writes_objects(write: spec_fn(PayloadView) -> Seq<char>) -> bool {
    forall|p: PayloadView| (#[trigger] write(p)).len() > 0 && write(p)[0] == '{'
}

/// Messages that are JSON objects do not look like the closing event.
proof fn lemma_framed_is_no_closing(jsons: Seq<Seq<char>>)
    requires
        jsons.len() > 0,
        jsons[0].len() > 0,
        jsons[0][0] == '{',
    ensures
        framed(jsons).len() > 6,
        framed(jsons)[6] == '{',
        framed(jsons) != closing(),
    decreases jsons.len(),
{
    reveal_strlit("data: ");
    reveal_strlit("data: [DONE]\n\n");
    let before = jsons.drop_last();
    if jsons.len() > 1 {
        assert(before[0] == jsons[0]);
        lemma_framed_is_no_closing(before);
        assert(framed(jsons)[6] == framed(before)[6]);
    } else {
        assert(framed(before) =~= Seq::<char>::empty());
        assert(framed(jsons)[6] == jsons.last()[0]);
    }
    assert(closing()[6] == '[');
}

/// The closing event is the last that goes out and goes out once; where the
/// source hands over nothing, it is all that goes out.
pub proof fn closing_event_is_last_and_once(
    g: GeneratorView,
    items: Seq<StreamItemView>,
    write: spec_fn(PayloadView) -> Seq<char>,
)
    requires
        writes_objects(write),
    ensures
        whole_output(g, items, write).last() == closing(),
        forall|k: int|
            0 <= k < whole_output(g, items, write).len() - 1 ==> (#[trigger] whole_output(
                g,
                items,
                write,
            )[k]) != closing(),
        items.len() == 0 ==> whole_output(g, items, write) == seq![closing()],
{
    lemma_no_closing_before(g, items, write);
    let out = outgoing_for(g, items, write);
    assert forall|k: int| 0 <= k < whole_output(g, items, write).len() - 1 implies (
    #[trigger] whole_output(g, items, write)[k]) != closing() by {
        assert(whole_output(g, items, write)[k] == out[k]);
    }
    if items.len() == 0 {
        assert(whole_output(g, items, write) =~= seq![closing()]);
    }
}

/// No step sends the closing event.
proof fn lemma_no_closing_before(
    g: GeneratorView,
    items: Seq<StreamItemView>,
    write: spec_fn(PayloadView) -> Seq<char>,
)
    requires
        writes_objects(write),
    ensures
        forall|k: int|
            0 <= k < outgoing_for(g, items, write).len() ==> (#[trigger] outgoing_for(
                g,
                items,
                write,
            )[k]) != closing(),
    decreases items.len(),
{
    if items.len() > 0 {
        lemma_no_closing_before(g, items.drop_last(), write);
        let before = outgoing_for(g, items.drop_last(), write);
        let all = outgoing_for(g, items, write);
        let step = stream_step(
            g,
            run(g, fresh_stream(), items.drop_last()).0,
            Some(items.last()),
        ).1;
        if sent(step).len() > 0 {
            let jsons = written(sent(step), write);
            assert(jsons[0] == write(sent(step)[0]));
            lemma_framed_is_no_closing(jsons);
        }
        assert forall|k: int| 0 <= k < all.len() implies (#[trigger] all[k]) != closing() by {
            if k < before.len() {
                assert(all[k] == before[k]);
            }
        }
    }
}

/// The message says that the answer has stopped.
pub open spec fn says_stop(p: PayloadView) -> bool {
    p matches PayloadView::Chunk(chunk, _) && chunk.choices.len() > 0
        && chunk.choices[0].finish_reason == Some("stop"@)
}

/// The item is the bot's word that its answer has ended.
pub open spec fn is_end(item: StreamItemView) -> bool {
    item matches StreamItemView::Event(event) && event.event == ChatEventType::Done
}

/// Without the bot's word that its answer has ended no message says that it has
/// stopped: where the source ends before that, the closing event follows
/// directly.
pub proof fn only_an_end_says_stop(g: GeneratorView, items: Seq<StreamItemView>)
    requires
        forall|k: int| 0 <= k < items.len() ==> !is_end(#[trigger] items[k]),
    ensures
        forall|k: int|
            0 <= k < run(g, fresh_stream(), items).1.len() ==> !says_stop(
                #[trigger] run(g, fresh_stream(), items).1[k],
            ),
    decreases items.len(),
{
    if items.len() > 0 {
        let before = items.drop_last();
        assert forall|k: int| 0 <= k < before.len() implies !is_end(#[trigger] before[k]) by {
            assert(before[k] == items[k]);
        }
        only_an_end_says_stop(g, before);
        assert(!is_end(items[items.len() - 1]));
        let (s, out) = run(g, fresh_stream(), before);
        let step = stream_step(g, s, Some(items.last())).1;
        let all = run(g, fresh_stream(), items).1;
        reveal_strlit("stop");
        reveal_strlit("tool_calls");
        assert("stop"@.len() != "tool_calls"@.len());
        assert forall|k: int| 0 <= k < all.len() implies !says_stop(#[trigger] all[k]) by {
            if k < out.len() {
                assert(all[k] == out[k]);
            } else {
                assert(all[k] == sent(step)[k - out.len()]);
            }
        }
    }
}

} // verus!
