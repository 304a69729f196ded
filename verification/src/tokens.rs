//! Counting the tokens of texts and messages.
use crate::content::{content_text, get_text_from_openai_content};
use crate::external::{encoding_view, o200k_encode, o200k_encoding};
use crate::text::views;
use crate::types::{Message, MessageView};
use vstd::prelude::*;

verus! {

/// The number of tokens in an encoding, in 32 bits: zero where there is no
/// encoder, none where the encoder gave up on the text.
pub open spec fn encoded_length(e: Option<Option<Seq<u32>>>) -> Option<u32> {
    match e {
        None => Some(0),
        Some(None) => None,
        Some(Some(tokens)) => Some((tokens.len() % 0x1_0000_0000) as u32),
    }
}

/// The number of tokens of a text, where the encoder copes with it.
pub open spec fn token_count(text: Seq<char>) -> Option<u32> {
    encoded_length(o200k_encoding(text))
}

/// The number of tokens in an encoding.
pub fn encoding_length(e: &Option<Option<Vec<u32>>>) -> (r: Option<u32>)
    ensures
        r == encoded_length(encoding_view(*e)),
{
    match e {
        None => Some(0),
        Some(None) => None,
        Some(Some(tokens)) => {
            let n: u64 = tokens.len() as u64;
            Some((n % 0x1_0000_0000) as u32)
        },
    }
}

/// The number of tokens of a text that the encoder copes with.
pub fn count_tokens(text: &str) -> (n: u32)
    requires
        token_count(text@) is Some,
    ensures
        token_count(text@) == Some(n),
{
    let e = o200k_encode(text);
    encoding_length(&e).unwrap()
}

/// The number of tokens of a text; none where the encoder gives up on it.
pub fn try_count_tokens(text: &str) -> (r: Option<u32>)
    ensures
        r == token_count(text@),
{
    let e = o200k_encode(text);
    match encoding_length(&e) {
        Some(_) => Some(count_tokens(text)),
        None => None,
    }
}

/// The number of tokens of an answer that the encoder copes with.
pub fn count_completion_tokens(completion: &str) -> (n: u32)
    requires
        token_count(completion@) is Some,
    ensures
        token_count(completion@) == Some(n),
{
    count_tokens(completion)
}

/// The sum of token counts.
pub open spec fn token_sum(counts: Seq<u32>) -> nat
    decreases counts.len(),
{
    if counts.len() == 0 {
        0
    } else {
        token_sum(counts.drop_last()) + counts.last() as nat
    }
}

/// The tokens of a list of messages whose texts have the given counts: four
/// more for each message, and two for the list.
pub open spec fn message_total(counts: Seq<u32>) -> nat {
    token_sum(counts) + 4 * counts.len() + 2
}

/// The tokens of a list of messages with the given counts; none where the
/// total takes more than 32 bits.
pub fn total_message_tokens(counts: &Vec<u32>) -> (r: Option<u32>)
    ensures
        match r {
            Some(n) => n == message_total(counts@),
            None => message_total(counts@) > u32::MAX,
        },
{
    let mut total: u32 = 0;
    let mut i: usize = 0;
    while i < counts.len()
        invariant
            i <= counts.len(),
            total == token_sum(counts@.take(i as int)) + 4 * i,
        decreases counts.len() - i,
    {
        assert(counts@.take(i + 1).drop_last() =~= counts@.take(i as int));
        let sum: u64 = total as u64 + 4 + counts[i] as u64;
        if sum > u32::MAX as u64 {
            proof {
                lemma_sum_grows(counts@, i + 1);
            }
            return None;
        }
        total = sum as u32;
        i += 1;
    }
    assert(counts@.take(i as int) =~= counts@);
    if total > u32::MAX - 2 {
        None
    } else {
        Some(total + 2)
    }
}

/// A sum is at least that of its first summands.
proof fn lemma_sum_grows(counts: Seq<u32>, n: int)
    requires
        0 <= n <= counts.len(),
    ensures
        token_sum(counts.take(n)) <= token_sum(counts),
    decreases counts.len(),
{
    if n == counts.len() {
        assert(counts.take(n) =~= counts);
    } else {
        assert(counts.drop_last().take(n) =~= counts.take(n));
        lemma_sum_grows(counts.drop_last(), n);
    }
}

/// The encoder copes with the texts of all messages.
pub open spec fn countable(messages: Seq<MessageView>) -> bool {
    forall|i: int|
        0 <= i < messages.len() ==> token_count(content_text((#[trigger] messages[i]).content))
            is Some
}

/// The token counts of the texts of messages.
pub open spec fn text_counts(messages: Seq<MessageView>) -> Seq<u32> {
    Seq::new(
        messages.len(),
        |i: int| token_count(content_text(messages[i].content)).unwrap(),
    )
}

/// The number of tokens of messages that the encoder copes with and whose
/// total takes 32 bits.
pub fn count_message_tokens(messages: &[Message]) -> (n: u32)
    requires
        countable(views(messages@)),
        message_total(text_counts(views(messages@))) <= u32::MAX,
    ensures
        n == message_total(text_counts(views(messages@))),
{
    let ghost all = views(messages@);
    let mut counts: Vec<u32> = Vec::new();
    let mut i: usize = 0;
    while i < messages.len()
        invariant
            i <= messages.len(),
            all == views(messages@),
            countable(all),
            counts@ == text_counts(all).take(i as int),
        decreases messages.len() - i,
    {
        let text = get_text_from_openai_content(&messages[i].content);
        assert(all[i as int].content == messages@[i as int].content@);
        let n = count_tokens(&text);
        counts.push(n);
        assert(counts@ =~= text_counts(all).take(i + 1));
        i += 1;
    }
    assert(counts@ =~= text_counts(all));
    total_message_tokens(&counts).unwrap()
}

/// The number of tokens of messages; none where the encoder gives up on one of
/// them or the total takes more than 32 bits.
pub fn try_count_message_tokens(messages: &[Message]) -> (r: Option<u32>)
    ensures
        match r {
            Some(n) => countable(views(messages@)) && n == message_total(
                text_counts(views(messages@)),
            ),
            None => !countable(views(messages@)) || message_total(text_counts(views(messages@)))
                > u32::MAX,
        },
{
    let ghost all = views(messages@);
    let mut counts: Vec<u32> = Vec::new();
    let mut i: usize = 0;
    while i < messages.len()
        invariant
            i <= messages.len(),
            all == views(messages@),
            counts.len() == i,
            forall|j: int|
                0 <= j < i ==> token_count(content_text((#[trigger] all[j]).content)) == Some(
                    counts@[j],
                ),
        decreases messages.len() - i,
    {
        let text = get_text_from_openai_content(&messages[i].content);
        assert(all[i as int].content == messages@[i as int].content@);
        let e = o200k_encode(&text);
        match encoding_length(&e) {
            Some(n) => {
                counts.push(n);
            },
            None => {
                return None;
            },
        }
        i += 1;
    }
    assert(counts@ =~= text_counts(all));
    match total_message_tokens(&counts) {
        Some(_) => Some(count_message_tokens(messages)),
        None => None,
    }
}

} // verus!
