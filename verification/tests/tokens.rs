use poe2openai::tokens::{
    count_completion_tokens, count_message_tokens, count_tokens, encoding_length,
    total_message_tokens, try_count_message_tokens, try_count_tokens,
};
use poe2openai::types::{Message, OpenAiContent};

fn message(text: &str) -> Message {
    Message { role: "user".to_string(), content: OpenAiContent::Text(text.to_string()) }
}

#[test]
fn counts_the_tokens_of_a_text() {
    assert_eq!(try_count_tokens(""), Some(0));
    assert_eq!(try_count_tokens("hello world"), Some(2));
    assert_eq!(count_tokens("hello world"), 2);
    assert_eq!(count_completion_tokens("hello world"), 2);
}

#[test]
fn special_tokens_count_as_one() {
    assert_eq!(try_count_tokens("<|endoftext|>"), Some(1));
}

#[test]
fn lengths_of_encodings() {
    assert_eq!(encoding_length(&None), Some(0));
    assert_eq!(encoding_length(&Some(None)), None);
    assert_eq!(encoding_length(&Some(Some(vec![7, 8, 9]))), Some(3));
}

#[test]
fn messages_add_their_overhead() {
    assert_eq!(try_count_message_tokens(&[]), Some(2));
    let messages = [message("hello world"), message("")];
    assert_eq!(try_count_message_tokens(&messages), Some(12));
    assert_eq!(count_message_tokens(&messages), 12);
}

#[test]
fn totals_that_do_not_fit_are_none() {
    assert_eq!(total_message_tokens(&vec![]), Some(2));
    assert_eq!(total_message_tokens(&vec![1, 2]), Some(13));
    assert_eq!(total_message_tokens(&vec![u32::MAX - 6]), Some(u32::MAX));
    assert_eq!(total_message_tokens(&vec![u32::MAX - 5]), None);
}
