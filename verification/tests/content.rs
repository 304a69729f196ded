use poe2openai::content::{
    collect_mentioned_urls, extract_poe_cdn_urls_from_message, extract_urls_from_markdown,
    get_text_from_openai_content, is_poe_cdn_url, unquote,
};
use poe2openai::types::{ImageUrlContent, Message, OpenAiContent, OpenAiContentItem};

fn text(s: &str) -> OpenAiContentItem {
    OpenAiContentItem::Text { text: s.to_string() }
}

fn image(s: &str) -> OpenAiContentItem {
    OpenAiContentItem::ImageUrl { image_url: ImageUrlContent { url: s.to_string() } }
}

#[test]
fn plain_content_is_its_own_text() {
    let content = OpenAiContent::Text("say \"hi\"\n".to_string());
    assert_eq!(get_text_from_openai_content(&content), "say \"hi\"\n");
}

#[test]
fn text_parts_are_flattened_and_joined() {
    let content = OpenAiContent::Multi(vec![
        text("one"),
        image("https://example.com/a.png"),
        text("a\tb\\c \"d\" e\u{1}\u{7f}"),
    ]);
    assert_eq!(
        get_text_from_openai_content(&content),
        "one\na\\tb\\\\c \"d\" e\\u0001\u{7f}"
    );
}

#[test]
fn quotes_stay_wherever_they_stand() {
    let flat = |s: &str| get_text_from_openai_content(&OpenAiContent::Multi(vec![text(s)]));
    for s in ["say \"hi\"", "\"hi\"", "\"", "\"\"\"", "", "\"a\" and \"b\""] {
        assert_eq!(flat(s), s);
    }
    assert_eq!(flat("\\\""), "\\\\\"");
    assert_eq!(flat("a\\"), "a\\\\");
}

#[test]
fn one_quote_is_taken_off_each_end() {
    assert_eq!(unquote("\"a\\\"b\""), "a\"b");
    assert_eq!(unquote("\"\\\"hi\\\"\""), "\"hi\"");
    assert_eq!(unquote("\"\""), "");
    assert_eq!(unquote("\""), "\"");
    assert_eq!(unquote("a\\\"b"), "a\"b");
}

#[test]
fn a_part_without_special_characters_stays() {
    let content = OpenAiContent::Multi(vec![text("Grüße, 世界! [x](y)")]);
    assert_eq!(get_text_from_openai_content(&content), "Grüße, 世界! [x](y)");
}

#[test]
fn no_parts_make_no_text() {
    assert_eq!(get_text_from_openai_content(&OpenAiContent::Multi(vec![])), "");
}

#[test]
fn the_cdn_is_known_by_its_prefix() {
    assert!(is_poe_cdn_url("https://pfst.cf2.poecdn.net/base/image/x"));
    assert!(!is_poe_cdn_url("http://pfst.cf2.poecdn.net/x"));
    assert!(!is_poe_cdn_url("https://example.com/https://pfst.cf2.poecdn.net"));
    assert!(!is_poe_cdn_url(""));
}

#[test]
fn markdown_images_come_before_words() {
    let mut urls = vec!["first".to_string()];
    extract_urls_from_markdown(
        "see https://pfst.cf2.poecdn.net/w ![a](https://pfst.cf2.poecdn.net/i) \
         ![b](https://example.com/j) ![](https://pfst.cf2.poecdn.net/k)",
        &mut urls,
    );
    assert_eq!(
        urls,
        vec![
            "first",
            "https://pfst.cf2.poecdn.net/i",
            "https://pfst.cf2.poecdn.net/k",
            "https://pfst.cf2.poecdn.net/w",
        ]
    );
}

#[test]
fn groups_are_filtered_and_words_follow() {
    let mut urls = Vec::new();
    let groups = vec![
        Some("https://pfst.cf2.poecdn.net/1".to_string()),
        None,
        Some("https://example.com/2".to_string()),
    ];
    collect_mentioned_urls(&groups, "x https://pfst.cf2.poecdn.net/3", &mut urls);
    assert_eq!(urls, vec!["https://pfst.cf2.poecdn.net/1", "https://pfst.cf2.poecdn.net/3"]);
}

#[test]
fn urls_of_a_message_come_in_order() {
    let message = Message {
        role: "assistant".to_string(),
        content: OpenAiContent::Multi(vec![
            image("https://example.com/no.png"),
            text("![x](https://pfst.cf2.poecdn.net/1)"),
            image("https://pfst.cf2.poecdn.net/2"),
        ]),
    };
    assert_eq!(
        extract_poe_cdn_urls_from_message(&message),
        vec!["https://pfst.cf2.poecdn.net/1", "https://pfst.cf2.poecdn.net/2"]
    );
    let plain = Message {
        role: "assistant".to_string(),
        content: OpenAiContent::Text("https://pfst.cf2.poecdn.net/3 and more".to_string()),
    };
    assert_eq!(extract_poe_cdn_urls_from_message(&plain), vec!["https://pfst.cf2.poecdn.net/3"]);
}
