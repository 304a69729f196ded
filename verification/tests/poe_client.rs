use poe2openai::config::{
    find_model, find_offer, find_rule, is_enabled, make_rules, resolve_model, Rule,
};
use poe2openai::poe_client::{
    create_chat_request, extract_tool_call_id, openai_message_to_poe, scan_tool_call_id,
    tool_call_id_with, ChatRequest,
};
use poe2openai::types::{
    Config, ImageUrlContent, Message, ModelConfig, ModelEntry, OpenAiContent, OpenAiContentItem,
};

fn message(role: &str, text: &str) -> Message {
    Message { role: role.to_string(), content: OpenAiContent::Text(text.to_string()) }
}

fn entry(name: &str, mapping: Option<&str>, replace: Option<bool>) -> ModelEntry {
    ModelEntry {
        name: name.to_string(),
        config: ModelConfig {
            mapping: mapping.map(|m| m.to_string()),
            replace_response: replace,
            enable: None,
        },
    }
}

fn config(enable: Option<bool>) -> Config {
    Config {
        enable,
        models: vec![
            entry("Sage-X", Some("GPT-Y"), Some(true)),
            entry("Other", Some("gpt-y"), None),
            entry("sage-x", None, Some(false)),
        ],
        custom_models: None,
    }
}

fn request(model: &str, messages: Vec<Message>) -> ChatRequest<u8, u8, u8> {
    create_chat_request(
        &config(Some(true)),
        model,
        &messages,
        Some(7),
        Some(vec![1, 2]),
        Some(9),
        Some(vec!["stop".to_string()]),
    )
}

#[test]
fn texts_are_joined_and_images_attached() {
    let msg = Message {
        role: "user".to_string(),
        content: OpenAiContent::Multi(vec![
            OpenAiContentItem::Text { text: "a".to_string() },
            OpenAiContentItem::ImageUrl { image_url: ImageUrlContent { url: "u".to_string() } },
            OpenAiContentItem::Text { text: "\"b\"".to_string() },
        ]),
    };
    let poe = openai_message_to_poe(&msg, None);
    assert_eq!((poe.role.as_str(), poe.content.as_str()), ("user", "a\n\"b\""));
    assert_eq!(poe.content_type, "text/markdown");
    let attachments = poe.attachments.unwrap();
    assert_eq!(attachments.len(), 1);
    assert_eq!((attachments[0].url.as_str(), &attachments[0].content_type), ("u", &None));
    let plain = openai_message_to_poe(&message("user", "x"), Some("bot".to_string()));
    assert_eq!((plain.role.as_str(), plain.content.as_str()), ("bot", "x"));
    assert_eq!(plain.attachments, None);
}

#[test]
fn roles_are_those_that_poe_knows() {
    let all = || {
        ["assistant", "developer", "system", "user", "tool"].iter().map(|r| message(r, "x")).collect()
    };
    let roles = |r: ChatRequest<u8, u8, u8>| -> Vec<String> {
        r.query.into_iter().map(|m| m.role).collect()
    };
    assert_eq!(roles(request("Sage-X", all())), vec!["bot", "user", "user", "user", "tool"]);
    assert_eq!(roles(request("sage-x", all())), vec!["bot", "user", "system", "user", "tool"]);
    assert_eq!(roles(request("unknown", all())), vec!["bot", "user", "system", "user", "tool"]);
}

#[test]
fn the_rest_of_a_request_goes_through() {
    let r = request("m", vec![message("user", "hi")]);
    assert_eq!((r.version.as_str(), r.kind.as_str()), ("1.1", "query"));
    assert_eq!(
        (r.user_id.as_str(), r.conversation_id.as_str(), r.message_id.as_str()),
        ("", "", "")
    );
    assert_eq!((r.temperature, r.tools, r.logit_bias), (Some(7), Some(vec![1, 2]), Some(9)));
    assert_eq!(r.stop_sequences, Some(vec!["stop".to_string()]));
    assert_eq!(r.tool_calls, None);
    assert_eq!(r.tool_results, None);
}

#[test]
fn tool_messages_become_results() {
    let r = request(
        "m",
        vec![
            message("tool", "{\"tool_call_id\": \"call_1\", \"x\": 1}"),
            message("tool", "no identifier"),
            message("user", "{\"tool_call_id\": \"call_2\"}"),
        ],
    );
    let results = r.tool_results.unwrap();
    assert_eq!(results.len(), 1);
    assert_eq!(results[0].tool_call_id, "call_1");
    assert_eq!((results[0].role.as_str(), results[0].name.as_str()), ("tool", "unknown"));
    assert_eq!(results[0].content, "{\"tool_call_id\": \"call_1\", \"x\": 1}");
}

#[test]
fn call_identifiers_are_found() {
    let id = |s: &str| extract_tool_call_id(s);
    assert_eq!(id("{\"tool_call_id\":\"a\\u0062\"}"), Some("ab".to_string()));
    assert_eq!(id("{\"tool_call_id\":5,\"s\":\"t\"}"), Some(":5,".to_string()));
    assert_eq!(id("see tool_call_id = \"x\" here"), Some("x".to_string()));
    assert_eq!(id("tool_call_id = \"open"), None);
    assert_eq!(id("tool_call_id"), None);
    assert_eq!(id("[1]"), None);
}

#[test]
fn a_member_comes_before_a_scan() {
    let text = "tool_call_id \"scan\"";
    assert_eq!(tool_call_id_with(Some("member".to_string()), text), Some("member".to_string()));
    assert_eq!(tool_call_id_with(None, text), Some("scan".to_string()));
    assert_eq!(scan_tool_call_id("\"a\" tool_call_id \"\""), Some("".to_string()));
}

#[test]
fn models_are_resolved_by_their_mapping() {
    let on = config(Some(true));
    let pair = |c: &Config, m: &str| resolve_model(c, m);
    assert_eq!(pair(&on, "gpt-Y"), ("gpt-Y".to_string(), "Sage-X".to_string()));
    assert_eq!(pair(&on, "Sage-X"), ("Sage-X".to_string(), "Sage-X".to_string()));
    assert_eq!(pair(&on, "zzz"), ("zzz".to_string(), "zzz".to_string()));
    for off in [config(Some(false)), config(None)] {
        assert!(!is_enabled(&off));
        assert_eq!(pair(&off, "gpt-y"), ("gpt-y".to_string(), "gpt-y".to_string()));
    }
}

#[test]
fn the_first_offer_and_the_last_rule_count() {
    let rule = |name: &str, mapping: Option<&str>| Rule {
        name: name.to_string(),
        mapping: mapping.map(|m| m.to_string()),
        enable: None,
    };
    let rules = vec![rule("a", None), rule("b", Some("x")), rule("a", Some("x"))];
    assert_eq!(find_offer(&rules, "x"), Some(1));
    assert_eq!(find_offer(&rules, "a"), None);
    assert_eq!(find_rule(&rules, "a"), Some(&rules[2]));
    assert_eq!(find_rule(&rules, "x"), None);
}

#[test]
fn models_are_found_by_name() {
    let c = config(Some(true));
    assert_eq!(find_model(&c.models, "Sage-X").unwrap().replace_response, Some(true));
    assert!(find_model(&c.models, "SAGE-X").is_none());
    let rules = make_rules(&c.models);
    assert_eq!((rules[0].name.as_str(), rules[0].mapping.as_deref()), ("sage-x", Some("gpt-y")));
    assert_eq!(find_rule(&rules, "sage-x"), Some(&rules[2]));
    assert!(find_rule(&rules, "Sage-X").is_none());
    assert_eq!(find_offer(&rules, "gpt-y"), Some(0));
    assert_eq!(find_offer(&rules, "GPT-Y"), None);
}

#[test]
fn a_table_holds_each_name_once() {
    let model = |mapping: &str| ModelConfig {
        mapping: Some(mapping.to_string()),
        replace_response: None,
        enable: None,
    };
    let mut c = Config::new(Some(true), None);
    c.insert_model("a".to_string(), model("1"));
    c.insert_model("b".to_string(), model("2"));
    c.insert_model("a".to_string(), model("3"));
    assert_eq!(c.models.len(), 2);
    assert_eq!(find_model(&c.models, "a"), Some(&model("3")));
    assert_eq!(find_model(&c.models, "b"), Some(&model("2")));
    assert_eq!(find_rule(&make_rules(&c.models), "a").unwrap().mapping.as_deref(), Some("3"));
    assert_eq!((c.enable, c.custom_models), (Some(true), None));
}
