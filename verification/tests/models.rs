use poe2openai::config::Rule;
use poe2openai::models::{
    answer_from_cache, answer_from_cache_at, apply_rules, choose_source, get_models, get_models_at,
    lowercase_ids, merge_models_at, ModelSource, ModelsReply,
};
use poe2openai::types::{Config, CustomModel, ModelConfig, ModelEntry, ModelInfo};

fn model(id: &str) -> ModelInfo {
    ModelInfo {
        id: id.to_string(),
        object: "model".to_string(),
        created: 5,
        owned_by: "owner".to_string(),
    }
}

fn entry(name: &str, mapping: Option<&str>, enable: Option<bool>) -> ModelEntry {
    ModelEntry {
        name: name.to_string(),
        config: ModelConfig {
            mapping: mapping.map(|m| m.to_string()),
            replace_response: None,
            enable,
        },
    }
}

fn custom(id: &str, created: Option<i64>, owned_by: Option<&str>) -> CustomModel {
    CustomModel { id: id.to_string(), created, owned_by: owned_by.map(|o| o.to_string()) }
}

fn config() -> Config {
    Config {
        enable: Some(true),
        models: vec![
            entry("Alpha", Some("Renamed"), None),
            entry("BETA", None, Some(false)),
            entry("gamma", None, Some(true)),
            entry("Hidden", None, Some(false)),
        ],
        custom_models: Some(vec![
            custom("Extra", Some(9), Some("me")),
            custom("RENAMED", None, None),
            custom("extra", None, None),
            custom("hidden", None, None),
            custom("Plain", None, None),
        ]),
    }
}

fn ids(list: &[ModelInfo]) -> Vec<&str> {
    list.iter().map(|m| m.id.as_str()).collect()
}

#[test]
fn the_source_depends_on_path_and_configuration() {
    let mut c = config();
    assert_eq!(choose_source("/api/models", &c), ModelSource::Fresh);
    assert_eq!(choose_source("/v1/models", &c), ModelSource::Cached);
    c.enable = Some(false);
    assert_eq!(choose_source("/v1/models", &c), ModelSource::Direct);
    c.enable = None;
    assert_eq!(choose_source("/models", &c), ModelSource::Direct);
    assert_eq!(choose_source("/api/models", &c), ModelSource::Fresh);
}

#[test]
fn names_are_put_in_lower_case() {
    assert_eq!(ids(&lowercase_ids(&vec![model("GPT-4"), model("ÄÖ")])), vec!["gpt-4", "äö"]);
}

#[test]
fn rules_select_rename_and_add_models() {
    let list = vec![model("alpha"), model("Beta"), model("gamma"), model("Delta")];
    let merged = merge_models_at(&list, &config(), 77);
    assert_eq!(ids(&merged), vec!["renamed", "gamma", "delta", "extra", "plain"]);
    assert_eq!((merged[0].created, merged[0].owned_by.as_str()), (5, "owner"));
    assert_eq!((merged[3].created, merged[3].owned_by.as_str()), (9, "me"));
    assert_eq!((merged[4].created, merged[4].owned_by.as_str()), (77, "poe"));
    assert_eq!(merged[4].object, "model");
}

#[test]
fn undated_models_get_the_present_time() {
    match answer_from_cache(ModelSource::Cached, Some(&vec![]), &config()) {
        Some(ModelsReply::List(merged)) => {
            assert_eq!(ids(&merged), vec!["extra", "renamed", "plain"]);
            assert!(merged[1].created > 1_600_000_000);
        }
        other => panic!("{:?}", other),
    }
}

#[test]
fn an_empty_configuration_changes_nothing() {
    let none = Config { enable: Some(true), models: vec![], custom_models: None };
    let list = vec![model("b"), model("a")];
    assert_eq!(merge_models_at(&list, &none, 0), list);
}

#[test]
fn answers_follow_the_source() {
    let fetched = || Ok(vec![model("Alpha"), model("Beta")]);
    let lower = vec![model("alpha"), model("beta")];
    assert_eq!(
        get_models(ModelSource::Fresh, &config(), fetched()),
        (ModelsReply::List(lower.clone()), Some(lower.clone()))
    );
    assert_eq!(
        get_models(ModelSource::Direct, &config(), fetched()),
        (ModelsReply::List(lower.clone()), None)
    );
    let (reply, cache) = get_models_at(ModelSource::Cached, &config(), fetched(), 3);
    assert_eq!(cache, Some(lower));
    match reply {
        ModelsReply::List(list) => assert_eq!(ids(&list), vec!["renamed", "extra", "plain"]),
        other => panic!("{:?}", other),
    }
}

#[test]
fn failures_name_what_was_tried() {
    for (source, message) in [
        (ModelSource::Fresh, "down"),
        (ModelSource::Cached, "Failed to retrieve model list for cache population: down"),
        (ModelSource::Direct, "Failed to get models directly from API: down"),
    ] {
        assert_eq!(
            get_models(source, &config(), Err("down".to_string())),
            (ModelsReply::Failure(500, message.to_string()), None)
        );
    }
}

#[test]
fn rules_are_applied_to_names_as_they_stand() {
    let rule = |name: &str, mapping: Option<&str>, enable: Option<bool>| Rule {
        name: name.to_string(),
        mapping: mapping.map(|m| m.to_string()),
        enable,
    };
    let rules = vec![rule("a", Some("x"), None), rule("b", Some("y"), Some(false)), rule("c", None, Some(true))];
    let list = vec![model("a"), model("b"), model("c"), model("d")];
    let custom = vec![model("x"), model("b"), model("e"), model("e")];
    assert_eq!(ids(&apply_rules(&list, &rules, &custom)), vec!["x", "c", "d", "e"]);
    assert_eq!(apply_rules(&list, &vec![], &vec![]), list);
}

#[test]
fn a_filled_cache_answers_without_asking() {
    let list = vec![model("alpha"), model("beta")];
    let (reply, kept) = get_models_at(ModelSource::Cached, &config(), Ok(list.clone()), 3);
    assert_eq!(
        answer_from_cache_at(ModelSource::Cached, kept.as_ref(), &config(), 3),
        Some(reply)
    );
    assert_eq!(answer_from_cache(ModelSource::Cached, None, &config()), None);
    assert_eq!(answer_from_cache(ModelSource::Fresh, Some(&list), &config()), None);
    assert_eq!(answer_from_cache(ModelSource::Direct, Some(&list), &config()), None);
}
