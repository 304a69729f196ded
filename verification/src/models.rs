//! The list of models that the gateway offers.
use crate::config::{
    find_rule, in_force, is_enabled, lemma_rule_for, make_rules, rule_for, rules_of, Rule, RuleView,
};
use crate::external::{current_timestamp, lowercase, to_lowercase};
use crate::text::{same_text, views};
use crate::types::{
    opt_view, opt_views, Config, ConfigView, CustomModel, CustomModelView, ModelInfo,
    ModelInfoView,
};
use vstd::prelude::*;

verus! {

/// Where a list of models comes from.
#[derive(Debug, PartialEq, Eq, Clone, Copy)]
pub enum ModelSource {
    /// From Poe, and into the cache.
    Fresh,
    /// From the cache, which Poe fills when it is empty, with the rules of the
    /// configuration.
    Cached,
    /// From Poe, past the cache.
    Direct,
}

/// Where the list of models for a path comes from.
pub open spec fn source_for(path: Seq<char>, config: ConfigView) -> ModelSource {
    if path == "/api/models"@ {
        ModelSource::Fresh
    } else if in_force(config) {
        ModelSource::Cached
    } else {
        ModelSource::Direct
    }
}

/// Decides where the list of models for a path comes from.
pub fn choose_source(path: &str, config: &Config) -> (r: ModelSource)
    ensures
        r == source_for(path@, config@),
{
    if same_text(path, "/api/models") {
        ModelSource::Fresh
    } else if is_enabled(config) {
        ModelSource::Cached
    } else {
        ModelSource::Direct
    }
}

/// A model under another name.
pub open spec fn renamed(model: ModelInfoView, id: Seq<char>) -> ModelInfoView {
    ModelInfoView { id, ..model }
}

/// Models under their names in lower case.
pub open spec fn lower_ids(list: Seq<ModelInfoView>) -> Seq<ModelInfoView> {
    Seq::new(list.len(), |i: int| renamed(list[i], lowercase(list[i].id)))
}

/// A copy of a model under another name.
fn rename(model: &ModelInfo, id: String) -> (r: ModelInfo)
    ensures
        r@ == renamed(model@, id@),
{
    ModelInfo {
        id,
        object: model.object.clone(),
        created: model.created,
        owned_by: model.owned_by.clone(),
    }
}

/// Puts the names of models in lower case.
pub fn lowercase_ids(list: &Vec<ModelInfo>) -> (r: Vec<ModelInfo>)
    ensures
        views(r@) == lower_ids(views(list@)),
{
    let mut r: Vec<ModelInfo> = Vec::new();
    let mut i: usize = 0;
    while i < list.len()
        invariant
            i <= list.len(),
            r.len() == i,
            forall|j: int| 0 <= j < i ==> (#[trigger] r@[j])@ == lower_ids(views(list@))[j],
        decreases list.len() - i,
    {
        let id = to_lowercase(&list[i].id);
        r.push(rename(&list[i], id));
        i += 1;
    }
    assert(views(r@) =~= lower_ids(views(list@)));
    r
}

/// The name under which the rules offer a model of Poe, if they offer it.
pub open spec fn offered_id(rules: Seq<RuleView>, id: Seq<char>) -> Option<Seq<char>> {
    match rule_for(rules, id) {
        Some(rule) => if rule.enable == Some(false) {
            None
        } else {
            match rule.mapping {
                Some(mapping) => Some(mapping),
                None => Some(id),
            }
        },
        None => Some(id),
    }
}

/// The models of Poe that the rules offer, under the names that they have
/// there.
pub open spec fn offered_models(list: Seq<ModelInfoView>, rules: Seq<RuleView>) -> Seq<
    ModelInfoView,
>
    decreases list.len(),
{
    if list.len() == 0 {
        Seq::empty()
    } else {
        let before = offered_models(list.drop_last(), rules);
        match offered_id(rules, list.last().id) {
            Some(id) => before.push(renamed(list.last(), id)),
            None => before,
        }
    }
}

/// A model of a name is in a list.
pub open spec fn lists(list: Seq<ModelInfoView>, id: Seq<char>) -> bool {
    exists|i: int| 0 <= i < list.len() && (#[trigger] list[i]).id == id
}

/// Whether the rules exclude a model.
pub open spec fn excluded(rules: Seq<RuleView>, id: Seq<char>) -> bool {
    rule_for(rules, id) matches Some(rule) && rule.enable == Some(false)
}

/// A list with more models behind it, but for those whose name is taken and
/// those that are excluded.
pub open spec fn with_custom(
    list: Seq<ModelInfoView>,
    custom: Seq<ModelInfoView>,
    rules: Seq<RuleView>,
) -> Seq<ModelInfoView>
    decreases custom.len(),
{
    if custom.len() == 0 {
        list
    } else {
        let before = with_custom(list, custom.drop_last(), rules);
        if lists(before, custom.last().id) || excluded(rules, custom.last().id) {
            before
        } else {
            before.push(custom.last())
        }
    }
}

/// The models that are offered: those of Poe by the rules, and those of the
/// configuration.
pub open spec fn ruled(
    list: Seq<ModelInfoView>,
    rules: Seq<RuleView>,
    custom: Seq<ModelInfoView>,
) -> Seq<ModelInfoView> {
    with_custom(offered_models(list, rules), custom, rules)
}

/// Selects and renames the models of Poe by the rules.
fn select_models(list: &Vec<ModelInfo>, rules: &Vec<Rule>) -> (r: Vec<ModelInfo>)
    ensures
        views(r@) == offered_models(views(list@), views(rules@)),
{
    let ghost all = views(list@);
    let mut r: Vec<ModelInfo> = Vec::new();
    let mut i: usize = 0;
    assert(views(r@) =~= Seq::<ModelInfoView>::empty());
    while i < list.len()
        invariant
            i <= list.len(),
            all == views(list@),
            views(r@) == offered_models(all.take(i as int), views(rules@)),
        decreases list.len() - i,
    {
        let ghost before = views(r@);
        let ghost next = all.take(i + 1);
        assert(next.drop_last() =~= all.take(i as int));
        assert(next.last() == list@[i as int]@);
        let offered = match find_rule(rules, &list[i].id) {
            Some(rule) => {
                if rule.enable.unwrap_or(true) {
                    match &rule.mapping {
                        Some(mapping) => Some(mapping.clone()),
                        None => Some(list[i].id.clone()),
                    }
                } else {
                    None
                }
            },
            None => Some(list[i].id.clone()),
        };
        assert(opt_view(offered) == offered_id(views(rules@), list@[i as int].id@));
        if let Some(id) = offered {
            let model = rename(&list[i], id);
            r.push(model);
            assert(views(r@) =~= before.push(model@));
        }
        i += 1;
    }
    assert(all.take(i as int) =~= all);
    r
}

/// Tells whether a model of a name is in a list.
fn is_listed(list: &Vec<ModelInfo>, id: &str) -> (b: bool)
    ensures
        b == lists(views(list@), id@),
{
    let ghost all = views(list@);
    let mut i: usize = 0;
    while i < list.len()
        invariant
            i <= list.len(),
            all == views(list@),
            forall|j: int| 0 <= j < i ==> (#[trigger] all[j]).id != id@,
        decreases list.len() - i,
    {
        assert(all[i as int] == list@[i as int]@);
        if same_text(&list[i].id, id) {
            return true;
        }
        i += 1;
    }
    false
}

/// Makes the list of the models that are offered.
pub fn apply_rules(list: &Vec<ModelInfo>, rules: &Vec<Rule>, custom: &Vec<ModelInfo>) -> (r: Vec<
    ModelInfo,
>)
    ensures
        views(r@) == ruled(views(list@), views(rules@), views(custom@)),
{
    let mut r = select_models(list, rules);
    let ghost offered = views(r@);
    let ghost all = views(custom@);
    let mut i: usize = 0;
    while i < custom.len()
        invariant
            i <= custom.len(),
            all == views(custom@),
            views(r@) == with_custom(offered, all.take(i as int), views(rules@)),
        decreases custom.len() - i,
    {
        let ghost before = views(r@);
        let ghost next = all.take(i + 1);
        assert(next.drop_last() =~= all.take(i as int));
        assert(next.last() == custom@[i as int]@);
        if !is_listed(&r, &custom[i].id) {
            let disabled = match find_rule(rules, &custom[i].id) {
                Some(rule) => !rule.enable.unwrap_or(true),
                None => false,
            };
            if !disabled {
                let model = custom[i].clone();
                r.push(model);
                assert(views(r@) =~= before.push(model@));
            }
        }
        i += 1;
    }
    assert(all.take(i as int) =~= all);
    r
}

/// A model of the configuration, as of the given time.
pub open spec fn custom_info(model: CustomModelView, now: i64) -> ModelInfoView {
    ModelInfoView {
        id: lowercase(model.id),
        object: "model"@,
        created: match model.created {
            Some(created) => created,
            None => now,
        },
        owned_by: match model.owned_by {
            Some(owner) => owner,
            None => "poe"@,
        },
    }
}

/// The models of the configuration, as of the given time.
pub open spec fn custom_infos(custom: Option<Seq<CustomModelView>>, now: i64) -> Seq<
    ModelInfoView,
> {
    match custom {
        Some(list) => Seq::new(list.len(), |i: int| custom_info(list[i], now)),
        None => Seq::empty(),
    }
}

/// Describes the models of the configuration, as of the given time.
fn describe_custom(custom: &Option<Vec<CustomModel>>, now: i64) -> (r: Vec<ModelInfo>)
    ensures
        views(r@) == custom_infos(opt_views(*custom), now),
{
    let mut r: Vec<ModelInfo> = Vec::new();
    if let Some(list) = custom {
        let mut i: usize = 0;
        while i < list.len()
            invariant
                i <= list.len(),
                r.len() == i,
                forall|j: int| 0 <= j < i ==> (#[trigger] r@[j])@ == custom_info(list@[j]@, now),
            decreases list.len() - i,
        {
            let created = match list[i].created {
                Some(created) => created,
                None => now,
            };
            let owned_by = match &list[i].owned_by {
                Some(owner) => owner.clone(),
                None => "poe".to_owned(),
            };
            let id = to_lowercase(&list[i].id);
            r.push(ModelInfo { id, object: "model".to_owned(), created, owned_by });
            i += 1;
        }
    }
    assert(views(r@) =~= custom_infos(opt_views(*custom), now));
    r
}

/// The list of models by the rules of the configuration, as of the given time.
pub open spec fn merged(list: Seq<ModelInfoView>, config: ConfigView, now: i64) -> Seq<
    ModelInfoView,
> {
    ruled(lower_ids(list), rules_of(config.models), custom_infos(config.custom_models, now))
}

/// Makes the list of models by the rules of the configuration, as of the given
/// time.
pub fn merge_models_at(list: &Vec<ModelInfo>, config: &Config, now: i64) -> (r: Vec<ModelInfo>)
    ensures
        views(r@) == merged(views(list@), config@, now),
{
    let lower = lowercase_ids(list);
    let rules = make_rules(&config.models);
    let custom = describe_custom(&config.custom_models, now);
    apply_rules(&lower, &rules, &custom)
}

/// What is answered to a request for the list of models.
#[derive(Debug, PartialEq, Eq)]
pub enum ModelsReply {
    /// A list of models.
    List(Vec<ModelInfo>),
    /// An HTTP status and what went wrong.
    Failure(u16, String),
}

/// The value of a `ModelsReply`.
#[verifier::ext_equal]
pub enum ModelsReplyView {
    /// A list of models.
    List(Seq<ModelInfoView>),
    /// An HTTP status and what went wrong.
    Failure(u16, Seq<char>),
}

impl View for ModelsReply {
    type V = ModelsReplyView;

    open spec fn view(&self) -> ModelsReplyView {
        match self {
            ModelsReply::List(list) => ModelsReplyView::List(views(list@)),
            ModelsReply::Failure(status, message) => ModelsReplyView::Failure(*status, message@),
        }
    }
}

/// The answer to a request that the cache can serve, as of the given time. Where
/// there is none, Poe has to be asked.
pub open spec fn cached_answer(
    source: ModelSource,
    cached: Option<Seq<ModelInfoView>>,
    config: ConfigView,
    now: i64,
) -> Option<ModelsReplyView> {
    match (source, cached) {
        (ModelSource::Cached, Some(list)) => Some(
            ModelsReplyView::List(merged(list, config, now)),
        ),
        _ => None,
    }
}

/// The value of what the cache holds.
pub open spec fn held(cached: Option<&Vec<ModelInfo>>) -> Option<Seq<ModelInfoView>> {
    match cached {
        Some(list) => Some(views(list@)),
        None => None,
    }
}

/// Answers a request with what the cache holds, as of the given time. Where
/// there is no answer, Poe has to be asked.
pub fn answer_from_cache_at(
    source: ModelSource,
    cached: Option<&Vec<ModelInfo>>,
    config: &Config,
    now: i64,
) -> (r: Option<ModelsReply>)
    ensures
        opt_view(r) == cached_answer(source, held(cached), config@, now),
{
    match (source, cached) {
        (ModelSource::Cached, Some(list)) => Some(
            ModelsReply::List(merge_models_at(list, config, now)),
        ),
        _ => None,
    }
}

/// Answers a request with what the cache holds. There is an answer, and Poe is
/// not asked, exactly where the list is to come from the cache and the cache
/// holds one. A model of the configuration without a date gets the present
/// time.
pub fn answer_from_cache(
    source: ModelSource,
    cached: Option<&Vec<ModelInfo>>,
    config: &Config,
) -> (r: Option<ModelsReply>)
    ensures
        r is Some <==> source is Cached && cached is Some,
        exists|now: i64|
            opt_view(r) == #[trigger] cached_answer(source, held(cached), config@, now),
{
    let now = current_timestamp();
    answer_from_cache_at(source, cached, config, now)
}

/// What comes of a request to Poe for the list of models: what is answered, and
/// what the cache holds from then on, where that changes.
pub open spec fn models_outcome(
    source: ModelSource,
    config: ConfigView,
    fetched: Result<Seq<ModelInfoView>, Seq<char>>,
    now: i64,
) -> (ModelsReplyView, Option<Seq<ModelInfoView>>) {
    match fetched {
        Ok(list) => match source {
            ModelSource::Fresh => (ModelsReplyView::List(lower_ids(list)), Some(lower_ids(list))),
            ModelSource::Cached => (
                ModelsReplyView::List(merged(lower_ids(list), config, now)),
                Some(lower_ids(list)),
            ),
            ModelSource::Direct => (ModelsReplyView::List(lower_ids(list)), None),
        },
        Err(e) => (
            ModelsReplyView::Failure(
                500,
                match source {
                    ModelSource::Fresh => e,
                    ModelSource::Cached =>
                        "Failed to retrieve model list for cache population: "@ + e,
                    ModelSource::Direct => "Failed to get models directly from API: "@ + e,
                },
            ),
            None,
        ),
    }
}

/// The value of what Poe answers.
pub open spec fn fetched_view(r: Result<Vec<ModelInfo>, String>) -> Result<
    Seq<ModelInfoView>,
    Seq<char>,
> {
    match r {
        Ok(list) => Ok(views(list@)),
        Err(e) => Err(e@),
    }
}

/// A copy of a list of models.
fn copy_models(list: &Vec<ModelInfo>) -> (r: Vec<ModelInfo>)
    ensures
        views(r@) == views(list@),
{
    let r = list.clone();
    assert(views(r@) =~= views(list@));
    r
}

/// Answers a request for the list of models with what Poe has answered, as of
/// the given time.
pub fn get_models_at(
    source: ModelSource,
    config: &Config,
    fetched: Result<Vec<ModelInfo>, String>,
    now: i64,
) -> (r: (ModelsReply, Option<Vec<ModelInfo>>))
    ensures
        (r.0@, opt_views(r.1)) == models_outcome(source, config@, fetched_view(fetched), now),
{
    match fetched {
        Ok(list) => {
            let lower = lowercase_ids(&list);
            match source {
                ModelSource::Fresh => (ModelsReply::List(copy_models(&lower)), Some(lower)),
                ModelSource::Cached => {
                    let merged = merge_models_at(&lower, config, now);
                    (ModelsReply::List(merged), Some(lower))
                },
                ModelSource::Direct => (ModelsReply::List(lower), None),
            }
        },
        Err(e) => {
            let mut message = match source {
                ModelSource::Fresh => "".to_owned(),
                ModelSource::Cached =>
                    "Failed to retrieve model list for cache population: ".to_owned(),
                ModelSource::Direct => "Failed to get models directly from API: ".to_owned(),
            };
            message.append(&e);
            proof {
                reveal_strlit("");
                assert(""@ + e@ =~= e@);
            }
            (ModelsReply::Failure(500, message), None)
        },
    }
}

/// Answers a request for the list of models with what Poe has answered.
pub fn get_models(
    source: ModelSource,
    config: &Config,
    fetched: Result<Vec<ModelInfo>, String>,
) -> (r: (ModelsReply, Option<Vec<ModelInfo>>))
    ensures
        exists|now: i64|
            (r.0@, opt_views(r.1)) == #[trigger] models_outcome(
                source,
                config@,
                fetched_view(fetched),
                now,
            ),
{
    let now = current_timestamp();
    get_models_at(source, config, fetched, now)
}

/// The cache answers as Poe has answered: what a list from Poe leaves in the
/// cache, whether it was asked for fresh or for want of one there, gives the
/// answer that the list itself gives at the same time.
pub proof fn cache_answers_alike(
    filled_for: ModelSource,
    config: ConfigView,
    list: Seq<ModelInfoView>,
    now: i64,
)
    ensures
        ({
            let kept = models_outcome(filled_for, config, Ok(list), now).1;
            let answer = models_outcome(ModelSource::Cached, config, Ok(list), now).0;
            &&& kept is Some <==> !(filled_for is Direct)
            &&& kept is Some ==> cached_answer(ModelSource::Cached, kept, config, now) == Some(
                answer,
            )
        }),
{
}

/// Without rules the list is what Poe offers.
pub proof fn no_rules_change_nothing(list: Seq<ModelInfoView>, enable: Option<bool>, now: i64)
    ensures
        merged(list, (ConfigView { enable, models: Seq::empty(), custom_models: None }), now)
            == lower_ids(list),
{
    assert(rules_of(Seq::empty()) =~= Seq::empty());
    lemma_no_rules(lower_ids(list));
}

/// Without rules every model is offered under its name.
proof fn lemma_no_rules(list: Seq<ModelInfoView>)
    ensures
        offered_models(list, Seq::empty()) == list,
    decreases list.len(),
{
    if list.len() > 0 {
        lemma_no_rules(list.drop_last());
        assert(list =~= list.drop_last().push(list.last()));
    }
}

/// The models of the configuration stand behind those of Poe, which stay as
/// they are, and none of them has a name that stands before it.
pub proof fn custom_names_are_new(
    list: Seq<ModelInfoView>,
    custom: Seq<ModelInfoView>,
    rules: Seq<RuleView>,
)
    ensures
        list.is_prefix_of(with_custom(list, custom, rules)),
        forall|k: int|
            #![trigger with_custom(list, custom, rules)[k]]
            list.len() <= k < with_custom(list, custom, rules).len() ==> !lists(
                with_custom(list, custom, rules).take(k),
                with_custom(list, custom, rules)[k].id,
            ),
    decreases custom.len(),
{
    if custom.len() > 0 {
        custom_names_are_new(list, custom.drop_last(), rules);
        let before = with_custom(list, custom.drop_last(), rules);
        let after = with_custom(list, custom, rules);
        assert(after.take(before.len() as int) =~= before);
        assert forall|k: int| #![trigger after[k]] list.len() <= k < after.len() implies !lists(
            after.take(k),
            after[k].id,
        ) by {
            if k < before.len() {
                assert(after.take(k) =~= before.take(k));
                assert(after[k] == before[k]);
            }
        }
        assert(list =~= after.subrange(0, list.len() as int));
    } else {
        assert(list =~= list.subrange(0, list.len() as int));
    }
}

/// A model that the rules exclude is not offered, and every other one is.
pub proof fn excluded_models_are_hidden(rules: Seq<RuleView>, id: Seq<char>)
    ensures
        offered_id(rules, id) is None <==> excluded(rules, id),
{
}

/// Every name in the list is known to the rules or to Poe: it is a mapping, the
/// name of a model of Poe, or that of a model of the configuration.
pub proof fn listed_names_have_a_source(
    list: Seq<ModelInfoView>,
    rules: Seq<RuleView>,
    custom: Seq<ModelInfoView>,
    id: Seq<char>,
)
    requires
        lists(ruled(list, rules, custom), id),
    ensures
        lists(list, id) || lists(custom, id) || exists|i: int|
            0 <= i < rules.len() && (#[trigger] rules[i]).mapping == Some(id),
{
    lemma_custom_source(offered_models(list, rules), custom, rules, id);
    if lists(offered_models(list, rules), id) {
        lemma_offered_source(list, rules, id);
    }
}

/// A name in the longer list is in the shorter one or among the added models.
proof fn lemma_custom_source(
    list: Seq<ModelInfoView>,
    custom: Seq<ModelInfoView>,
    rules: Seq<RuleView>,
    id: Seq<char>,
)
    requires
        lists(with_custom(list, custom, rules), id),
    ensures
        lists(list, id) || lists(custom, id),
    decreases custom.len(),
{
    if custom.len() > 0 {
        let before = with_custom(list, custom.drop_last(), rules);
        let after = with_custom(list, custom, rules);
        let i = choose|i: int| 0 <= i < after.len() && (#[trigger] after[i]).id == id;
        if i < before.len() {
            assert(before[i].id == id);
            lemma_custom_source(list, custom.drop_last(), rules, id);
            if lists(custom.drop_last(), id) {
                let j = choose|j: int|
                    0 <= j < custom.drop_last().len() && (#[trigger] custom.drop_last()[j]).id
                        == id;
                assert(custom[j].id == id);
            }
        } else {
            assert(custom[custom.len() - 1].id == id);
        }
    }
}

/// A name that is offered is that of a model of Poe or a mapping.
proof fn lemma_offered_source(list: Seq<ModelInfoView>, rules: Seq<RuleView>, id: Seq<char>)
    requires
        lists(offered_models(list, rules), id),
    ensures
        lists(list, id) || exists|i: int|
            0 <= i < rules.len() && (#[trigger] rules[i]).mapping == Some(id),
    decreases list.len(),
{
    if list.len() > 0 {
        let before = offered_models(list.drop_last(), rules);
        let after = offered_models(list, rules);
        let i = choose|i: int| 0 <= i < after.len() && (#[trigger] after[i]).id == id;
        if i < before.len() {
            assert(before[i].id == id);
            lemma_offered_source(list.drop_last(), rules, id);
            if lists(list.drop_last(), id) {
                let j = choose|j: int|
                    0 <= j < list.drop_last().len() && (#[trigger] list.drop_last()[j]).id == id;
                assert(list[j].id == id);
            }
        } else {
            lemma_rule_for(rules, list.last().id);
            assert(list[list.len() - 1] == list.last());
        }
    }
}

} // verus!
