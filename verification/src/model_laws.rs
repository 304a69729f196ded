//! Which models are offered and under what names, told by the entries of the
//! configuration themselves.
use crate::config::{
    first_offer, in_force, place_of, resolved, rule_for, rule_of, rules_of, with_model, RuleView,
};
use crate::external::lowercase;
use crate::models::{
    cached_answer, custom_infos, excluded, lists, lower_ids, merged, models_outcome,
    offered_id, offered_models, source_for, with_custom, ModelSource, ModelsReplyView,
};
use crate::types::{ConfigView, CustomModelView, ModelConfigView, ModelEntryView, ModelInfoView};
use vstd::prelude::*;

verus! {

/// The entry that counts for a name in lower case: the last one of the name.
pub open spec fn governs(models: Seq<ModelEntryView>, k: int, id: Seq<char>) -> bool {
    &&& 0 <= k < models.len()
    &&& lowercase(models[k].name) == id
    &&& forall|j: int| k < j < models.len() ==> lowercase((#[trigger] models[j]).name) != id
}

/// The entry for a name switches the model off.
pub open spec fn switched_off(models: Seq<ModelEntryView>, id: Seq<char>) -> bool {
    exists|k: int| #[trigger] governs(models, k, id) && models[k].config.enable == Some(false)
}

/// The models that are not switched off.
pub open spec fn kept(list: Seq<ModelInfoView>, models: Seq<ModelEntryView>) -> Seq<ModelInfoView> {
    list.filter(|m: ModelInfoView| !switched_off(models, lowercase(m.id)))
}

/// A model of Poe is offered by the rule that counts for it: under its mapping
/// in lower case where it has one, and else under its own name in lower case.
/// Nothing else of it changes.
pub open spec fn offered_as(
    models: Seq<ModelEntryView>,
    model: ModelInfoView,
    r: ModelInfoView,
) -> bool {
    &&& r.object == model.object
    &&& r.created == model.created
    &&& r.owned_by == model.owned_by
    &&& forall|k: int| #[trigger]
        governs(models, k, lowercase(model.id)) ==> r.id == (if models[k].config.mapping is Some {
            lowercase(models[k].config.mapping->0)
        } else {
            lowercase(model.id)
        })
    &&& (forall|k: int| !#[trigger] governs(models, k, lowercase(model.id))) ==> r.id == lowercase(
        model.id,
    )
}

/// The rule for a name is that of the entry that counts for it.
proof fn lemma_governing_rule(models: Seq<ModelEntryView>, id: Seq<char>)
    ensures
        match rule_for(rules_of(models), id) {
            Some(rule) => exists|k: int| #[trigger]
                governs(models, k, id) && rule == rule_of(models[k]),
            None => forall|k: int| !#[trigger] governs(models, k, id),
        },
        forall|k: int| #[trigger]
            governs(models, k, id) ==> rule_for(rules_of(models), id) == Some(rule_of(models[k])),
        switched_off(models, id) <==> excluded(rules_of(models), id),
    decreases models.len(),
{
    let rules = rules_of(models);
    if models.len() > 0 {
        let before = models.drop_last();
        let n = models.len() - 1;
        assert(rules.drop_last() =~= rules_of(before));
        assert(rules.last() == rule_of(models[n]));
        lemma_governing_rule(before, id);
        if lowercase(models[n].name) == id {
            assert(governs(models, n, id));
            assert forall|k: int| #[trigger] governs(models, k, id) implies k == n by {
                if k != n {
                    assert(lowercase(models[n].name) != id);
                }
            }
        } else {
            assert forall|k: int| #[trigger]
                governs(models, k, id) <==> governs(before, k, id) by {
                if governs(before, k, id) {
                    assert forall|j: int| k < j < models.len() implies lowercase(
                        (#[trigger] models[j]).name,
                    ) != id by {
                        if j < n {
                            assert(before[j] == models[j]);
                        }
                    }
                }
                if governs(models, k, id) {
                    assert(k != n);
                    assert forall|j: int| k < j < before.len() implies lowercase(
                        (#[trigger] before[j]).name,
                    ) != id by {
                        assert(before[j] == models[j]);
                    }
                }
            }
            if let Some(rule) = rule_for(rules_of(before), id) {
                let k = choose|k: int| #[trigger]
                    governs(before, k, id) && rule == rule_of(before[k]);
                assert(governs(models, k, id));
                assert(rule == rule_of(models[k]));
            }
        }
    }
}

/// The models of Poe that are not switched off are offered, in order.
proof fn lemma_offered(list: Seq<ModelInfoView>, models: Seq<ModelEntryView>)
    ensures
        offered_models(lower_ids(list), rules_of(models)).len() == kept(list, models).len(),
        forall|i: int|
            0 <= i < kept(list, models).len() ==> offered_as(
                models,
                kept(list, models)[i],
                #[trigger] offered_models(lower_ids(list), rules_of(models))[i],
            ),
    decreases list.len(),
{
    reveal(Seq::filter);
    if list.len() > 0 {
        let before = list.drop_last();
        let id = lowercase(list.last().id);
        lemma_offered(before, models);
        assert(lower_ids(list).drop_last() =~= lower_ids(before));
        assert(lower_ids(list).last().id == id);
        lemma_governing_rule(models, id);
        let all = offered_models(lower_ids(list), rules_of(models));
        let some = offered_models(lower_ids(before), rules_of(models));
        assert forall|i: int| 0 <= i < kept(list, models).len() implies offered_as(
            models,
            kept(list, models)[i],
            #[trigger] all[i],
        ) by {
            if i < kept(before, models).len() {
                assert(kept(list, models)[i] == kept(before, models)[i]);
                assert(all[i] == some[i]);
            } else {
                assert(kept(list, models)[i] == list.last());
            }
        }
    }
}

/// The list of models begins with the models of Poe that are not switched off,
/// all of them and in their order, each under the mapping of its entry in lower
/// case where it has one, whether the entry says that it is switched on or does
/// not say, and else under its own name in lower case. Without models of the
/// configuration it ends there.
pub proof fn models_are_offered_as_configured(
    list: Seq<ModelInfoView>,
    config: ConfigView,
    now: i64,
)
    ensures
        merged(list, config, now).len() >= kept(list, config.models).len(),
        config.custom_models is None ==> merged(list, config, now).len() == kept(
            list,
            config.models,
        ).len(),
        forall|i: int|
            0 <= i < kept(list, config.models).len() ==> offered_as(
                config.models,
                kept(list, config.models)[i],
                #[trigger] merged(list, config, now)[i],
            ),
{
    let head = offered_models(lower_ids(list), rules_of(config.models));
    let custom = custom_infos(config.custom_models, now);
    lemma_offered(list, config.models);
    crate::models::custom_names_are_new(head, custom, rules_of(config.models));
    let all = merged(list, config, now);
    assert(all == with_custom(head, custom, rules_of(config.models)));
    assert forall|i: int| 0 <= i < head.len() implies all[i] == head[i] by {
        assert(all.subrange(0, head.len() as int)[i] == head[i]);
    }
    assert forall|i: int| 0 <= i < kept(list, config.models).len() implies offered_as(
        config.models,
        kept(list, config.models)[i],
        #[trigger] all[i],
    ) by {
        assert(all[i] == head[i]);
    }
}

/// A model of Poe whose entry has a mapping and does not switch it off is
/// offered under the mapping in lower case.
pub proof fn mapped_models_are_offered(
    list: Seq<ModelInfoView>,
    config: ConfigView,
    now: i64,
    i: int,
    k: int,
)
    requires
        0 <= i < list.len(),
        governs(config.models, k, lowercase(list[i].id)),
        config.models[k].config.mapping is Some,
        config.models[k].config.enable != Some(false),
    ensures
        exists|p: int|
            0 <= p < kept(list, config.models).len() && kept(list, config.models)[p] == list[i]
                && (#[trigger] merged(list, config, now)[p]).id == lowercase(
                config.models[k].config.mapping->0,
            ),
{
    let models = config.models;
    let id = lowercase(list[i].id);
    assert(!switched_off(models, id)) by {
        if switched_off(models, id) {
            let j = choose|j: int| #[trigger]
                governs(models, j, id) && models[j].config.enable == Some(false);
            if j < k {
                assert(lowercase(models[k].name) != id);
            } else if k < j {
                assert(lowercase(models[j].name) != id);
            }
        }
    }
    list.lemma_filter_contains(|m: ModelInfoView| !switched_off(models, lowercase(m.id)), i);
    assert(kept(list, models).contains(list[i]));
    let p = choose|p: int| 0 <= p < kept(list, models).len() && kept(list, models)[p] == list[i];
    models_are_offered_as_configured(list, config, now);
    assert(offered_as(models, kept(list, models)[p], merged(list, config, now)[p]));
}

/// A model of the configuration as it is listed: under its name in lower case,
/// with its date or the present time, and with its owner or `poe`.
pub open spec fn listed_as(custom: CustomModelView, now: i64, r: ModelInfoView) -> bool {
    &&& r.id == lowercase(custom.id)
    &&& r.object == "model"@
    &&& r.created == (if custom.created is Some {
        custom.created->0
    } else {
        now
    })
    &&& r.owned_by == (if custom.owned_by is Some {
        custom.owned_by->0
    } else {
        "poe"@
    })
}

/// A model of the configuration is new: it is not switched off, and neither one
/// of the models of Poe nor an earlier one of the configuration has its name.
pub open spec fn is_new(
    head: Seq<ModelInfoView>,
    custom: Seq<CustomModelView>,
    models: Seq<ModelEntryView>,
    j: int,
) -> bool {
    &&& !switched_off(models, lowercase(custom[j].id))
    &&& forall|i: int| 0 <= i < head.len() ==> (#[trigger] head[i]).id != lowercase(custom[j].id)
    &&& forall|i: int|
        0 <= i < j ==> lowercase((#[trigger] custom[i]).id) != lowercase(custom[j].id)
}

/// The places of the new ones among the first models of the configuration.
pub open spec fn new_places(
    head: Seq<ModelInfoView>,
    custom: Seq<CustomModelView>,
    models: Seq<ModelEntryView>,
    n: nat,
) -> Seq<int> {
    Seq::new(n, |j: int| j).filter(|j: int| is_new(head, custom, models, j))
}

/// The first models of the configuration behind those of Poe.
proof fn lemma_custom(
    head: Seq<ModelInfoView>,
    custom: Seq<CustomModelView>,
    models: Seq<ModelEntryView>,
    now: i64,
    n: nat,
)
    requires
        n <= custom.len(),
    ensures
        ({
            let infos = custom_infos(Some(custom), now);
            let all = with_custom(head, infos.take(n as int), rules_of(models));
            let places = new_places(head, custom, models, n);
            &&& all.len() == head.len() + places.len()
            &&& forall|i: int| 0 <= i < head.len() ==> all[i] == head[i]
            &&& forall|i: int|
                0 <= i < places.len() ==> 0 <= #[trigger] places[i] < n && all[head.len() + i]
                    == infos[places[i]]
            &&& forall|j: int|
                0 <= j < n ==> lists(all, (#[trigger] infos[j]).id) || excluded(
                    rules_of(models),
                    infos[j].id,
                )
        }),
    decreases n,
{
    reveal(Seq::filter);
    let rules = rules_of(models);
    let infos = custom_infos(Some(custom), now);
    let all = with_custom(head, infos.take(n as int), rules);
    let places = new_places(head, custom, models, n);
    if n > 0 {
        let m = (n - 1) as nat;
        let last = infos[m as int];
        let id = lowercase(custom[m as int].id);
        lemma_custom(head, custom, models, now, m);
        assert(infos.take(n as int).drop_last() =~= infos.take(m as int));
        assert(infos.take(n as int).last() == last);
        let before = with_custom(head, infos.take(m as int), rules);
        let earlier = new_places(head, custom, models, m);
        let all_places = Seq::new(n, |j: int| j);
        assert(all_places.drop_last() =~= Seq::new(m, |j: int| j));
        assert(all_places.last() == m);
        assert(places == if is_new(head, custom, models, m as int) {
            earlier.push(m as int)
        } else {
            earlier
        });
        lemma_governing_rule(models, id);
        assert(is_new(head, custom, models, m as int) <==> !lists(before, id) && !excluded(
            rules,
            id,
        )) by {
            if is_new(head, custom, models, m as int) && lists(before, id) {
                let i = choose|i: int| 0 <= i < before.len() && (#[trigger] before[i]).id == id;
                if i < head.len() {
                    assert(head[i].id == id);
                } else {
                    let j = earlier[i - head.len()];
                    assert(before[head.len() + (i - head.len())] == infos[j]);
                    assert(lowercase(custom[j].id) == id);
                }
            }
            if !lists(before, id) && !excluded(rules, id) {
                assert forall|i: int| 0 <= i < head.len() implies (#[trigger] head[i]).id != id by {
                    assert(before[i] == head[i]);
                }
                assert forall|i: int| 0 <= i < m implies lowercase((#[trigger] custom[i]).id)
                    != id by {
                    assert(infos[i].id == lowercase(custom[i].id));
                }
            }
        }
        assert forall|i: int| 0 <= i < places.len() implies 0 <= #[trigger] places[i] < n
            && all[head.len() + i] == infos[places[i]] by {
            if i < earlier.len() {
                assert(places[i] == earlier[i]);
                assert(all[head.len() + i] == before[head.len() + i]);
            }
        }
        assert forall|i: int| 0 <= i < head.len() implies all[i] == head[i] by {
            assert(before[i] == head[i]);
        }
        assert forall|j: int| 0 <= j < n implies lists(all, (#[trigger] infos[j]).id) || excluded(
            rules,
            infos[j].id,
        ) by {
            if j < m {
                if lists(before, infos[j].id) {
                    let i = choose|i: int|
                        0 <= i < before.len() && (#[trigger] before[i]).id == infos[j].id;
                    assert(all[i] == before[i]);
                }
            } else if !lists(before, id) && !excluded(rules, id) {
                assert(all[before.len() as int].id == id);
            } else if lists(before, id) {
                let i = choose|i: int| 0 <= i < before.len() && (#[trigger] before[i]).id == id;
                assert(all[i] == before[i]);
            }
        }
    } else {
        assert(infos.take(0) =~= Seq::<ModelInfoView>::empty());
        assert(all == head);
        assert(places.len() == 0);
    }
}

/// The new models of the configuration follow those of Poe, all of them and in
/// their order, and nothing else follows.
pub proof fn new_custom_models_follow(list: Seq<ModelInfoView>, config: ConfigView, now: i64)
    requires
        config.custom_models is Some,
    ensures
        ({
            let all = merged(list, config, now);
            let n = kept(list, config.models).len() as int;
            let custom = config.custom_models->0;
            let places = new_places(all.take(n), custom, config.models, custom.len());
            &&& all.len() == n + places.len()
            &&& forall|i: int|
                0 <= i < places.len() ==> listed_as(
                    custom[#[trigger] places[i]],
                    now,
                    all[n + i],
                )
        }),
{
    let all = merged(list, config, now);
    let n = kept(list, config.models).len() as int;
    let custom = config.custom_models->0;
    let infos = custom_infos(Some(custom), now);
    let head = offered_models(lower_ids(list), rules_of(config.models));
    lemma_offered(list, config.models);
    lemma_custom(head, custom, config.models, now, custom.len());
    assert(infos.take(custom.len() as int) =~= infos);
    assert(all.take(n) =~= head);
    let places = new_places(head, custom, config.models, custom.len());
    assert forall|i: int| 0 <= i < places.len() implies listed_as(
        custom[#[trigger] places[i]],
        now,
        all[n + i],
    ) by {
        assert(all[head.len() + i] == infos[places[i]]);
    }
}

/// A list as Poe gave it, but for the names, which are in lower case.
pub open spec fn lowered(list: Seq<ModelInfoView>, r: Seq<ModelInfoView>) -> bool {
    r.len() == list.len() && forall|i: int|
        0 <= i < list.len() ==> (#[trigger] r[i]) == (ModelInfoView {
            id: lowercase(list[i].id),
            object: list[i].object,
            created: list[i].created,
            owned_by: list[i].owned_by,
        })
}

/// What is answered when Poe was asked: its list, as it is or by the rules, and
/// a failure with its text where Poe failed. The list goes into the cache,
/// except where it is asked for past the cache.
pub proof fn lists_of_poe_are_answered(
    source: ModelSource,
    config: ConfigView,
    list: Seq<ModelInfoView>,
    e: Seq<char>,
    now: i64,
)
    ensures
        ({
            let (reply, kept_list) = models_outcome(source, config, Ok(list), now);
            &&& reply is List
            &&& source is Fresh || source is Direct ==> lowered(list, reply->List_0)
            &&& source is Fresh || source is Cached ==> kept_list is Some && lowered(
                list,
                kept_list->0,
            )
            &&& source is Cached ==> reply->List_0 == merged(kept_list->0, config, now)
            &&& source is Direct ==> kept_list is None
        }),
        ({
            let (reply, kept_list) = models_outcome(source, config, Err(e), now);
            &&& kept_list is None
            &&& reply is Failure
            &&& reply->Failure_0 == 500
            &&& source is Fresh ==> reply->Failure_1 == e
            &&& source is Cached ==> reply->Failure_1
                == "Failed to retrieve model list for cache population: "@ + e
            &&& source is Direct ==> reply->Failure_1 == "Failed to get models directly from API: "@
                + e
        }),
        cached_answer(source, None, config, now) is None,
        !(source is Cached) ==> cached_answer(source, Some(list), config, now) is None,
        source is Cached ==> cached_answer(source, Some(list), config, now) == Some(
            ModelsReplyView::List(merged(list, config, now)),
        ),
{
}

/// The list under `/api/models` comes from Poe, fresh; any other one comes from
/// the cache, by the rules, where the configuration is switched on, and past the
/// cache where it is not.
pub proof fn paths_have_their_sources(path: Seq<char>, config: ConfigView)
    ensures
        in_force(config) <==> config.enable == Some(true),
        source_for(path, config) is Fresh <==> path == "/api/models"@,
        source_for(path, config) is Cached <==> path != "/api/models"@ && config.enable == Some(
            true,
        ),
        source_for(path, config) is Direct <==> path != "/api/models"@ && config.enable != Some(
            true,
        ),
{
}

/// An entry offers its model under a name, upper and lower case being the same.
pub open spec fn offers(entry: ModelEntryView, name: Seq<char>) -> bool {
    entry.config.mapping is Some && lowercase(entry.config.mapping->0) == lowercase(name)
}

/// The first offer, by entries.
proof fn lemma_first_offer_is_first(models: Seq<ModelEntryView>, name: Seq<char>)
    ensures
        match first_offer(rules_of(models), lowercase(name)) {
            Some(k) => 0 <= k < models.len() && offers(models[k], name) && forall|j: int|
                0 <= j < k ==> !offers(#[trigger] models[j], name),
            None => forall|j: int| 0 <= j < models.len() ==> !offers(#[trigger] models[j], name),
        },
    decreases models.len(),
{
    let rules = rules_of(models);
    if models.len() > 0 {
        let before = models.drop_last();
        let n = models.len() - 1;
        lemma_first_offer_is_first(before, name);
        assert(rules.drop_last() =~= rules_of(before));
        assert(rules.last() == rule_of(models[n]));
        assert forall|j: int| 0 <= j < n implies before[j] == #[trigger] models[j] by {}
    }
}

/// A request goes to the first model of the table that is offered under the
/// requested name, where the configuration is switched on, and else to the model
/// of that name. The client sees the name that it asked for.
pub proof fn requests_go_to_the_first_offer(config: ConfigView, requested: Seq<char>, k: int)
    ensures
        resolved(config, requested).0 == requested,
        config.enable != Some(true) ==> resolved(config, requested).1 == requested,
        config.enable == Some(true) && 0 <= k < config.models.len() && offers(
            config.models[k],
            requested,
        ) && (forall|j: int| 0 <= j < k ==> !offers(#[trigger] config.models[j], requested))
            ==> resolved(config, requested).1 == config.models[k].name,
        (forall|j: int|
            0 <= j < config.models.len() ==> !offers(#[trigger] config.models[j], requested))
            ==> resolved(config, requested).1 == requested,
{
    lemma_first_offer_is_first(config.models, requested);
    if let Some(i) = first_offer(rules_of(config.models), lowercase(requested)) {
        if 0 <= k < config.models.len() && offers(config.models[k], requested) && (forall|j: int|
            0 <= j < k ==> !offers(#[trigger] config.models[j], requested)) {
            if i < k {
                assert(!offers(config.models[i], requested));
            } else if k < i {
                assert(!offers(config.models[k], requested));
            }
        }
    }
}

/// The rule that counts for a name: the last one of the name.
pub open spec fn counts_for(rules: Seq<RuleView>, k: int, name: Seq<char>) -> bool {
    &&& 0 <= k < rules.len()
    &&& rules[k].name == name
    &&& forall|j: int| k < j < rules.len() ==> (#[trigger] rules[j]).name != name
}

/// The rule for a name is the last one of the name, and there is none only where
/// no rule has the name.
pub proof fn last_rule_counts(rules: Seq<RuleView>, name: Seq<char>)
    ensures
        forall|k: int| #[trigger] counts_for(rules, k, name) ==> rule_for(rules, name) == Some(
            rules[k],
        ),
        rule_for(rules, name) is None <==> forall|k: int|
            0 <= k < rules.len() ==> (#[trigger] rules[k]).name != name,
        rule_for(rules, name) is Some ==> exists|k: int| #[trigger] counts_for(rules, k, name),
    decreases rules.len(),
{
    if rules.len() > 0 {
        let before = rules.drop_last();
        let n = rules.len() - 1;
        last_rule_counts(before, name);
        assert forall|j: int| 0 <= j < n implies before[j] == #[trigger] rules[j] by {}
        if rules[n].name == name {
            assert(counts_for(rules, n, name));
            assert forall|k: int| #[trigger] counts_for(rules, k, name) implies k == n by {
                if k != n {
                    assert(rules[n].name != name);
                }
            }
        } else {
            assert forall|k: int| #[trigger] counts_for(rules, k, name) implies counts_for(
                before,
                k,
                name,
            ) by {
                assert(k != n);
                assert forall|j: int| k < j < before.len() implies (#[trigger] before[j]).name
                    != name by {
                    assert(before[j] == rules[j]);
                }
            }
            if rule_for(before, name) is Some {
                let k = choose|k: int| #[trigger] counts_for(before, k, name);
                assert forall|j: int| k < j < rules.len() implies (#[trigger] rules[j]).name
                    != name by {
                    if j < n {
                        assert(before[j] == rules[j]);
                    }
                }
                assert(counts_for(rules, k, name));
            }
        }
    }
}

/// An offer under a name is found at the first rule with that mapping.
pub proof fn first_mapping_offers(rules: Seq<RuleView>, name: Seq<char>)
    ensures
        match first_offer(rules, name) {
            Some(k) => 0 <= k < rules.len() && rules[k].mapping == Some(name) && forall|j: int|
                0 <= j < k ==> (#[trigger] rules[j]).mapping != Some(name),
            None => forall|j: int|
                0 <= j < rules.len() ==> (#[trigger] rules[j]).mapping != Some(name),
        },
    decreases rules.len(),
{
    if rules.len() > 0 {
        let before = rules.drop_last();
        first_mapping_offers(before, name);
        assert forall|j: int| 0 <= j < before.len() implies before[j] == #[trigger] rules[j] by {}
    }
}

/// Rules offer a model unless the one that counts for it switches it off, under
/// the mapping of that rule where it has one and else under its own name.
pub proof fn rules_offer_by_mapping(rules: Seq<RuleView>, id: Seq<char>, k: int)
    ensures
        counts_for(rules, k, id) ==> {
            &&& rules[k].enable == Some(false) <==> offered_id(rules, id) is None
            &&& rules[k].enable != Some(false) ==> offered_id(rules, id) == Some(
                if rules[k].mapping is Some {
                    rules[k].mapping->0
                } else {
                    id
                },
            )
        },
        (forall|j: int| 0 <= j < rules.len() ==> (#[trigger] rules[j]).name != id) ==> offered_id(
            rules,
            id,
        ) == Some(id),
{
    last_rule_counts(rules, id);
}

/// The table of models keeps one entry for each name: an entry of a known name
/// takes the place of the old one, an entry of a new name goes to the end, and
/// the others stay where they are.
pub proof fn entries_keep_their_places(
    models: Seq<ModelEntryView>,
    name: Seq<char>,
    config: ModelConfigView,
    k: int,
)
    ensures
        ({
            let after = with_model(models, name, config);
            &&& 0 <= k < models.len() && models[k].name == name && (forall|j: int|
                0 <= j < k ==> (#[trigger] models[j]).name != name) ==> {
                &&& after.len() == models.len()
                &&& after[k] == (ModelEntryView { name, config })
                &&& forall|j: int|
                    0 <= j < models.len() && j != k ==> (#[trigger] after[j]) == models[j]
            }
            &&& (forall|j: int| 0 <= j < models.len() ==> (#[trigger] models[j]).name != name) ==> {
                &&& after.len() == models.len() + 1
                &&& after.last() == (ModelEntryView { name, config })
                &&& forall|j: int| 0 <= j < models.len() ==> (#[trigger] after[j]) == models[j]
            }
        }),
{
    lemma_first_place(models, name);
    if let Some(i) = place_of(models, name) {
        if 0 <= k < models.len() && models[k].name == name && (forall|j: int|
            0 <= j < k ==> (#[trigger] models[j]).name != name) {
            if i < k {
                assert(models[i].name != name);
            } else if k < i {
                assert(models[k].name != name);
            }
        }
    }
}

/// The place of a name is the first of the name.
proof fn lemma_first_place(models: Seq<ModelEntryView>, name: Seq<char>)
    ensures
        match place_of(models, name) {
            Some(i) => 0 <= i < models.len() && models[i].name == name && forall|j: int|
                0 <= j < i ==> (#[trigger] models[j]).name != name,
            None => forall|j: int| 0 <= j < models.len() ==> (#[trigger] models[j]).name != name,
        },
    decreases models.len(),
{
    if models.len() > 0 {
        let before = models.drop_last();
        lemma_first_place(before, name);
        assert forall|j: int| 0 <= j < before.len() implies before[j] == #[trigger] models[j] by {}
    }
}

} // verus!
