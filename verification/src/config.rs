//! The table of models in the configuration.
use crate::external::{lowercase, to_lowercase};
use crate::text::{same_text, views};
use crate::types::{
    opt_view, opt_views, Config, ConfigView, CustomModel, ModelConfig, ModelConfigView, ModelEntry,
    ModelEntryView,
};
use vstd::prelude::*;

verus! {

/// The configuration of the model with the given name.
pub open spec fn configured(models: Seq<ModelEntryView>, name: Seq<char>) -> Option<ModelConfigView>
    decreases models.len(),
{
    if models.len() == 0 {
        None
    } else if models[0].name == name {
        Some(models[0].config)
    } else {
        configured(models.skip(1), name)
    }
}

/// Finds the configuration of the model with the given name.
pub fn find_model<'a>(models: &'a Vec<ModelEntry>, name: &str) -> (r: Option<&'a ModelConfig>)
    ensures
        match r {
            Some(c) => configured(views(models@), name@) == Some(c@),
            None => configured(views(models@), name@) is None,
        },
{
    let ghost all = views(models@);
    let mut i: usize = 0;
    assert(all.skip(0) =~= all);
    while i < models.len()
        invariant
            i <= models.len(),
            all == views(models@),
            configured(all, name@) == configured(all.skip(i as int), name@),
        decreases models.len() - i,
    {
        assert(all.skip(i as int)[0] == models@[i as int]@);
        if same_text(&models[i].name, name) {
            return Some(&models[i].config);
        }
        assert(all.skip(i as int).skip(1) =~= all.skip(i + 1));
        i += 1;
    }
    None
}

/// No name occurs twice.
pub open spec fn distinct_names(models: Seq<ModelEntryView>) -> bool {
    forall|i: int, j: int|
        0 <= i < j < models.len() ==> (#[trigger] models[i]).name != (#[trigger] models[j]).name
}

impl ConfigView {
    /// No model stands in the table twice.
    pub open spec fn wf(self) -> bool {
        distinct_names(self.models)
    }
}

/// The place of a name in the table.
pub open spec fn place_of(models: Seq<ModelEntryView>, name: Seq<char>) -> Option<int>
    decreases models.len(),
{
    if models.len() == 0 {
        None
    } else {
        match place_of(models.drop_last(), name) {
            Some(i) => Some(i),
            None => if models.last().name == name {
                Some(models.len() - 1)
            } else {
                None
            },
        }
    }
}

/// The table with a configuration under a name: in place of what stood there,
/// or at the end.
pub open spec fn with_model(
    models: Seq<ModelEntryView>,
    name: Seq<char>,
    config: ModelConfigView,
) -> Seq<ModelEntryView> {
    match place_of(models, name) {
        Some(i) => models.update(i, ModelEntryView { name, config }),
        None => models.push(ModelEntryView { name, config }),
    }
}

/// The place of a name bears the name, and nothing before it does.
proof fn lemma_place_of(models: Seq<ModelEntryView>, name: Seq<char>)
    ensures
        match place_of(models, name) {
            Some(i) => 0 <= i < models.len() && models[i].name == name && forall|j: int|
                0 <= j < i ==> (#[trigger] models[j]).name != name,
            None => forall|j: int| 0 <= j < models.len() ==> (#[trigger] models[j]).name != name,
        },
    decreases models.len(),
{
    if models.len() > 0 {
        let before = models.drop_last();
        lemma_place_of(before, name);
        assert forall|j: int| 0 <= j < before.len() implies #[trigger] models[j] == before[j] by {}
    }
}

/// The configuration under a name is that of the first entry with the name.
proof fn lemma_configured(models: Seq<ModelEntryView>, name: Seq<char>)
    ensures
        match configured(models, name) {
            Some(c) => exists|i: int|
                0 <= i < models.len() && (#[trigger] models[i]).name == name && models[i].config
                    == c && forall|j: int| 0 <= j < i ==> (#[trigger] models[j]).name != name,
            None => forall|j: int| 0 <= j < models.len() ==> (#[trigger] models[j]).name != name,
        },
    decreases models.len(),
{
    if models.len() > 0 && models[0].name != name {
        let rest = models.skip(1);
        lemma_configured(rest, name);
        assert forall|j: int| 1 <= j < models.len() implies #[trigger] models[j] == rest[j - 1] by {}
        if let Some(c) = configured(rest, name) {
            let i = choose|i: int|
                0 <= i < rest.len() && (#[trigger] rest[i]).name == name && rest[i].config == c
                    && forall|j: int| 0 <= j < i ==> (#[trigger] rest[j]).name != name;
            assert(models[i + 1] == rest[i]);
            assert forall|j: int| 0 <= j < i + 1 implies (#[trigger] models[j]).name != name by {
                if j > 0 {
                    assert(rest[j - 1].name != name);
                }
            }
        }
    } else if models.len() > 0 {
        assert(models[0].name == name);
    }
}

impl Config {
    /// A configuration without models of Poe.
    pub fn new(enable: Option<bool>, custom_models: Option<Vec<CustomModel>>) -> (r: Config)
        ensures
            r@ == (ConfigView {
                enable,
                models: Seq::empty(),
                custom_models: opt_views(custom_models),
            }),
            r@.wf(),
    {
        let r = Config { enable, models: Vec::new(), custom_models };
        assert(r@.models =~= Seq::<ModelEntryView>::empty());
        r
    }

    /// Puts the configuration of a model into the table, in place of the one
    /// that stood there.
    pub fn insert_model(&mut self, name: String, config: ModelConfig)
        ensures
            final(self)@ == (ConfigView {
                models: with_model(old(self)@.models, name@, config@),
                ..old(self)@
            }),
            old(self)@.wf() ==> final(self)@.wf(),
    {
        let ghost all = self@.models;
        let ghost entry = ModelEntryView { name: name@, config: config@ };
        proof {
            lemma_place_of(all, name@);
            lemma_insert_keeps_distinct(all, name@, config@);
        }
        let mut i: usize = 0;
        while i < self.models.len()
            invariant
                i <= self.models.len(),
                self@ == old(self)@,
                all == self@.models,
                forall|j: int| 0 <= j < i ==> (#[trigger] all[j]).name != name@,
            decreases self.models.len() - i,
        {
            assert(all[i as int] == self.models@[i as int]@);
            if same_text(&self.models[i].name, &name) {
                proof {
                    lemma_place_of(all, name@);
                    lemma_insert_keeps_distinct(all, name@, config@);
                }
                self.models[i].config = config;
                assert(views(self.models@) =~= with_model(all, name@, config@));
                return;
            }
            i += 1;
        }
        self.models.push(ModelEntry { name, config });
        assert(views(self.models@) =~= all.push(entry));
    }
}

/// Putting a model into the table keeps its names distinct.
proof fn lemma_insert_keeps_distinct(
    models: Seq<ModelEntryView>,
    name: Seq<char>,
    config: ModelConfigView,
)
    ensures
        distinct_names(models) ==> distinct_names(with_model(models, name, config)),
{
    lemma_place_of(models, name);
    let after = with_model(models, name, config);
    if distinct_names(models) {
        assert forall|i: int, j: int| 0 <= i < j < after.len() implies (#[trigger] after[i]).name
            != (#[trigger] after[j]).name by {
            assert(i < models.len() ==> models[i].name == after[i].name);
            assert(j < models.len() ==> models[j].name == after[j].name);
        }
    }
}

/// What was put into the table under a name is found there, and what stands
/// under other names stays.
pub proof fn configured_after_insert(
    models: Seq<ModelEntryView>,
    name: Seq<char>,
    config: ModelConfigView,
    other: Seq<char>,
)
    ensures
        configured(with_model(models, name, config), other) == (if other == name {
            Some(config)
        } else {
            configured(models, other)
        }),
{
    let after = with_model(models, name, config);
    lemma_place_of(models, name);
    lemma_configured(models, other);
    lemma_configured(after, other);
    assert forall|i: int| 0 <= i < models.len() implies (#[trigger] models[i]).name
        == after[i].name by {}
    match place_of(models, name) {
        Some(k) => {
            assert(after[k].name == name);
        },
        None => {
            assert(after[models.len() as int].name == name);
        },
    }
}

/// What the configuration says of a model, with names in lower case.
#[derive(Debug, PartialEq, Eq)]
pub struct Rule {
    /// The name of the model at Poe.
    pub name: String,
    /// The name under which it is offered, where that is another.
    pub mapping: Option<String>,
    /// Whether it is offered.
    pub enable: Option<bool>,
}

/// The value of a [`Rule`].
#[verifier::ext_equal]
pub struct RuleView {
    pub name: Seq<char>,
    pub mapping: Option<Seq<char>>,
    pub enable: Option<bool>,
}

impl View for Rule {
    type V = RuleView;

    open spec fn view(&self) -> RuleView {
        RuleView { name: self.name@, mapping: opt_view(self.mapping), enable: self.enable }
    }
}

/// The rule for a model.
pub open spec fn rule_of(entry: ModelEntryView) -> RuleView {
    RuleView {
        name: lowercase(entry.name),
        mapping: match entry.config.mapping {
            Some(mapping) => Some(lowercase(mapping)),
            None => None,
        },
        enable: entry.config.enable,
    }
}

/// The rules of a table of models.
pub open spec fn rules_of(models: Seq<ModelEntryView>) -> Seq<RuleView> {
    Seq::new(models.len(), |i: int| rule_of(models[i]))
}

/// Makes the rules of a table of models.
pub fn make_rules(models: &Vec<ModelEntry>) -> (rules: Vec<Rule>)
    ensures
        views(rules@) == rules_of(views(models@)),
{
    let mut rules: Vec<Rule> = Vec::new();
    let mut i: usize = 0;
    while i < models.len()
        invariant
            i <= models.len(),
            rules.len() == i,
            forall|j: int| 0 <= j < i ==> (#[trigger] rules@[j])@ == rule_of(models@[j]@),
        decreases models.len() - i,
    {
        let mapping = match &models[i].config.mapping {
            Some(mapping) => Some(to_lowercase(mapping)),
            None => None,
        };
        rules.push(
            Rule {
                name: to_lowercase(&models[i].name),
                mapping,
                enable: models[i].config.enable,
            },
        );
        i += 1;
    }
    assert(views(rules@) =~= rules_of(views(models@)));
    rules
}

/// The rule for a name. Where there are several, the last of them counts.
pub open spec fn rule_for(rules: Seq<RuleView>, name: Seq<char>) -> Option<RuleView>
    decreases rules.len(),
{
    if rules.len() == 0 {
        None
    } else if rules.last().name == name {
        Some(rules.last())
    } else {
        rule_for(rules.drop_last(), name)
    }
}

/// Finds the rule for a name.
pub fn find_rule<'a>(rules: &'a Vec<Rule>, name: &str) -> (r: Option<&'a Rule>)
    ensures
        match r {
            Some(rule) => rule_for(views(rules@), name@) == Some(rule@),
            None => rule_for(views(rules@), name@) is None,
        },
{
    let ghost all = views(rules@);
    let mut n: usize = rules.len();
    assert(all.take(n as int) =~= all);
    while n > 0
        invariant
            n <= rules.len(),
            all == views(rules@),
            rule_for(all, name@) == rule_for(all.take(n as int), name@),
        decreases n,
    {
        assert(all.take(n as int).last() == rules@[n - 1]@);
        if same_text(&rules[n - 1].name, name) {
            return Some(&rules[n - 1]);
        }
        assert(all.take(n as int).drop_last() =~= all.take(n - 1));
        n -= 1;
    }
    None
}

/// The place of the first rule that offers a model under a name.
pub open spec fn first_offer(rules: Seq<RuleView>, name: Seq<char>) -> Option<int>
    decreases rules.len(),
{
    if rules.len() == 0 {
        None
    } else {
        match first_offer(rules.drop_last(), name) {
            Some(i) => Some(i),
            None => if rules.last().mapping == Some(name) {
                Some(rules.len() - 1)
            } else {
                None
            },
        }
    }
}

/// The first offer is an offer.
pub proof fn lemma_first_offer(rules: Seq<RuleView>, name: Seq<char>)
    ensures
        match first_offer(rules, name) {
            Some(i) => 0 <= i < rules.len() && rules[i].mapping == Some(name),
            None => forall|j: int|
                0 <= j < rules.len() ==> (#[trigger] rules[j]).mapping != Some(name),
        },
    decreases rules.len(),
{
    if rules.len() > 0 {
        let before = rules.drop_last();
        lemma_first_offer(before, name);
        assert forall|j: int| 0 <= j < before.len() implies #[trigger] rules[j] == before[j] by {}
    }
}

/// Finds the first rule that offers a model under a name.
pub fn find_offer(rules: &Vec<Rule>, name: &str) -> (r: Option<usize>)
    ensures
        match r {
            Some(i) => i < rules.len() && first_offer(views(rules@), name@) == Some(i as int),
            None => first_offer(views(rules@), name@) is None,
        },
{
    let ghost all = views(rules@);
    let mut i: usize = 0;
    while i < rules.len()
        invariant
            i <= rules.len(),
            all == views(rules@),
            first_offer(all.take(i as int), name@) is None,
        decreases rules.len() - i,
    {
        let ghost next = all.take(i + 1);
        assert(next.drop_last() =~= all.take(i as int));
        assert(next.last() == rules@[i as int]@);
        if let Some(mapping) = &rules[i].mapping {
            if same_text(mapping, name) {
                proof {
                    lemma_offer_stays(all, name@, i + 1);
                }
                return Some(i);
            }
        }
        i += 1;
    }
    assert(all.take(i as int) =~= all);
    None
}

/// Rules behind the first offer do not change it.
proof fn lemma_offer_stays(rules: Seq<RuleView>, name: Seq<char>, n: int)
    requires
        0 <= n <= rules.len(),
        first_offer(rules.take(n), name) is Some,
    ensures
        first_offer(rules, name) == first_offer(rules.take(n), name),
    decreases rules.len(),
{
    if n == rules.len() {
        assert(rules.take(n) =~= rules);
    } else {
        assert(rules.drop_last().take(n) =~= rules.take(n));
        lemma_offer_stays(rules.drop_last(), name, n);
    }
}

/// The names stay distinct in lower case.
pub open spec fn distinct_in_lower_case(models: Seq<ModelEntryView>) -> bool {
    forall|i: int, j: int|
        0 <= i < j < models.len() ==> lowercase((#[trigger] models[i]).name) != lowercase(
            (#[trigger] models[j]).name,
        )
}

/// Where no name stands in the table twice, in lower case either, it does not
/// matter which entry counts among several: the configuration under the name of
/// an entry is that of the entry, and so is the rule.
pub proof fn every_entry_counts(models: Seq<ModelEntryView>, k: int)
    requires
        0 <= k < models.len(),
        distinct_in_lower_case(models),
    ensures
        distinct_names(models),
        configured(models, models[k].name) == Some(models[k].config),
        rule_for(rules_of(models), lowercase(models[k].name)) == Some(rule_of(models[k])),
{
    assert forall|i: int, j: int| 0 <= i < j < models.len() implies (#[trigger] models[i]).name
        != (#[trigger] models[j]).name by {
        assert(lowercase(models[i].name) != lowercase(models[j].name));
    }
    lemma_configured(models, models[k].name);
    let rules = rules_of(models);
    lemma_rule_for(rules, lowercase(models[k].name));
    assert(rules[k] == rule_of(models[k]));
    match rule_for(rules, lowercase(models[k].name)) {
        Some(rule) => {
            let i = choose|i: int| 0 <= i < rules.len() && #[trigger] rules[i] == rule;
            assert(rules[i] == rule_of(models[i]));
            if i != k {
                assert(lowercase(models[i].name) == lowercase(models[k].name));
            }
        },
        None => {},
    }
}

/// The rule for a name is one of the rules.
pub proof fn lemma_rule_for(rules: Seq<RuleView>, name: Seq<char>)
    ensures
        match rule_for(rules, name) {
            Some(rule) => rule.name == name && exists|i: int|
                0 <= i < rules.len() && #[trigger] rules[i] == rule,
            None => forall|i: int| 0 <= i < rules.len() ==> (#[trigger] rules[i]).name != name,
        },
    decreases rules.len(),
{
    if rules.len() > 0 {
        let before = rules.drop_last();
        lemma_rule_for(before, name);
        assert forall|i: int| 0 <= i < before.len() implies #[trigger] rules[i] == before[i] by {}
        if rules.last().name == name {
            assert(rules[rules.len() - 1] == rules.last());
        } else if let Some(rule) = rule_for(before, name) {
            let i = choose|i: int| 0 <= i < before.len() && #[trigger] before[i] == rule;
            assert(rules[i] == rule);
        }
    }
}

/// Whether the configuration is in force.
pub open spec fn in_force(config: ConfigView) -> bool {
    config.enable == Some(true)
}

/// Tells whether the configuration is in force.
pub fn is_enabled(config: &Config) -> (b: bool)
    ensures
        b == in_force(config@),
{
    config.enable.unwrap_or(false)
}

/// The name that the client sees and the name of the model at Poe. A model that
/// is offered under the requested name, upper and lower case being the same, is
/// asked for under its own; else, and where the configuration is not in force,
/// the requested name is used.
pub open spec fn resolved(config: ConfigView, requested: Seq<char>) -> (Seq<char>, Seq<char>) {
    if in_force(config) {
        match first_offer(rules_of(config.models), lowercase(requested)) {
            Some(i) => (requested, config.models[i].name),
            None => (requested, requested),
        }
    } else {
        (requested, requested)
    }
}

/// Finds the name that the client sees and the name of the model at Poe.
pub fn resolve_model(config: &Config, requested: &str) -> (r: (String, String))
    ensures
        (r.0@, r.1@) == resolved(config@, requested@),
{
    if is_enabled(config) {
        let rules = make_rules(&config.models);
        let wanted = to_lowercase(requested);
        if let Some(i) = find_offer(&rules, &wanted) {
            assert(views(rules@).len() == config.models@.len());
            assert(config@.models[i as int] == config.models@[i as int]@);
            return (requested.to_owned(), config.models[i].name.clone());
        }
    }
    (requested.to_owned(), requested.to_owned())
}

/// The client always sees the name that it asked for.
pub proof fn client_sees_requested_name(config: ConfigView, requested: Seq<char>)
    ensures
        resolved(config, requested).0 == requested,
{
}

/// A model that is asked for under another name than the requested one is in
/// the table, and is offered under the requested name.
pub proof fn renamed_model_is_configured(config: ConfigView, requested: Seq<char>)
    requires
        resolved(config, requested).1 != requested,
    ensures
        in_force(config),
        exists|i: int|
            0 <= i < config.models.len() && (#[trigger] config.models[i]).name == resolved(
                config,
                requested,
            ).1 && (config.models[i].config.mapping matches Some(m) && lowercase(m) == lowercase(
                requested,
            )),
{
    let rules = rules_of(config.models);
    lemma_first_offer(rules, lowercase(requested));
    let i = first_offer(rules, lowercase(requested)).unwrap();
    assert(rules[i] == rule_of(config.models[i]));
}

/// A model that is offered under a name can be asked for under that name: the
/// request goes to a model of the table that is offered under it.
pub proof fn offered_names_are_understood(config: ConfigView, k: int)
    requires
        in_force(config),
        0 <= k < config.models.len(),
        config.models[k].config.mapping is Some,
    ensures
        ({
            let name = config.models[k].config.mapping.unwrap();
            exists|i: int|
                0 <= i <= k && (#[trigger] config.models[i]).name == resolved(config, name).1 && (
                config.models[i].config.mapping matches Some(m) && lowercase(m) == lowercase(name))
        }),
{
    let rules = rules_of(config.models);
    let name = config.models[k].config.mapping.unwrap();
    assert(rules[k] == rule_of(config.models[k]));
    assert(rules.take(k + 1).last() == rules[k]);
    assert(first_offer(rules.take(k + 1), lowercase(name)) is Some);
    lemma_offer_stays(rules, lowercase(name), k + 1);
    lemma_first_offer(rules.take(k + 1), lowercase(name));
    let i = first_offer(rules, lowercase(name)).unwrap();
    assert(rules[i] == rule_of(config.models[i]));
}

} // verus!
