//! What holds of every change of DeepSeek Harness's settings.

use vstd::prelude::*;
use crate::dsh;
use crate::error::Fault;
use crate::json::JsonTree;
use crate::paths;
use crate::section_laws;
use crate::sections;
use crate::text;
use crate::yaml;
use crate::yaml::YamlTree;

verus! {

/// A provider in the section of the providers.
pub open spec fn provider_in(section: YamlTree, id: Seq<char>) -> Option<YamlTree> {
    match yaml::member(section, dsh::PROVIDERS_KEY@) {
        Some(providers) => yaml::member(providers, id),
        None => None,
    }
}

/// A provider in the settings.
pub open spec fn provider_of(settings: YamlTree, id: Seq<char>) -> Option<YamlTree> {
    match yaml::member(settings, dsh::PROVIDERS_SECTION@) {
        Some(section) => provider_in(section, id),
        None => None,
    }
}

proof fn lemma_entry_put(
    entries: Seq<(YamlTree, YamlTree)>,
    key: Seq<char>,
    value: YamlTree,
    other: Seq<char>,
)
    ensures
        yaml::entry(yaml::put(entries, key, value), other) == if other == key {
            Some(value)
        } else {
            yaml::entry(entries, other)
        },
{
    let after = yaml::put(entries, key, value);
    yaml::lemma_key_from(entries, key, 0);
    yaml::lemma_key_from(entries, other, 0);
    yaml::lemma_key_from(after, other, 0);
    let before_at = yaml::key_from(entries, other, 0);
    let after_at = yaml::key_from(after, other, 0);
    assert forall|k: int| 0 <= k < entries.len() implies (#[trigger] after[k]).0 == entries[k].0 by {}
    if other == key {
        match before_at {
            Some(i) => {
                assert(after[i].0 == YamlTree::Text(other));
                if after_at is Some && after_at->0 < i {
                    assert(entries[after_at->0].0 == after[after_at->0].0);
                }
            },
            None => {
                assert(after[entries.len() as int].0 == YamlTree::Text(other));
                if after_at is Some && after_at->0 < entries.len() {
                    assert(entries[after_at->0].0 == after[after_at->0].0);
                }
            },
        }
    } else {
        match before_at {
            Some(i) => {
                assert(after[i].0 == YamlTree::Text(other));
                if after_at is Some && after_at->0 < i {
                    assert(entries[after_at->0].0 == after[after_at->0].0);
                }
                assert(after_at == Some(i));
            },
            None => {
                if let Some(j) = after_at {
                    if j < entries.len() {
                        assert(entries[j].0 == after[j].0);
                    }
                }
            },
        }
    }
}

proof fn lemma_untagged_with(tree: YamlTree, entries: Seq<(YamlTree, YamlTree)>)
    ensures
        yaml::untagged(yaml::with_entries(tree, entries)) == YamlTree::Mapping(entries),
    decreases tree,
{
    if let YamlTree::Tagged(tag, inner) = tree {
        lemma_untagged_with(*inner, entries);
    }
}

/// A provider that was put in is read back, and every other provider is as it
/// was.
pub proof fn law_set_provider_reads_back(
    settings: YamlTree,
    id: Seq<char>,
    value: YamlTree,
    other: Seq<char>,
)
    requires
        dsh::upserted(settings, id, Ok(value)) is Ok,
    ensures
        provider_in(dsh::upserted(settings, id, Ok(value))->Ok_0, other) == if other == id {
            Some(
                match provider_of(settings, id) {
                    Some(existing) => dsh::merged(existing, value),
                    None => value,
                },
            )
        } else {
            provider_of(settings, other)
        },
{
    let root = yaml::entries_of(settings)->0;
    let section = dsh::entry_or_empty(root, dsh::PROVIDERS_SECTION@);
    let pi = yaml::entries_of(section)->0;
    let providers = dsh::entry_or_empty(pi, dsh::PROVIDERS_KEY@);
    let list = yaml::entries_of(providers)->0;
    let provider = match yaml::entry(list, id) {
        Some(existing) => dsh::merged(existing, value),
        None => value,
    };
    let list_after = yaml::put(list, id, provider);
    let providers_after = yaml::with_entries(providers, list_after);
    let pi_after = yaml::put(pi, dsh::PROVIDERS_KEY@, providers_after);
    lemma_untagged_with(section, pi_after);
    lemma_entry_put(pi, dsh::PROVIDERS_KEY@, providers_after, dsh::PROVIDERS_KEY@);
    lemma_untagged_with(providers, list_after);
    lemma_entry_put(list, id, provider, other);
    assert(yaml::key_from(Seq::<(YamlTree, YamlTree)>::empty(), other, 0) is None);
    assert(yaml::key_from(Seq::<(YamlTree, YamlTree)>::empty(), dsh::PROVIDERS_KEY@, 0) is None);
    assert(yaml::key_from(Seq::<(YamlTree, YamlTree)>::empty(), id, 0) is None);
}

proof fn lemma_filled_has(
    incoming: Seq<(YamlTree, YamlTree)>,
    existing: Seq<(YamlTree, YamlTree)>,
    key: Seq<char>,
)
    ensures
        yaml::entry(dsh::filled(incoming, existing), key) == match yaml::entry(incoming, key) {
            Some(value) => Some(value),
            None => yaml::entry(existing, key),
        },
    decreases existing.len(),
{
    if existing.len() > 0 {
        let fewer = existing.drop_last();
        lemma_filled_has(incoming, fewer, key);
        let rest = dsh::filled(incoming, fewer);
        let all = dsh::filled(incoming, existing);
        let last = existing.last();
        yaml::lemma_key_from(rest, key, 0);
        yaml::lemma_key_from(all, key, 0);
        yaml::lemma_key_from(existing, key, 0);
        yaml::lemma_key_from(fewer, key, 0);
        assert forall|k: int| 0 <= k < fewer.len() implies fewer[k] == #[trigger] existing[k] by {}
        assert forall|k: int| 0 <= k < rest.len() implies rest[k] == #[trigger] all[k] by {}
        match yaml::key_from(rest, key, 0) {
            Some(i) => {
                assert(all[i] == rest[i]);
                let j = yaml::key_from(all, key, 0)->0;
                if j < i {
                    assert(rest[j] == all[j]);
                }
                if yaml::entry(incoming, key) is None {
                    let a = yaml::key_from(fewer, key, 0)->0;
                    assert(existing[a] == fewer[a]);
                    let b = yaml::key_from(existing, key, 0)->0;
                    if b < a {
                        assert(existing[b] == fewer[b]);
                    }
                }
            },
            None => {
                assert(yaml::entry(fewer, key) is None);
                if last.0 == YamlTree::Text(key) {
                    assert(yaml::lacks(rest, last.0)) by {
                        assert forall|i: int| 0 <= i < rest.len() implies !yaml::same_key(
                            (#[trigger] rest[i]).0,
                            last.0,
                        ) by {
                            assert(rest[i].0 != YamlTree::Text(key));
                        }
                    }
                    assert(all[rest.len() as int] == last);
                    let j = yaml::key_from(all, key, 0)->0;
                    if j < rest.len() {
                        assert(rest[j] == all[j]);
                    }
                    assert(existing[existing.len() - 1] == last);
                    let b = yaml::key_from(existing, key, 0)->0;
                    if b < fewer.len() {
                        assert(existing[b] == fewer[b]);
                    }
                } else {
                    if let Some(j) = yaml::key_from(all, key, 0) {
                        if j < rest.len() {
                            assert(rest[j] == all[j]);
                        }
                    }
                    if let Some(b) = yaml::key_from(existing, key, 0) {
                        if b < fewer.len() {
                            assert(existing[b] == fewer[b]);
                        }
                    }
                }
            },
        }
    }
}

/// A provider that is put in over another has its own fields, and those of
/// the other that it does not mention.
pub proof fn law_unmentioned_fields_are_kept(
    existing: YamlTree,
    incoming: Seq<(YamlTree, YamlTree)>,
    field: Seq<char>,
)
    ensures
        yaml::member(dsh::merged(existing, YamlTree::Mapping(incoming)), field)
            == match yaml::member(YamlTree::Mapping(incoming), field) {
            Some(value) => Some(value),
            None => yaml::member(existing, field),
        },
{
    if let Some(entries) = yaml::entries_of(existing) {
        lemma_filled_has(incoming, entries, field);
    }
}

proof fn lemma_unique(entries: Seq<(YamlTree, YamlTree)>, key: Seq<char>, i: int)
    requires
        yaml::distinct_keys(entries),
        0 <= i < entries.len(),
        entries[i].0 == YamlTree::Text(key),
    ensures
        yaml::key_from(entries, key, 0) == Some(i),
{
    yaml::lemma_key_from(entries, key, 0);
    let j = yaml::key_from(entries, key, 0)->0;
    if j != i {
        assert(yaml::same_key(entries[j].0, entries[i].0));
    }
}

/// Entries that no mapping would refuse.
pub open spec fn sound_entries(entries: Seq<(YamlTree, YamlTree)>) -> bool {
    &&& yaml::distinct_keys(entries)
    &&& forall|i: int|
        0 <= i < entries.len() ==> yaml::sound((#[trigger] entries[i]).0) && yaml::sound(
            entries[i].1,
        )
}

proof fn lemma_swap_removed(entries: Seq<(YamlTree, YamlTree)>, i: int)
    requires
        sound_entries(entries),
        0 <= i < entries.len(),
    ensures
        sound_entries(yaml::swap_removed(entries, i)),
{
    let fewer = yaml::swap_removed(entries, i);
    let last = entries.len() - 1;
    assert forall|a: int| 0 <= a < fewer.len() implies #[trigger] fewer[a] == if a == i {
        entries[last]
    } else {
        entries[a]
    } by {}
    assert forall|a: int, b: int|
        0 <= a < fewer.len() && 0 <= b < fewer.len() && a != b implies !yaml::same_key(
        (#[trigger] fewer[a]).0,
        (#[trigger] fewer[b]).0,
    ) by {
        let x = if a == i {
            last
        } else {
            a
        };
        let y = if b == i {
            last
        } else {
            b
        };
        assert(!yaml::same_key(entries[x].0, entries[y].0));
    }
    assert forall|a: int| 0 <= a < fewer.len() implies yaml::sound((#[trigger] fewer[a]).0)
        && yaml::sound(fewer[a].1) by {
        let x = if a == i {
            last
        } else {
            a
        };
        assert(yaml::sound(entries[x].0));
    }
}

proof fn lemma_entry_removed(entries: Seq<(YamlTree, YamlTree)>, i: int, key: Seq<char>, other: Seq<char>)
    requires
        sound_entries(entries),
        yaml::key_from(entries, key, 0) == Some(i),
    ensures
        yaml::entry(yaml::swap_removed(entries, i), other) == if other == key {
            None
        } else {
            yaml::entry(entries, other)
        },
{
    yaml::lemma_key_from(entries, key, 0);
    yaml::lemma_key_from(entries, other, 0);
    lemma_swap_removed(entries, i);
    let fewer = yaml::swap_removed(entries, i);
    let last = entries.len() - 1;
    yaml::lemma_key_from(fewer, other, 0);
    assert forall|a: int| 0 <= a < fewer.len() implies #[trigger] fewer[a] == if a == i {
        entries[last]
    } else {
        entries[a]
    } by {}
    match yaml::key_from(fewer, other, 0) {
        Some(a) => {
            let x = if a == i {
                last
            } else {
                a
            };
            assert(entries[x].0 == YamlTree::Text(other));
            lemma_unique(entries, other, x);
            if other == key {
                assert(x == i);
            }
        },
        None => {
            if other != key {
                if let Some(x) = yaml::key_from(entries, other, 0) {
                    let a = if x == last {
                        i
                    } else {
                        x
                    };
                    assert(x != i);
                    assert(fewer[a].0 == YamlTree::Text(other));
                }
            }
        },
    }
}

/// A provider that was removed is gone, and every other provider is as it was.
pub proof fn law_remove_drops_only_the_target(settings: YamlTree, id: Seq<char>, other: Seq<char>)
    requires
        yaml::sound(settings),
        dsh::without_provider(settings, id) is Some,
    ensures
        provider_in(dsh::without_provider(settings, id)->0, other) == if other == id {
            None
        } else {
            provider_of(settings, other)
        },
{
    let section = yaml::member(settings, dsh::PROVIDERS_SECTION@)->0;
    let providers = yaml::member(section, dsh::PROVIDERS_KEY@)->0;
    let pi = yaml::entries_of(section)->0;
    let list = yaml::entries_of(providers)->0;
    let i = yaml::key_from(list, id, 0)->0;
    lemma_member_sound(settings, dsh::PROVIDERS_SECTION@);
    lemma_member_sound(section, dsh::PROVIDERS_KEY@);
    lemma_untagged_sound(providers);
    lemma_entry_removed(list, i, id, other);
    let list_after = yaml::swap_removed(list, i);
    let providers_after = yaml::with_entries(providers, list_after);
    lemma_untagged_with(providers, list_after);
    let pi_after = yaml::put(pi, dsh::PROVIDERS_KEY@, providers_after);
    lemma_untagged_with(section, pi_after);
    lemma_entry_put(pi, dsh::PROVIDERS_KEY@, providers_after, dsh::PROVIDERS_KEY@);
}

proof fn lemma_untagged_sound(tree: YamlTree)
    requires
        yaml::sound(tree),
    ensures
        yaml::sound(yaml::untagged(tree)),
    decreases tree,
{
    if let YamlTree::Tagged(tag, inner) = tree {
        lemma_untagged_sound(*inner);
    }
}

proof fn lemma_member_sound(tree: YamlTree, key: Seq<char>)
    requires
        yaml::sound(tree),
    ensures
        yaml::member(tree, key) matches Some(value) ==> yaml::sound(value),
{
    lemma_untagged_sound(tree);
    if let YamlTree::Mapping(entries) = yaml::untagged(tree) {
        yaml::lemma_key_from(entries, key, 0);
    }
}

/// The provider and the model that were set are the ones in use, and every
/// other member of their section is as it was. Without a model the one in use
/// stays.
pub proof fn law_default_model_reads_back(
    settings: YamlTree,
    provider: Seq<char>,
    model: Option<Seq<char>>,
    other: Seq<char>,
)
    requires
        dsh::pointed(settings, provider, model) is Ok,
    ensures
        ({
            let section = dsh::pointed(settings, provider, model)->Ok_0;
            let before = dsh::entry_or_empty(
                yaml::entries_of(settings)->0,
                dsh::DEFAULT_MODEL_SECTION@,
            );
            &&& yaml::member_text(section, "provider"@) == Some(provider)
            &&& dsh::named_model(model) matches Some(name) ==> yaml::member_text(section, "model"@)
                == Some(name)
            &&& dsh::named_model(model) is None ==> yaml::member(section, "model"@) == yaml::member(
                before,
                "model"@,
            )
            &&& other != "provider"@ && other != "model"@ ==> yaml::member(section, other)
                == yaml::member(before, other)
        }),
{
    reveal_strlit("provider");
    reveal_strlit("model");
    assert("provider"@.len() == 8);
    assert("model"@.len() == 5);
    let before = dsh::entry_or_empty(yaml::entries_of(settings)->0, dsh::DEFAULT_MODEL_SECTION@);
    let entries = yaml::entries_of(before)->0;
    let chosen = yaml::put(entries, "provider"@, YamlTree::Text(provider));
    lemma_untagged_with(before, chosen);
    lemma_entry_put(entries, "provider"@, YamlTree::Text(provider), "provider"@);
    lemma_entry_put(entries, "provider"@, YamlTree::Text(provider), "model"@);
    lemma_entry_put(entries, "provider"@, YamlTree::Text(provider), other);
    if let Some(name) = dsh::named_model(model) {
        let both = yaml::put(chosen, "model"@, YamlTree::Text(name));
        lemma_untagged_with(before, both);
        lemma_entry_put(chosen, "model"@, YamlTree::Text(name), "provider"@);
        lemma_entry_put(chosen, "model"@, YamlTree::Text(name), "model"@);
        lemma_entry_put(chosen, "model"@, YamlTree::Text(name), other);
    }
}

/// Every change of the settings is to one section: all lines of other sections
/// stay as they are, character by character.
pub proof fn law_changes_keep_other_sections(
    raw: Seq<char>,
    id: Seq<char>,
    config: JsonTree,
    model: Option<Seq<char>>,
)
    ensures
        dsh::settings_with_provider(raw, id, config) matches Ok(changed)
            ==> section_laws::others_kept(raw, dsh::PROVIDERS_SECTION@, changed),
        dsh::settings_without_provider(raw, id) matches Ok(Some(changed))
            ==> section_laws::others_kept(raw, dsh::PROVIDERS_SECTION@, changed),
        dsh::settings_with_default(raw, id, model) matches Ok(changed)
            ==> section_laws::others_kept(raw, dsh::DEFAULT_MODEL_SECTION@, changed),
{
    assert forall|key: Seq<char>, section: Seq<char>| section_laws::others_kept(
        raw,
        key,
        #[trigger] sections::with_section(raw, key, section),
    ) by {
        section_laws::law_replacement_keeps_the_others(raw, key, section);
    }
}

/// A provider can be put in unless the settings, their section `llm-pi-ai` or
/// the `providers` in it are something else than a mapping, or the provider
/// cannot be written as YAML. The first of these that holds is named. What is
/// not there yet is made.
pub proof fn law_when_a_provider_can_be_put_in(
    settings: YamlTree,
    id: Seq<char>,
    incoming: Result<YamlTree, Seq<char>>,
)
    ensures
        yaml::entries_of(settings) is None ==> dsh::upserted(settings, id, incoming) == Err::<
            YamlTree,
            Fault,
        >(Fault::Config("DSH settings.yaml 顶层必须是映射"@)),
        yaml::entries_of(settings) is Some ==> match yaml::member(settings, "llm-pi-ai"@) {
            None => incoming is Ok ==> dsh::upserted(settings, id, incoming) is Ok,
            Some(section) => {
                &&& yaml::entries_of(section) is None ==> dsh::upserted(settings, id, incoming)
                    == Err::<YamlTree, Fault>(Fault::Config("DSH llm-pi-ai 配置必须是映射"@))
                &&& yaml::entries_of(section) is Some ==> match yaml::member(section, "providers"@) {
                    None => incoming is Ok ==> dsh::upserted(settings, id, incoming) is Ok,
                    Some(providers) => if yaml::entries_of(providers) is Some {
                        incoming is Ok ==> dsh::upserted(settings, id, incoming) is Ok
                    } else {
                        dsh::upserted(settings, id, incoming) == Err::<YamlTree, Fault>(
                            Fault::Config("DSH llm-pi-ai.providers 必须是映射"@),
                        )
                    },
                }
            },
        },
        dsh::upserted(settings, id, Ok(YamlTree::Null)) is Ok ==> (incoming matches Err(error)
            ==> dsh::upserted(settings, id, incoming) == Err::<YamlTree, Fault>(
            Fault::Config("DSH 配置转换为 YAML 失败: "@ + error),
        )),
{
}

/// All that stands in the section of the providers beside them is kept, when
/// a provider is put in and when one is removed.
pub proof fn law_rest_of_the_section_is_kept(
    settings: YamlTree,
    id: Seq<char>,
    value: YamlTree,
    other: Seq<char>,
)
    requires
        other != "providers"@,
    ensures
        dsh::upserted(settings, id, Ok(value)) matches Ok(section) ==> yaml::member(section, other)
            == match yaml::member(settings, "llm-pi-ai"@) {
            Some(before) => yaml::member(before, other),
            None => None,
        },
        dsh::without_provider(settings, id) matches Some(section) ==> yaml::member(section, other)
            == match yaml::member(settings, "llm-pi-ai"@) {
            Some(before) => yaml::member(before, other),
            None => None,
        },
{
    if dsh::upserted(settings, id, Ok(value)) is Ok {
        let root = yaml::entries_of(settings)->0;
        let section = dsh::entry_or_empty(root, dsh::PROVIDERS_SECTION@);
        let pi = yaml::entries_of(section)->0;
        let providers = dsh::entry_or_empty(pi, dsh::PROVIDERS_KEY@);
        let list = yaml::entries_of(providers)->0;
        let provider = match yaml::entry(list, id) {
            Some(existing) => dsh::merged(existing, value),
            None => value,
        };
        let changed = yaml::with_entries(providers, yaml::put(list, id, provider));
        lemma_untagged_with(section, yaml::put(pi, dsh::PROVIDERS_KEY@, changed));
        lemma_entry_put(pi, dsh::PROVIDERS_KEY@, changed, other);
    }
    if dsh::without_provider(settings, id) is Some {
        let section = yaml::member(settings, dsh::PROVIDERS_SECTION@)->0;
        let providers = yaml::member(section, dsh::PROVIDERS_KEY@)->0;
        let list = yaml::entries_of(providers)->0;
        let i = yaml::key_from(list, id, 0)->0;
        let changed = yaml::with_entries(providers, yaml::swap_removed(list, i));
        let pi = yaml::entries_of(section)->0;
        lemma_untagged_with(section, yaml::put(pi, dsh::PROVIDERS_KEY@, changed));
        lemma_entry_put(pi, dsh::PROVIDERS_KEY@, changed, other);
    }
}

/// There is a provider to remove where the settings have it, and not
/// otherwise.
pub proof fn law_known_providers_can_be_removed(settings: YamlTree, id: Seq<char>)
    ensures
        dsh::without_provider(settings, id) is Some <==> match yaml::member(
            settings,
            "llm-pi-ai"@,
        ) {
            Some(section) => match yaml::member(section, "providers"@) {
                Some(providers) => yaml::member(providers, id) is Some,
                None => false,
            },
            None => false,
        },
{
}

/// What is no mapping takes the place of what was there, and a mapping that of
/// what is none.
pub proof fn law_other_values_take_the_place(existing: YamlTree, incoming: YamlTree)
    ensures
        !(incoming is Mapping) ==> dsh::merged(existing, incoming) == incoming,
        yaml::entries_of(existing) is None ==> dsh::merged(existing, incoming) == incoming,
{
}

/// A provider can be brought into use unless the settings or their section
/// `agent-default-model` are something else than a mapping.
pub proof fn law_when_a_provider_can_be_used(
    settings: YamlTree,
    provider: Seq<char>,
    model: Option<Seq<char>>,
)
    ensures
        yaml::entries_of(settings) is None ==> dsh::pointed(settings, provider, model) == Err::<
            YamlTree,
            Fault,
        >(Fault::Config("DSH settings.yaml 顶层必须是映射"@)),
        yaml::entries_of(settings) is Some ==> match yaml::member(
            settings,
            "agent-default-model"@,
        ) {
            None => dsh::pointed(settings, provider, model) is Ok,
            Some(section) => if yaml::entries_of(section) is Some {
                dsh::pointed(settings, provider, model) is Ok
            } else {
                dsh::pointed(settings, provider, model) == Err::<YamlTree, Fault>(
                    Fault::Config("DSH agent-default-model 必须是映射"@),
                )
            },
        },
{
}

/// The provider and the model in use are those that the section
/// `agent-default-model` names; without a provider none is in use, and without
/// a model its name is empty.
pub proof fn law_model_in_use_is_named(settings: YamlTree, section: YamlTree)
    ensures
        yaml::member(settings, "agent-default-model"@) is None ==> dsh::default_model(settings)
            is None,
        yaml::member(settings, "agent-default-model"@) == Some(section) ==> {
            &&& yaml::member_text(section, "provider"@) is None ==> dsh::default_model(settings)
                is None
            &&& yaml::member_text(section, "provider"@) matches Some(provider) ==> match (
                dsh::default_model(settings)
            ) {
                Some(used) => used.0 == provider && match yaml::member_text(section, "model"@) {
                    Some(model) => used.1 == model,
                    None => used.1.len() == 0,
                },
                None => false,
            }
        },
{
    reveal_strlit("");
}

/// The name of a model counts unless it is blank, without the blanks around
/// it.
pub proof fn law_blank_models_are_none(model: Seq<char>)
    ensures
        dsh::named_model(None) is None,
        text::blank(model) ==> dsh::named_model(Some(model)) is None,
        !text::blank(model) ==> dsh::named_model(Some(model)) == Some(text::trimmed(model)),
{
}

/// The model of a provider is looked for in its list `models`, under `id`.
pub proof fn law_first_model_of_a_provider(config: JsonTree, models: Seq<JsonTree>, k: int)
    requires
        config.get("models"@) == Some(JsonTree::Array(models)),
        0 <= k < models.len(),
        forall|j: int|
            0 <= j < k ==> match (#[trigger] models[j]).get_text("id"@) {
                Some(id) => text::blank(id),
                None => true,
            },
    ensures
        models[k].get_text("id"@) matches Some(id) ==> (!text::blank(id) ==> dsh::first_model(config)
            == Some(text::trimmed(id))),
{
    dsh::law_first_model_is_the_first_named(models, 0);
    if let Some(id) = models[k].get_text("id"@) {
        if !text::blank(id) {
            assert(dsh::named_model(models[k].get_text("id"@)) == Some(text::trimmed(id)));
            let name = dsh::first_model(config)->0;
            let w = choose|w: int|
                0 <= w < models.len() && #[trigger] dsh::named_model(models[w].get_text("id"@))
                    == Some(name) && forall|j: int|
                    0 <= j < w ==> #[trigger] dsh::named_model(models[j].get_text("id"@)) is None;
            if w < k {
                assert(models[w].get_text("id"@) is Some);
            }
            assert(w == k);
        }
    }
}

/// A provider without a list of models has none.
pub proof fn law_provider_without_models(config: JsonTree)
    requires
        match config.get("models"@) {
            Some(JsonTree::Array(models)) => forall|j: int|
                0 <= j < models.len() ==> match (#[trigger] models[j]).get_text("id"@) {
                    Some(id) => text::blank(id),
                    None => true,
                },
            _ => true,
        },
    ensures
        dsh::first_model(config) is None,
{
    if let Some(JsonTree::Array(models)) = config.get("models"@) {
        dsh::law_first_model_is_the_first_named(models, 0);
        if dsh::first_model(config) is Some {
            let name = dsh::first_model(config)->0;
            let w = choose|w: int|
                0 <= w < models.len() && #[trigger] dsh::named_model(models[w].get_text("id"@))
                    == Some(name);
            assert(models[w].get_text("id"@) is Some);
        }
    }
}

/// The settings are in the directory that was chosen, or else in the one that
/// the environment names, or else in `.dsh` at home.
pub proof fn law_where_the_settings_are(
    chosen: Seq<char>,
    environment: Option<Seq<char>>,
    value: Seq<char>,
    home: Seq<char>,
)
    ensures
        dsh::dsh_dir(Some(chosen), environment, home) == chosen,
        !text::blank(value) ==> dsh::dsh_dir(None, Some(value), home) == text::trimmed(value),
        text::blank(value) ==> dsh::dsh_dir(None, Some(value), home) == paths::inside(
            home,
            ".dsh"@,
        ),
        dsh::dsh_dir(None, None, home) == paths::inside(home, ".dsh"@),
{
}

/// Blank settings hold nothing; others are the document that they are as YAML,
/// and none where they are no YAML.
pub proof fn law_settings_are_their_document(raw: Seq<char>)
    ensures
        text::blank(raw) ==> dsh::settings_of(raw) == Ok::<YamlTree, Fault>(
            YamlTree::Mapping(Seq::empty()),
        ),
        !text::blank(raw) ==> match yaml::parsed_yaml(raw) {
            Ok(tree) => dsh::settings_of(raw) == Ok::<YamlTree, Fault>(tree),
            Err(error) => dsh::settings_of(raw) == Err::<YamlTree, Fault>(
                Fault::Config("DSH settings.yaml 解析失败: "@ + error),
            ),
        },
{
}

/// A change of the settings writes the changed section, under its key, in the
/// place of the old one.
pub proof fn law_changed_section_is_written(
    raw: Seq<char>,
    settings: YamlTree,
    id: Seq<char>,
    config: JsonTree,
    value: YamlTree,
    model: Option<Seq<char>>,
    section: YamlTree,
    written: Seq<char>,
)
    requires
        dsh::settings_of(raw) == Ok::<YamlTree, Fault>(settings),
        yaml::yaml_from_json(config) == Ok::<YamlTree, Seq<char>>(value),
    ensures
        dsh::upserted(settings, id, Ok(value)) == Ok::<YamlTree, Fault>(section) && yaml::yaml_text(
            YamlTree::Mapping(seq![(YamlTree::Text("llm-pi-ai"@), section)]),
        ) == Ok::<Seq<char>, Seq<char>>(written) ==> dsh::settings_with_provider(raw, id, config)
            == Ok::<Seq<char>, Fault>(sections::with_section(raw, "llm-pi-ai"@, written)),
        dsh::without_provider(settings, id) == Some(section) && yaml::yaml_text(
            YamlTree::Mapping(seq![(YamlTree::Text("llm-pi-ai"@), section)]),
        ) == Ok::<Seq<char>, Seq<char>>(written) ==> dsh::settings_without_provider(raw, id) == Ok::<
            Option<Seq<char>>,
            Fault,
        >(Some(sections::with_section(raw, "llm-pi-ai"@, written))),
        dsh::without_provider(settings, id) is None ==> dsh::settings_without_provider(raw, id)
            == Ok::<Option<Seq<char>>, Fault>(None),
        dsh::pointed(settings, id, model) == Ok::<YamlTree, Fault>(section) && yaml::yaml_text(
            YamlTree::Mapping(seq![(YamlTree::Text("agent-default-model"@), section)]),
        ) == Ok::<Seq<char>, Seq<char>>(written) ==> dsh::settings_with_default(raw, id, model)
            == Ok::<Seq<char>, Fault>(sections::with_section(raw, "agent-default-model"@, written)),
{
}

/// What keeps the settings from being changed is what is wrong with them, with
/// the change, or with writing it.
pub proof fn law_why_settings_are_not_changed(
    raw: Seq<char>,
    id: Seq<char>,
    config: JsonTree,
    model: Option<Seq<char>>,
    section: YamlTree,
    key: Seq<char>,
    error: Seq<char>,
)
    ensures
        match dsh::settings_of(raw) {
            Err(fault) => {
                &&& dsh::settings_with_provider(raw, id, config) == Err::<Seq<char>, Fault>(fault)
                &&& dsh::settings_without_provider(raw, id) == Err::<Option<Seq<char>>, Fault>(fault)
                &&& dsh::settings_with_default(raw, id, model) == Err::<Seq<char>, Fault>(fault)
            },
            Ok(settings) => {
                &&& dsh::upserted(settings, id, yaml::yaml_from_json(config)) matches Err(fault)
                    ==> dsh::settings_with_provider(raw, id, config) == Err::<Seq<char>, Fault>(
                    fault,
                )
                &&& dsh::pointed(settings, id, model) matches Err(fault)
                    ==> dsh::settings_with_default(raw, id, model) == Err::<Seq<char>, Fault>(fault)
            },
        },
        dsh::written_section(raw, key, Err(error)) == Err::<Seq<char>, Fault>(
            Fault::Config("DSH 配置序列化失败: "@ + error),
        ),
{
}

/// The providers that are listed are the members of the `providers` of the
/// settings; there are none where there are no such members.
pub proof fn law_listed_providers_are_those_of_the_settings(
    raw: Seq<char>,
    section: YamlTree,
    providers: YamlTree,
    members: Seq<(Seq<char>, JsonTree)>,
)
    ensures
        match dsh::settings_of(raw) {
            Err(fault) => dsh::providers_of(raw) == Err::<Seq<(Seq<char>, JsonTree)>, Fault>(fault),
            Ok(settings) => {
                &&& yaml::member(settings, "llm-pi-ai"@) is None ==> dsh::providers_of(raw) == Ok::<
                    Seq<(Seq<char>, JsonTree)>,
                    Fault,
                >(Seq::empty())
                &&& yaml::member(settings, "llm-pi-ai"@) == Some(section) ==> {
                    &&& yaml::member(section, "providers"@) is None ==> dsh::providers_of(raw)
                        == Ok::<Seq<(Seq<char>, JsonTree)>, Fault>(Seq::empty())
                    &&& yaml::member(section, "providers"@) == Some(providers) ==> {
                        &&& yaml::json_from_yaml(providers) == Ok::<JsonTree, Seq<char>>(
                            JsonTree::Object(members),
                        ) ==> dsh::providers_of(raw) == Ok::<Seq<(Seq<char>, JsonTree)>, Fault>(
                            members,
                        )
                        &&& yaml::json_from_yaml(providers) matches Err(error)
                            ==> dsh::providers_of(raw) == Err::<Seq<(Seq<char>, JsonTree)>, Fault>(
                            Fault::Config("DSH 配置转换为 JSON 失败: "@ + error),
                        )
                    }
                }
            },
        },
{
}

} // verus!
