//! The settings of DeepSeek Harness.
//!
//! Providers stand under `llm-pi-ai.providers`, and the provider and the model
//! in use under `agent-default-model`. A change puts a new text in the place
//! of the one section that it is about.

use vstd::prelude::*;
use crate::error::{AppError, Fault};
use crate::json;
use crate::json::{Json, JsonTree};
use crate::paths;
use crate::sections;
use crate::text;
use crate::yaml;
use crate::yaml::{YamlShape, YamlTree};

verus! {

pub const PROVIDERS_SECTION: &'static str = "llm-pi-ai";

pub const PROVIDERS_KEY: &'static str = "providers";

pub const DEFAULT_MODEL_SECTION: &'static str = "agent-default-model";

pub const SETTINGS_FILENAME: &'static str = "settings.yaml";

/// The directory of the settings: the one that was chosen, the one that the
/// environment names, or the one in the home directory.
pub open spec fn dsh_dir(
    chosen: Option<Seq<char>>,
    environment: Option<Seq<char>>,
    home: Seq<char>,
) -> Seq<char> {
    match (chosen, environment) {
        (Some(dir), _) => dir,
        (None, Some(value)) if !text::blank(value) => text::trimmed(value),
        _ => paths::inside(home, ".dsh"@),
    }
}

/// The directory of the settings.
pub fn get_dsh_dir(chosen: Option<&str>, environment: Option<&str>, home: &str) -> (r: String)
    ensures
        r@ == dsh_dir(json::opt_str(chosen), json::opt_str(environment), home@),
{
    if let Some(dir) = chosen {
        return dir.to_owned();
    }
    if let Some(value) = environment {
        let trimmed = text::trim(value);
        if !trimmed.as_str().is_empty() {
            return trimmed;
        }
    }
    paths::join_path(home, ".dsh")
}

/// The file of the settings in their directory.
pub fn get_dsh_settings_path(dir: &str) -> (r: String)
    ensures
        r@ == paths::inside(dir@, SETTINGS_FILENAME@),
{
    paths::join_path(dir, SETTINGS_FILENAME)
}

/// The document of the settings. A blank text has none of them.
pub open spec fn settings_of(raw: Seq<char>) -> Result<YamlTree, Fault> {
    if text::blank(raw) {
        Ok(YamlTree::Mapping(Seq::empty()))
    } else {
        match yaml::parsed_yaml(raw) {
            Ok(tree) => Ok(tree),
            Err(error) => Err(Fault::Config("DSH settings.yaml 解析失败: "@ + error)),
        }
    }
}

/// The document of the settings.
pub fn parse_settings(raw: &str) -> (r: Result<serde_yaml::Value, AppError>)
    ensures
        match r {
            Ok(settings) => settings_of(raw@) == Ok::<YamlTree, Fault>(yaml::yaml_content(settings))
                && yaml::sound(yaml::yaml_content(settings)),
            Err(error) => settings_of(raw@) == Err::<YamlTree, Fault>(error@),
        },
{
    if text::is_blank(raw) {
        return Ok(empty_mapping());
    }
    match yaml::parse_yaml(raw) {
        Ok(settings) => Ok(settings),
        Err(error) => Err(
            AppError::Config(text::joined("DSH settings.yaml 解析失败: ", error.as_str())),
        ),
    }
}

/// Takes what stands under a key out of a mapping. The key keeps its place.
fn take_member(mapping: &mut serde_yaml::Mapping, key: &str) -> (r: Option<serde_yaml::Value>)
    ensures
        match r {
            Some(value) => {
                &&& yaml::entry(yaml::mapping_content(*old(mapping)), key@) == Some(
                    yaml::yaml_content(value),
                )
                &&& yaml::mapping_content(*final(mapping)) == yaml::put(
                    yaml::mapping_content(*old(mapping)),
                    key@,
                    YamlTree::Null,
                )
            },
            None => {
                &&& yaml::entry(yaml::mapping_content(*old(mapping)), key@) is None
                &&& yaml::mapping_content(*final(mapping)) == yaml::mapping_content(*old(mapping))
            },
        },
{
    if yaml::mapping_member(mapping, key).is_none() {
        return None;
    }
    yaml::mapping_insert(
        mapping,
        yaml::text_value(key),
        yaml::yaml_assemble(YamlShape::Null),
    )
}

/// Entries with those of `existing` that they lack.
pub open spec fn filled(
    incoming: Seq<(YamlTree, YamlTree)>,
    existing: Seq<(YamlTree, YamlTree)>,
) -> Seq<(YamlTree, YamlTree)>
    decreases existing.len(),
{
    if existing.len() == 0 {
        incoming
    } else {
        let rest = filled(incoming, existing.drop_last());
        if yaml::lacks(rest, existing.last().0) {
            rest.push(existing.last())
        } else {
            rest
        }
    }
}

/// What comes in, with the fields that it does not mention as they are,
/// whatever the tags that they stand under.
pub open spec fn merged(existing: YamlTree, incoming: YamlTree) -> YamlTree {
    match (yaml::entries_of(existing), incoming) {
        (Some(old_entries), YamlTree::Mapping(new_entries)) => YamlTree::Mapping(
            filled(new_entries, old_entries),
        ),
        _ => incoming,
    }
}

/// What comes in, with the fields that it does not mention as they are.
fn merge_missing_fields(existing: &serde_yaml::Value, incoming: serde_yaml::Value) -> (r:
    serde_yaml::Value)
    ensures
        yaml::yaml_content(r) == merged(yaml::yaml_content(*existing), yaml::yaml_content(incoming)),
{
    let old_entries = match yaml::take_mapping(yaml::copy_value(existing)) {
        Some(parts) => yaml::mapping_entries(parts.1),
        None => return incoming,
    };
    let mut mapping = match yaml::yaml_shape(incoming) {
        YamlShape::Mapping(mapping) => mapping,
        other => return yaml::yaml_assemble(other),
    };
    let ghost start = yaml::mapping_content(mapping);
    let ghost given = yaml::entry_contents(old_entries@);
    let ghost all = old_entries@;
    assert(given.take(0) =~= Seq::<(YamlTree, YamlTree)>::empty());
    for entry in it: old_entries.into_iter()
        invariant
            it.seq() == all,
            given == yaml::entry_contents(all),
            yaml::mapping_content(mapping) == filled(start, given.take(it.index() as int)),
    {
        let ghost i = it.index() as int;
        proof {
            assert(given.take(i + 1).drop_last() =~= given.take(i));
            assert(given[i] == (yaml::yaml_content(entry.0), yaml::yaml_content(entry.1)));
        }
        if yaml::mapping_lacks(&mapping, &entry.0) {
            let _ = yaml::mapping_insert(&mut mapping, entry.0, entry.1);
        }
    }
    assert(given.take(given.len() as int) =~= given);
    yaml::yaml_assemble(YamlShape::Mapping(mapping))
}

/// What stands under a key of entries, or else an empty mapping.
pub open spec fn entry_or_empty(entries: Seq<(YamlTree, YamlTree)>, key: Seq<char>) -> YamlTree {
    match yaml::entry(entries, key) {
        Some(value) => value,
        None => YamlTree::Mapping(Seq::empty()),
    }
}

/// The section of the providers with one of them put in, or why it cannot be.
pub open spec fn upserted(
    settings: YamlTree,
    id: Seq<char>,
    incoming: Result<YamlTree, Seq<char>>,
) -> Result<YamlTree, Fault> {
    match yaml::entries_of(settings) {
        None => Err(Fault::Config("DSH settings.yaml 顶层必须是映射"@)),
        Some(root) => {
            let section = entry_or_empty(root, PROVIDERS_SECTION@);
            match yaml::entries_of(section) {
                None => Err(Fault::Config("DSH llm-pi-ai 配置必须是映射"@)),
                Some(pi) => {
                    let providers = entry_or_empty(pi, PROVIDERS_KEY@);
                    match yaml::entries_of(providers) {
                        None => Err(Fault::Config("DSH llm-pi-ai.providers 必须是映射"@)),
                        Some(list) => match incoming {
                            Err(error) => Err(
                                Fault::Config("DSH 配置转换为 YAML 失败: "@ + error),
                            ),
                            Ok(value) => {
                                let provider = match yaml::entry(list, id) {
                                    Some(existing) => merged(existing, value),
                                    None => value,
                                };
                                Ok(
                                    yaml::with_entries(
                                        section,
                                        yaml::put(
                                            pi,
                                            PROVIDERS_KEY@,
                                            yaml::with_entries(providers, yaml::put(list, id, provider)),
                                        ),
                                    ),
                                )
                            },
                        },
                    }
                },
            }
        },
    }
}

/// A value that is put under a key for a time leaves no trace.
proof fn lemma_put_again(
    before: Seq<(YamlTree, YamlTree)>,
    key: Seq<char>,
    first: YamlTree,
    value: YamlTree,
)
    requires
        yaml::key_from(before, key, 0) is Some,
    ensures
        yaml::put(yaml::put(before, key, first), key, value) == yaml::put(before, key, value),
{
    yaml::lemma_key_from(before, key, 0);
    let i = yaml::key_from(before, key, 0)->0;
    let after = yaml::put(before, key, first);
    yaml::lemma_key_from(after, key, 0);
    let j = yaml::key_from(after, key, 0)->0;
    assert(after[i].0 == YamlTree::Text(key));
    assert(j == i) by {
        if j < i {
            assert(after[j].0 == before[j].0);
        }
    }
    assert(yaml::put(after, key, value) =~= yaml::put(before, key, value));
}

/// An empty mapping.
fn empty_mapping() -> (r: serde_yaml::Value)
    ensures
        yaml::yaml_content(r) == YamlTree::Mapping(Seq::empty()),
{
    yaml::yaml_assemble(YamlShape::Mapping(yaml::new_mapping()))
}

/// The section of the providers with one of them put in. Its fields that the
/// new one does not mention are kept.
pub fn upsert_provider(
    settings: serde_yaml::Value,
    id: &str,
    incoming: Result<serde_yaml::Value, String>,
) -> (r: Result<serde_yaml::Value, AppError>)
    ensures
        match r {
            Ok(section) => upserted(yaml::yaml_content(settings), id@, yaml::yaml_result(incoming))
                == Ok::<YamlTree, Fault>(yaml::yaml_content(section)),
            Err(error) => upserted(yaml::yaml_content(settings), id@, yaml::yaml_result(incoming))
                == Err::<YamlTree, Fault>(error@),
        },
{
    let mut root = match yaml::take_mapping(settings) {
        Some(parts) => parts.1,
        None => return Err(AppError::Config("DSH settings.yaml 顶层必须是映射".to_owned())),
    };
    let section = match take_member(&mut root, PROVIDERS_SECTION) {
        Some(section) => section,
        None => empty_mapping(),
    };
    let (frame, mut pi) = match yaml::take_mapping(section) {
        Some(parts) => parts,
        None => return Err(AppError::Config("DSH llm-pi-ai 配置必须是映射".to_owned())),
    };
    let ghost pi_entries = yaml::mapping_content(pi);
    let providers = match take_member(&mut pi, PROVIDERS_KEY) {
        Some(providers) => providers,
        None => empty_mapping(),
    };
    let (inner_frame, mut list) = match yaml::take_mapping(providers) {
        Some(parts) => parts,
        None => return Err(AppError::Config("DSH llm-pi-ai.providers 必须是映射".to_owned())),
    };
    let value = match incoming {
        Ok(value) => value,
        Err(error) => return Err(
            AppError::Config(text::joined("DSH 配置转换为 YAML 失败: ", error.as_str())),
        ),
    };
    let provider = match yaml::mapping_member(&list, id) {
        Some(existing) => merge_missing_fields(existing, value),
        None => value,
    };
    let _ = yaml::mapping_insert(&mut list, yaml::text_value(id), provider);
    let providers_after = yaml::put_back(inner_frame, list);
    proof {
        if yaml::key_from(pi_entries, PROVIDERS_KEY@, 0) is Some {
            lemma_put_again(
                pi_entries,
                PROVIDERS_KEY@,
                YamlTree::Null,
                yaml::yaml_content(providers_after),
            );
        }
    }
    let _ = yaml::mapping_insert(&mut pi, yaml::text_value(PROVIDERS_KEY), providers_after);
    Ok(yaml::put_back(frame, pi))
}

/// A text with a section in the place of those of its key, or why it cannot
/// be written.
pub open spec fn written_section(
    raw: Seq<char>,
    key: Seq<char>,
    section: Result<Seq<char>, Seq<char>>,
) -> Result<Seq<char>, Fault> {
    match section {
        Ok(text) => Ok(sections::with_section(raw, key, text)),
        Err(error) => Err(Fault::Config("DSH 配置序列化失败: "@ + error)),
    }
}

/// A section as a document of its own.
pub open spec fn section_document(key: Seq<char>, value: YamlTree) -> YamlTree {
    YamlTree::Mapping(seq![(YamlTree::Text(key), value)])
}

/// The view of a text or a failure.
pub open spec fn written_result(r: Result<String, AppError>) -> Result<Seq<char>, Fault> {
    match r {
        Ok(text) => Ok(text@),
        Err(error) => Err(error@),
    }
}

/// A section as text.
fn serialize_section(key: &str, value: serde_yaml::Value) -> (r: Result<String, String>)
    ensures
        yaml::text_result(r) == yaml::yaml_text(section_document(key@, yaml::yaml_content(value))),
{
    let mut mapping = yaml::new_mapping();
    let _ = yaml::mapping_insert(&mut mapping, yaml::text_value(key), value);
    assert(yaml::mapping_content(mapping) =~= seq![(YamlTree::Text(key@), yaml::yaml_content(value))]);
    yaml::write_yaml(&yaml::yaml_assemble(YamlShape::Mapping(mapping)))
}

/// A text with a section in the place of those of its key.
pub fn place_section(raw: &str, key: &str, section: Result<String, String>) -> (r: Result<
    String,
    AppError,
>)
    ensures
        written_result(r) == written_section(raw@, key@, yaml::text_result(section)),
{
    match section {
        Ok(text) => Ok(sections::replace_section_text(raw, key, text.as_str())),
        Err(error) => Err(
            AppError::Config(text::joined("DSH 配置序列化失败: ", error.as_str())),
        ),
    }
}

/// A text with a document in the place of the sections of its key.
pub fn replace_section(raw: &str, key: &str, value: serde_yaml::Value) -> (r: Result<
    String,
    AppError,
>)
    ensures
        written_result(r) == written_section(
            raw@,
            key@,
            yaml::yaml_text(section_document(key@, yaml::yaml_content(value))),
        ),
{
    place_section(raw, key, serialize_section(key, value))
}

/// The text of the settings with a provider put in, or why it cannot be.
pub open spec fn settings_with_provider(raw: Seq<char>, id: Seq<char>, config: JsonTree) -> Result<
    Seq<char>,
    Fault,
> {
    match settings_of(raw) {
        Err(fault) => Err(fault),
        Ok(settings) => match upserted(settings, id, yaml::yaml_from_json(config)) {
            Err(fault) => Err(fault),
            Ok(section) => written_section(
                raw,
                PROVIDERS_SECTION@,
                yaml::yaml_text(section_document(PROVIDERS_SECTION@, section)),
            ),
        },
    }
}

/// The text of the settings with a provider put in. The fields of the provider
/// that `config` does not mention are kept.
pub fn set_provider(raw: &str, id: &str, config: &serde_json::Value) -> (r: Result<String, AppError>)
    ensures
        written_result(r) == settings_with_provider(raw@, id@, json::json_content(*config)),
{
    let settings = match parse_settings(raw) {
        Ok(settings) => settings,
        Err(error) => return Err(error),
    };
    let section = match upsert_provider(settings, id, yaml::convert_json(config)) {
        Ok(section) => section,
        Err(error) => return Err(error),
    };
    replace_section(raw, PROVIDERS_SECTION, section)
}

/// The section of the providers without one of them; nothing where there is
/// no such provider.
pub open spec fn without_provider(settings: YamlTree, id: Seq<char>) -> Option<YamlTree> {
    match yaml::member(settings, PROVIDERS_SECTION@) {
        None => None,
        Some(section) => match yaml::member(section, PROVIDERS_KEY@) {
            None => None,
            Some(providers) => match yaml::entries_of(providers) {
                None => None,
                Some(list) => match yaml::key_from(list, id, 0) {
                    None => None,
                    Some(i) => Some(
                        yaml::with_entries(
                            section,
                            yaml::put(
                                yaml::entries_of(section)->0,
                                PROVIDERS_KEY@,
                                yaml::with_entries(providers, yaml::swap_removed(list, i)),
                            ),
                        ),
                    ),
                },
            },
        },
    }
}

/// The section of the providers without one of them; nothing where there is
/// no such provider.
pub fn drop_provider(settings: serde_yaml::Value, id: &str) -> (r: Option<serde_yaml::Value>)
    ensures
        match r {
            Some(section) => without_provider(yaml::yaml_content(settings), id@) == Some(
                yaml::yaml_content(section),
            ),
            None => without_provider(yaml::yaml_content(settings), id@) is None,
        },
{
    let mut root = match yaml::take_mapping(settings) {
        Some(parts) => parts.1,
        None => return None,
    };
    let section = match take_member(&mut root, PROVIDERS_SECTION) {
        Some(section) => section,
        None => return None,
    };
    let (frame, mut pi) = match yaml::take_mapping(section) {
        Some(parts) => parts,
        None => return None,
    };
    let ghost pi_entries = yaml::mapping_content(pi);
    let providers = match take_member(&mut pi, PROVIDERS_KEY) {
        Some(providers) => providers,
        None => return None,
    };
    let (inner_frame, mut list) = match yaml::take_mapping(providers) {
        Some(parts) => parts,
        None => return None,
    };
    if yaml::mapping_remove(&mut list, id).is_none() {
        return None;
    }
    let providers_after = yaml::put_back(inner_frame, list);
    proof {
        lemma_put_again(
            pi_entries,
            PROVIDERS_KEY@,
            YamlTree::Null,
            yaml::yaml_content(providers_after),
        );
    }
    let _ = yaml::mapping_insert(&mut pi, yaml::text_value(PROVIDERS_KEY), providers_after);
    Some(yaml::put_back(frame, pi))
}

/// The text of the settings without a provider; nothing where there is no such
/// provider.
pub open spec fn settings_without_provider(raw: Seq<char>, id: Seq<char>) -> Result<
    Option<Seq<char>>,
    Fault,
> {
    match settings_of(raw) {
        Err(fault) => Err(fault),
        Ok(settings) => match without_provider(settings, id) {
            None => Ok(None),
            Some(section) => match written_section(
                raw,
                PROVIDERS_SECTION@,
                yaml::yaml_text(section_document(PROVIDERS_SECTION@, section)),
            ) {
                Ok(text) => Ok(Some(text)),
                Err(fault) => Err(fault),
            },
        },
    }
}

/// The text of the settings without a provider; nothing where there is no such
/// provider, and the settings stay as they are.
pub fn remove_provider(raw: &str, id: &str) -> (r: Result<Option<String>, AppError>)
    ensures
        match r {
            Ok(changed) => settings_without_provider(raw@, id@) == Ok::<Option<Seq<char>>, Fault>(
                text::opt_text(changed),
            ),
            Err(error) => settings_without_provider(raw@, id@) == Err::<Option<Seq<char>>, Fault>(
                error@,
            ),
        },
{
    let settings = match parse_settings(raw) {
        Ok(settings) => settings,
        Err(error) => return Err(error),
    };
    let section = match drop_provider(settings, id) {
        Some(section) => section,
        None => return Ok(None),
    };
    match replace_section(raw, PROVIDERS_SECTION, section) {
        Ok(text) => Ok(Some(text)),
        Err(error) => Err(error),
    }
}

/// The providers of the settings as a document, if there are any.
pub open spec fn providers_tree(settings: YamlTree) -> Option<YamlTree> {
    match yaml::member(settings, PROVIDERS_SECTION@) {
        Some(section) => yaml::member(section, PROVIDERS_KEY@),
        None => None,
    }
}

/// The members of a converted document, if it is an object.
pub open spec fn object_members(converted: Result<JsonTree, Seq<char>>) -> Result<
    Seq<(Seq<char>, JsonTree)>,
    Fault,
> {
    match converted {
        Ok(JsonTree::Object(members)) => Ok(members),
        Ok(_) => Ok(Seq::empty()),
        Err(error) => Err(Fault::Config("DSH 配置转换为 JSON 失败: "@ + error)),
    }
}

/// The providers of the settings, each under its id.
pub open spec fn providers_of(raw: Seq<char>) -> Result<Seq<(Seq<char>, JsonTree)>, Fault> {
    match settings_of(raw) {
        Err(fault) => Err(fault),
        Ok(settings) => match providers_tree(settings) {
            None => Ok(Seq::empty()),
            Some(tree) => object_members(yaml::json_from_yaml(tree)),
        },
    }
}

/// What members say.
pub open spec fn members_of(members: Seq<(String, Json)>) -> Seq<(Seq<char>, JsonTree)> {
    members.map_values(|m: (String, Json)| (m.0@, m.1@))
}

/// The members of a converted document, if it is an object.
pub fn members_from(converted: Result<Json, String>) -> (r: Result<Vec<(String, Json)>, AppError>)
    ensures
        match r {
            Ok(members) => object_members(json::json_result(converted)) == Ok::<
                Seq<(Seq<char>, JsonTree)>,
                Fault,
            >(members_of(members@)),
            Err(error) => object_members(json::json_result(converted)) == Err::<
                Seq<(Seq<char>, JsonTree)>,
                Fault,
            >(error@),
        },
{
    match converted {
        Ok(Json::Object(members)) => {
            assert(Json::Object(members)@->Object_0 =~= members_of(members@));
            Ok(members)
        },
        Ok(_) => {
            let none: Vec<(String, Json)> = Vec::new();
            assert(members_of(none@) =~= Seq::<(Seq<char>, JsonTree)>::empty());
            Ok(none)
        },
        Err(error) => Err(
            AppError::Config(text::joined("DSH 配置转换为 JSON 失败: ", error.as_str())),
        ),
    }
}

/// The providers of the settings, each under its id.
pub fn get_providers(raw: &str) -> (r: Result<Vec<(String, Json)>, AppError>)
    ensures
        match r {
            Ok(members) => providers_of(raw@) == Ok::<Seq<(Seq<char>, JsonTree)>, Fault>(
                members_of(members@),
            ),
            Err(error) => providers_of(raw@) == Err::<Seq<(Seq<char>, JsonTree)>, Fault>(error@),
        },
{
    let settings = match parse_settings(raw) {
        Ok(settings) => settings,
        Err(error) => return Err(error),
    };
    let none: Vec<(String, Json)> = Vec::new();
    assert(members_of(none@) =~= Seq::<(Seq<char>, JsonTree)>::empty());
    let section = match yaml::value_member(&settings, PROVIDERS_SECTION) {
        Some(section) => section,
        None => return Ok(none),
    };
    let providers = match yaml::value_member(section, PROVIDERS_KEY) {
        Some(providers) => providers,
        None => return Ok(none),
    };
    members_from(yaml::convert_yaml(providers))
}

/// A provider of the settings.
pub fn get_provider(raw: &str, id: &str) -> (r: Result<Option<Json>, AppError>)
    ensures
        match (r, providers_of(raw@)) {
            (Ok(found), Ok(members)) => (match found {
                Some(value) => Some(value@),
                None => None,
            }) == JsonTree::Object(members).get(id@),
            (Err(error), Err(fault)) => error@ == fault,
            _ => false,
        },
{
    let members = match get_providers(raw) {
        Ok(members) => members,
        Err(error) => return Err(error),
    };
    let ghost given = members@;
    let ghost all = members_of(members@);
    let mut found: Option<Json> = None;
    for member in it: members.into_iter()
        invariant
            it.seq() == given,
            all == members_of(given),
            match found {
                Some(value) => json::member_from(all, id@, 0) matches Some(k) && 0 <= k < all.len()
                    && all[k].1 == value@,
                None => json::member_from(all, id@, 0) == json::member_from(
                    all,
                    id@,
                    it.index() as int,
                ),
            },
    {
        let ghost i = it.index() as int;
        assert(all[i] == (member.0@, member.1@));
        if found.is_none() && text::same_text(member.0.as_str(), id) {
            found = Some(member.1);
        }
    }
    Ok(found)
}

/// The provider and the model in use.
pub open spec fn default_model(settings: YamlTree) -> Option<(Seq<char>, Seq<char>)> {
    match yaml::member(settings, DEFAULT_MODEL_SECTION@) {
        Some(section) => match yaml::member_text(section, "provider"@) {
            Some(provider) => Some(
                (
                    provider,
                    match yaml::member_text(section, "model"@) {
                        Some(model) => model,
                        None => ""@,
                    },
                ),
            ),
            None => None,
        },
        None => None,
    }
}

/// The text that stands under a key of a mapping.
fn member_text_of(value: &serde_yaml::Value, key: &str) -> (r: Option<String>)
    ensures
        text::opt_text(r) == yaml::member_text(yaml::yaml_content(*value), key@),
{
    match yaml::value_member(value, key) {
        Some(found) => match yaml::value_text(found) {
            Some(s) => Some(s.to_owned()),
            None => None,
        },
        None => None,
    }
}

/// The provider and the model in use.
pub fn read_default_model(settings: &serde_yaml::Value) -> (r: Option<(String, String)>)
    ensures
        text::opt_pair(r) == default_model(yaml::yaml_content(*settings)),
{
    let section = match yaml::value_member(settings, DEFAULT_MODEL_SECTION) {
        Some(section) => section,
        None => return None,
    };
    let provider = match member_text_of(section, "provider") {
        Some(provider) => provider,
        None => return None,
    };
    let model = match member_text_of(section, "model") {
        Some(model) => model,
        None => "".to_owned(),
    };
    Some((provider, model))
}

/// The provider and the model in use.
pub fn get_default_model(raw: &str) -> (r: Result<Option<(String, String)>, AppError>)
    ensures
        match (r, settings_of(raw@)) {
            (Ok(found), Ok(settings)) => text::opt_pair(found) == default_model(settings),
            (Err(error), Err(fault)) => error@ == fault,
            _ => false,
        },
{
    match parse_settings(raw) {
        Ok(settings) => Ok(read_default_model(&settings)),
        Err(error) => Err(error),
    }
}

/// A model that is named, trimmed.
pub open spec fn named_model(model: Option<Seq<char>>) -> Option<Seq<char>> {
    match model {
        Some(value) => if text::blank(value) {
            None
        } else {
            Some(text::trimmed(value))
        },
        None => None,
    }
}

/// The section of the model in use, set to a provider and its model.
pub open spec fn pointed(settings: YamlTree, provider: Seq<char>, model: Option<Seq<char>>) -> Result<
    YamlTree,
    Fault,
> {
    match yaml::entries_of(settings) {
        None => Err(Fault::Config("DSH settings.yaml 顶层必须是映射"@)),
        Some(root) => {
            let section = entry_or_empty(root, DEFAULT_MODEL_SECTION@);
            match yaml::entries_of(section) {
                None => Err(Fault::Config("DSH agent-default-model 必须是映射"@)),
                Some(entries) => {
                    let chosen = yaml::put(entries, "provider"@, YamlTree::Text(provider));
                    Ok(
                        yaml::with_entries(
                            section,
                            match named_model(model) {
                                Some(name) => yaml::put(chosen, "model"@, YamlTree::Text(name)),
                                None => chosen,
                            },
                        ),
                    )
                },
            }
        },
    }
}

/// The section of the model in use, set to a provider and, where one is named,
/// its model.
pub fn point_default_model(
    settings: serde_yaml::Value,
    provider_id: &str,
    model_id: Option<&str>,
) -> (r: Result<serde_yaml::Value, AppError>)
    ensures
        match r {
            Ok(section) => pointed(yaml::yaml_content(settings), provider_id@, json::opt_str(model_id))
                == Ok::<YamlTree, Fault>(yaml::yaml_content(section)),
            Err(error) => pointed(yaml::yaml_content(settings), provider_id@, json::opt_str(model_id))
                == Err::<YamlTree, Fault>(error@),
        },
{
    let mut root = match yaml::take_mapping(settings) {
        Some(parts) => parts.1,
        None => return Err(AppError::Config("DSH settings.yaml 顶层必须是映射".to_owned())),
    };
    let section = match take_member(&mut root, DEFAULT_MODEL_SECTION) {
        Some(section) => section,
        None => empty_mapping(),
    };
    let (frame, mut mapping) = match yaml::take_mapping(section) {
        Some(parts) => parts,
        None => return Err(AppError::Config("DSH agent-default-model 必须是映射".to_owned())),
    };
    let _ = yaml::mapping_insert(
        &mut mapping,
        yaml::text_value("provider"),
        yaml::text_value(provider_id),
    );
    if let Some(value) = model_id {
        let name = text::trim(value);
        if !name.as_str().is_empty() {
            let _ = yaml::mapping_insert(
                &mut mapping,
                yaml::text_value("model"),
                yaml::text_value(name.as_str()),
            );
        }
    }
    Ok(yaml::put_back(frame, mapping))
}

/// The text of the settings with another provider and model in use, or why
/// it cannot be.
pub open spec fn settings_with_default(
    raw: Seq<char>,
    provider: Seq<char>,
    model: Option<Seq<char>>,
) -> Result<Seq<char>, Fault> {
    match settings_of(raw) {
        Err(fault) => Err(fault),
        Ok(settings) => match pointed(settings, provider, model) {
            Err(fault) => Err(fault),
            Ok(section) => written_section(
                raw,
                DEFAULT_MODEL_SECTION@,
                yaml::yaml_text(section_document(DEFAULT_MODEL_SECTION@, section)),
            ),
        },
    }
}

/// The text of the settings with another provider and model in use.
pub fn set_default_model(raw: &str, provider_id: &str, model_id: Option<&str>) -> (r: Result<
    String,
    AppError,
>)
    ensures
        written_result(r) == settings_with_default(raw@, provider_id@, json::opt_str(model_id)),
{
    let settings = match parse_settings(raw) {
        Ok(settings) => settings,
        Err(error) => return Err(error),
    };
    let section = match point_default_model(settings, provider_id, model_id) {
        Ok(section) => section,
        Err(error) => return Err(error),
    };
    replace_section(raw, DEFAULT_MODEL_SECTION, section)
}

/// The first id of a list of models, from `from` on, that is not blank, trimmed.
pub open spec fn first_named(models: Seq<JsonTree>, from: int) -> Option<Seq<char>>
    decreases models.len() - from,
{
    if from < 0 || from >= models.len() {
        None
    } else {
        match named_model(models[from].get_text("id"@)) {
            Some(name) => Some(name),
            None => first_named(models, from + 1),
        }
    }
}

/// The first id in the list of models of a provider that is not blank, trimmed.
pub open spec fn first_model(config: JsonTree) -> Option<Seq<char>> {
    match config.get("models"@) {
        Some(JsonTree::Array(models)) => first_named(models, 0),
        _ => None,
    }
}

/// The first id in the list of models of a provider that is not blank, trimmed.
pub fn first_model_id(config: &Json) -> (r: Option<String>)
    ensures
        text::opt_text(r) == first_model(config@),
{
    let list = config.get("models");
    let ghost trees = json::opt_json(list)->0->Array_0;
    match list {
        Some(Json::Array(models)) => {
            let mut i: usize = 0;
            while i < models.len()
                invariant
                    i <= models@.len(),
                    trees.len() == models@.len(),
                    forall|k: int| 0 <= k < models@.len() ==> trees[k] == #[trigger] models@[k]@,
                    first_model(config@) == first_named(trees, i as int),
                decreases models@.len() - i,
            {
                assert(trees[i as int] == models@[i as int]@);
                if let Some(id) = models[i].get_text("id") {
                    let name = text::trim(id);
                    if !name.as_str().is_empty() {
                        return Some(name);
                    }
                }
                i += 1;
            }
            None
        },
        _ => None,
    }
}

/// The id that is found is that of a model in the list, and all models before
/// it have none or a blank one; none is found where all are like that.
pub proof fn law_first_model_is_the_first_named(models: Seq<JsonTree>, from: int)
    requires
        0 <= from,
    ensures
        match first_named(models, from) {
            Some(name) => exists|k: int|
                from <= k < models.len() && #[trigger] named_model(models[k].get_text("id"@))
                    == Some(name) && forall|j: int|
                    from <= j < k ==> #[trigger] named_model(models[j].get_text("id"@)) is None,
            None => forall|j: int|
                from <= j < models.len() ==> #[trigger] named_model(models[j].get_text("id"@))
                    is None,
        },
    decreases models.len() - from,
{
    if from < models.len() {
        law_first_model_is_the_first_named(models, from + 1);
        if named_model(models[from].get_text("id"@)) is Some {
            assert(named_model(models[from].get_text("id"@)) == first_named(models, from));
        }
    }
}

} // verus!
