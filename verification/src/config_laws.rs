//! What reading a configuration guarantees.

use vstd::prelude::*;

use crate::config::{
    integer_of, llm_in, profiles_of, sections_fault, server_of, servers_of, LlmModel,
    PromptCacheMode, Sections,
};
use crate::json::JsonModel;
use crate::name_map::{lemma_with_entry_ordered, law_set_entry_is_read_back, ordered, without_entry};
use crate::table::{lemma_name_index, name_index, value_of};

verus! {

/// What a table says of a model holds, and what it does not say is as before.
pub proof fn law_tables_say_what_holds(
    table: JsonModel,
    fallback: LlmModel,
    modes: Seq<(Seq<char>, PromptCacheMode)>,
)
    ensures
        ({
            let settings = llm_in(table, fallback, modes);
            &&& (table.text("model"@) matches Some(text) ==> settings.model == text)
            &&& table.text("model"@) is None ==> settings.model == fallback.model
            &&& (table.text("base_url"@) matches Some(text) ==> settings.base_url == text)
            &&& table.text("base_url"@) is None ==> settings.base_url == fallback.base_url
            &&& (table.text("api_key"@) matches Some(text) ==> settings.api_key == text)
            &&& table.text("api_key"@) is None ==> settings.api_key == fallback.api_key
            &&& (table.text("api_type"@) matches Some(text) ==> settings.api_type == text)
            &&& table.text("api_type"@) is None ==> settings.api_type == fallback.api_type
            &&& (table.text("api_version"@) matches Some(text) ==> settings.api_version == text)
            &&& table.text("api_version"@) is None ==> settings.api_version
                == fallback.api_version
            &&& (integer_of(table, "max_tokens"@) matches Some(n) ==> 1 <= n <= u32::MAX
                ==> settings.max_tokens == n)
            &&& integer_of(table, "max_tokens"@) is None ==> settings.max_tokens
                == fallback.max_tokens
            &&& (integer_of(table, "max_input_tokens"@) matches Some(n) ==> n <= 0
                ==> settings.max_input_tokens is None)
            &&& integer_of(table, "max_input_tokens"@) is None ==> settings.max_input_tokens
                == fallback.max_input_tokens
            &&& (table.text("prompt_cache"@) matches Some(text) ==> (value_of(
                modes,
                text,
            ) matches Some(mode) ==> settings.prompt_cache == mode))
            &&& table.text("prompt_cache"@) is None ==> settings.prompt_cache
                == fallback.prompt_cache
        }),
{
}

proof fn lemma_profiles_ordered(
    members: Seq<(Seq<char>, JsonModel)>,
    base: LlmModel,
    modes: Seq<(Seq<char>, PromptCacheMode)>,
)
    ensures
        ordered(profiles_of(members, base, modes)),
    decreases members.len(),
{
    if members.len() > 0 {
        let head = profiles_of(members.drop_last(), base, modes);
        lemma_profiles_ordered(members.drop_last(), base, modes);
        lemma_with_entry_ordered(
            head,
            members.last().0,
            llm_in(members.last().1, base, modes),
        );
    }
}

/// Every table among the profiles of a configuration is a profile under its own name; the last one
/// counts where there are two of a name. What none of them says is as in the one that all share,
/// which is there unless another takes its name.
pub proof fn law_every_profile_is_read(
    members: Seq<(Seq<char>, JsonModel)>,
    base: LlmModel,
    modes: Seq<(Seq<char>, PromptCacheMode)>,
    i: int,
)
    ensures
        0 <= i < members.len() && members[i].1 is Object && (forall|j: int|
            i < j < members.len() ==> (#[trigger] members[j]).0 != members[i].0) ==> value_of(
            profiles_of(members, base, modes),
            members[i].0,
        ) == Some(llm_in(members[i].1, base, modes)),
        (forall|j: int| 0 <= j < members.len() ==> (#[trigger] members[j]).0 != "default"@)
            ==> value_of(profiles_of(members, base, modes), "default"@) == Some(base),
    decreases members.len(),
{
    if members.len() == 0 {
        let list = seq![("default"@, base)];
        lemma_name_index(list, "default"@);
        assert(list[0].0 == "default"@);
    } else {
        let front = members.drop_last();
        let head = profiles_of(front, base, modes);
        let last = members.last();
        law_every_profile_is_read(front, base, modes, i);
        lemma_profiles_ordered(front, base, modes);
        let settings = llm_in(last.1, base, modes);
        let away = last.0.push('x');
        assert(away.len() != last.0.len());
        law_set_entry_is_read_back(head, last.0, settings, away);
        assert(forall|j: int| 0 <= j < front.len() ==> front[j] == #[trigger] members[j]);
        assert(members[members.len() - 1] == last);
        if 0 <= i < front.len() && members[i].0 != last.0 {
            law_set_entry_is_read_back(head, last.0, settings, members[i].0);
        }
        if last.0 != "default"@ {
            law_set_entry_is_read_back(head, last.0, settings, "default"@);
        }
    }
}

proof fn lemma_servers_ordered(members: Seq<(Seq<char>, JsonModel)>)
    ensures
        ordered(servers_of(members)),
    decreases members.len(),
{
    if members.len() > 0 {
        lemma_servers_ordered(members.drop_last());
        lemma_with_entry_ordered(
            servers_of(members.drop_last()),
            members.last().0,
            server_of(members.last().1),
        );
    }
}

/// Every server of a list is read under its name, with its kind, its address, its command and its
/// arguments.
pub proof fn law_every_server_is_read(members: Seq<(Seq<char>, JsonModel)>, i: int)
    requires
        0 <= i < members.len(),
        forall|j: int| i < j < members.len() ==> (#[trigger] members[j]).0 != members[i].0,
    ensures
        value_of(servers_of(members), members[i].0) == Some(server_of(members[i].1)),
        server_of(members[i].1).url == members[i].1.text("url"@),
        server_of(members[i].1).command == members[i].1.text("command"@),
        (members[i].1.text("type"@) matches Some(kind) ==> server_of(members[i].1).server_type
            == kind),
        (members[i].1.items("args"@) matches Some(items) ==> server_of(members[i].1).args
            == items.filter(|item: JsonModel| item is Str).map_values(
            |item: JsonModel| item->Str_0,
        )),
    decreases members.len(),
{
    let front = members.drop_last();
    let head = servers_of(front);
    let last = members.last();
    lemma_servers_ordered(front);
    let away = last.0.push('x');
    assert(away.len() != last.0.len());
    law_set_entry_is_read_back(head, last.0, server_of(last.1), away);
    assert(members[members.len() - 1] == last);
    if i < front.len() {
        assert forall|j: int| i < j < front.len() implies (#[trigger] front[j]).0 != front[i].0 by {
            assert(front[j] == members[j]);
        }
        law_every_server_is_read(front, i);
        law_set_entry_is_read_back(head, last.0, server_of(last.1), members[i].0);
    }
    if let Some(items) = members[i].1.items("args"@) {
        crate::tools::table_laws::law_every_text_is_taken(items);
    }
}

/// A configuration is refused if and only if a section that is there cannot be taken.
pub proof fn law_only_bad_sections_are_refused(raw: JsonModel, sections: Sections)
    ensures
        sections_fault(raw, sections) is Some <==> {
            ||| raw.get("browser"@) is Some && sections.browser is Err
            ||| raw.get("search"@) is Some && sections.search is Err
            ||| raw.get("sandbox"@) is Some && sections.sandbox is Err
            ||| raw.get("runflow"@) is Some && sections.runflow is Err
            ||| raw.get("daytona"@) is Some && sections.daytona is Err
            ||| raw.get("mcp"@) is Some && sections.mcp is Err
        },
{
}

/// An entry that is removed is not found any more, and every other one is.
pub proof fn law_removed_entries_are_gone<V>(
    list: Seq<(Seq<char>, V)>,
    name: Seq<char>,
    other: Seq<char>,
)
    requires
        ordered(list),
        other != name,
    ensures
        value_of(without_entry(list, name), name) is None,
        value_of(without_entry(list, name), other) == value_of(list, other),
{
    let after = without_entry(list, name);
    lemma_name_index(list, name);
    lemma_name_index(after, name);
    lemma_name_index(list, other);
    lemma_name_index(after, other);
    let i = name_index(list, name);
    let gone = name_index(after, name);
    if i < list.len() {
        if gone < after.len() {
            let at = if gone < i {
                gone
            } else {
                gone + 1
            };
            assert(after[gone] == list[at]);
            if at < i {
                assert(list[at].0 != name);
            } else {
                assert(crate::name_map::before(list[i].0, list[at].0));
            }
        }
        let a = name_index(list, other);
        let b = name_index(after, other);
        if a < list.len() {
            let at = if a < i {
                a
            } else {
                a - 1
            };
            assert(after[at] == list[a]);
            if b < at {
                let back = if b < i {
                    b
                } else {
                    b + 1
                };
                assert(after[b] == list[back]);
            }
        } else if b < after.len() {
            let back = if b < i {
                b
            } else {
                b + 1
            };
            assert(after[b] == list[back]);
            assert(list[back].0 == other);
        }
    }
}

} // verus!
