//! Memory entries as they are sent to a model.

use vstd::prelude::*;
use vstd::utf8::encode_utf8;

use crate::agent::{calls_json, calls_to_json, set_text, with_text};
use crate::deep::{deep, group_deep};
use crate::hash::{hash_text, stable_hash_hex};
use crate::json::{group_json, Json, JsonModel, Number, NumberModel};
use crate::json_text::compact_json;
use crate::memory::{is_assistant, is_tool};
use crate::models::{AgentMemoryEntry, AttachmentModel, AttachmentRef, EntryModel};
use crate::text::same;

verus! {

broadcast use {group_deep, group_json};

/// What a model is told of an attachment.
pub open spec fn attachment_json(attachment: AttachmentModel) -> JsonModel {
    JsonModel::Object(
        seq![
            ("name"@, JsonModel::Str(attachment.name)),
            ("mime"@, JsonModel::Str(attachment.mime)),
            ("size"@, JsonModel::Number(NumberModel::Unsigned(attachment.size))),
        ],
    )
}

/// An entry as it is sent: its role, and whatever else is there.
pub open spec fn entry_json(entry: EntryModel) -> JsonModel {
    let role = JsonModel::Object(seq![("role"@, JsonModel::Str(entry.role))]);
    let content = if is_tool(entry) || entry.content.len() > 0 {
        role.with("content"@, JsonModel::Str(entry.content))
    } else {
        role
    };
    let reasoning = if is_assistant(entry) && entry.reasoning.len() > 0 {
        content.with("reasoning_content"@, JsonModel::Str(entry.reasoning))
    } else {
        content
    };
    let opaque = match entry.reasoning_opaque {
        Some(text) if text.len() > 0 => reasoning.with("reasoning_opaque"@, JsonModel::Str(text)),
        _ => reasoning,
    };
    let calls = if entry.tool_calls.len() > 0 {
        opaque.with("tool_calls"@, calls_json(entry.tool_calls))
    } else {
        opaque
    };
    let id = with_text(calls, "tool_call_id"@, entry.tool_call_id);
    let name = with_text(id, "name"@, entry.name);
    if entry.attachments.len() > 0 {
        name.with(
            "attachments"@,
            JsonModel::Array(entry.attachments.map_values(|a: AttachmentModel| attachment_json(a))),
        )
    } else {
        name
    }
}

fn attachment_to_json(attachment: &AttachmentRef) -> (r: Json)
    ensures
        r.deep_view() == attachment_json(attachment.deep_view()),
{
    let mut members: Vec<(String, Json)> = Vec::new();
    members.push(("name".to_owned(), Json::string(&attachment.name)));
    members.push(("mime".to_owned(), Json::string(&attachment.mime)));
    members.push(("size".to_owned(), Json::Number(Number::Unsigned(attachment.size))));
    proof {
        assert(deep(members@) =~= attachment_json(attachment.deep_view())->Object_0);
    }
    Json::Object(members)
}

/// An entry as it is sent.
pub fn memory_entry_to_value(entry: &AgentMemoryEntry) -> (r: Json)
    ensures
        r.deep_view() == entry_json(entry.deep_view()),
{
    let mut value = Json::object1("role", Json::string(&entry.role));
    if same(&entry.role, "tool") || !entry.content.as_str().is_empty() {
        value.set("content", Json::string(&entry.content));
    }
    if same(&entry.role, "assistant") && !entry.reasoning.as_str().is_empty() {
        value.set("reasoning_content", Json::string(&entry.reasoning));
    }
    if let Some(opaque) = &entry.reasoning_opaque {
        if !opaque.as_str().is_empty() {
            value.set("reasoning_opaque", Json::string(opaque));
        }
    }
    if !entry.tool_calls.is_empty() {
        value.set("tool_calls", calls_to_json(&entry.tool_calls));
    }
    set_text(&mut value, "tool_call_id", &entry.tool_call_id);
    set_text(&mut value, "name", &entry.name);
    if !entry.attachments.is_empty() {
        let mut items: Vec<Json> = Vec::new();
        let mut i: usize = 0;
        while i < entry.attachments.len()
            invariant
                i <= entry.attachments@.len(),
                items@.len() == i,
                forall|j: int|
                    0 <= j < i ==> #[trigger] deep(items@)[j] == attachment_json(
                        deep(entry.attachments@)[j],
                    ),
            decreases entry.attachments@.len() - i,
        {
            let item = attachment_to_json(&entry.attachments[i]);
            let ghost before = deep(items@);
            items.push(item);
            proof {
                assert(deep(items@) == before.push(item.deep_view()));
            }
            i += 1;
        }
        proof {
            assert(deep(items@) =~= deep(entry.attachments@).map_values(
                |a: AttachmentModel| attachment_json(a),
            ));
        }
        value.set("attachments", Json::Array(items));
    }
    value
}

/// The entries as they are sent.
pub open spec fn entries_json(entries: Seq<EntryModel>) -> Seq<JsonModel> {
    entries.map_values(|e: EntryModel| entry_json(e))
}

/// The entries as they are sent.
pub fn entries_to_values(entries: &[AgentMemoryEntry]) -> (r: Vec<Json>)
    ensures
        deep(r@) == entries_json(deep(entries@)),
{
    let mut r: Vec<Json> = Vec::new();
    let mut i: usize = 0;
    while i < entries.len()
        invariant
            i <= entries@.len(),
            r@.len() == i,
            forall|j: int| 0 <= j < i ==> #[trigger] deep(r@)[j] == entry_json(deep(entries@)[j]),
        decreases entries@.len() - i,
    {
        let value = memory_entry_to_value(&entries[i]);
        let ghost before = deep(r@);
        r.push(value);
        proof {
            assert(deep(r@) == before.push(value.deep_view()));
        }
        i += 1;
    }
    proof {
        assert(deep(r@) =~= entries_json(deep(entries@)));
    }
    r
}

/// The hash of the entries as they are sent.
pub open spec fn surface_hash_text(entries: Seq<EntryModel>) -> Seq<char> {
    hash_text(encode_utf8(compact_json(JsonModel::Array(entries_json(entries)))))
}

/// The hash of the entries as they are sent.
pub fn surface_hash(entries: &[AgentMemoryEntry]) -> (r: String)
    ensures
        r@ == surface_hash_text(deep(entries@)),
{
    let value = Json::Array(entries_to_values(entries));
    let text = value.to_text();
    stable_hash_hex(text.as_str().as_bytes())
}

} // verus!
