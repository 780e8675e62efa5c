//! The records of a task: its conversation, what the agent remembers of it, and its plan.

use vstd::prelude::*;

use crate::agent::{same_calls, MessageToolCall, ToolCallModel};
use crate::deep::{copy_all, copy_strings, deep, group_deep};
use crate::text::{copy_option, same, same_option, same_strings};

verus! {

broadcast use group_deep;

/// A file that was attached to a message. Its bytes are stored under `storage_key`.
#[derive(Debug, PartialEq, Eq)]
pub struct AttachmentRef {
    pub id: String,
    pub name: String,
    pub mime: String,
    pub size: u64,
    pub storage_key: String,
}

/// What an attachment is.
pub struct AttachmentModel {
    pub id: Seq<char>,
    pub name: Seq<char>,
    pub mime: Seq<char>,
    pub size: u64,
    pub storage_key: Seq<char>,
}

impl DeepView for AttachmentRef {
    type V = AttachmentModel;

    open spec fn deep_view(&self) -> AttachmentModel {
        AttachmentModel {
            id: self.id@,
            name: self.name@,
            mime: self.mime@,
            size: self.size,
            storage_key: self.storage_key@,
        }
    }
}

impl Clone for AttachmentRef {
    fn clone(&self) -> (r: Self)
        ensures
            r == *self,
            r.deep_view() == self.deep_view(),
    {
        AttachmentRef {
            id: self.id.clone(),
            name: self.name.clone(),
            mime: self.mime.clone(),
            size: self.size,
            storage_key: self.storage_key.clone(),
        }
    }
}

/// Whether two lists of attachments are the same.
fn same_attachments(a: &Vec<AttachmentRef>, b: &Vec<AttachmentRef>) -> (r: bool)
    ensures
        r == (deep(a@) == deep(b@)),
{
    if a.len() != b.len() {
        proof {
            assert(deep(a@).len() != deep(b@).len());
        }
        return false;
    }
    let mut i: usize = 0;
    while i < a.len()
        invariant
            i <= a@.len(),
            a@.len() == b@.len(),
            forall|j: int| 0 <= j < i ==> deep(a@)[j] == deep(b@)[j],
        decreases a@.len() - i,
    {
        let x = &a[i];
        let y = &b[i];
        if !(same(&x.id, &y.id) && same(&x.name, &y.name) && same(&x.mime, &y.mime) && x.size
            == y.size && same(&x.storage_key, &y.storage_key)) {
            proof {
                assert(deep(a@)[i as int] != deep(b@)[i as int]);
            }
            return false;
        }
        i += 1;
    }
    proof {
        assert(deep(a@) =~= deep(b@));
    }
    true
}

/// One entry of what an agent remembers of a task.
#[derive(Debug, PartialEq, Eq)]
pub struct AgentMemoryEntry {
    pub id: String,
    pub role: String,
    pub content: String,
    pub reasoning: String,
    pub reasoning_opaque: Option<String>,
    pub created_at: i64,
    pub tool_call_id: Option<String>,
    pub tool_names: Vec<String>,
    pub tool_calls: Vec<MessageToolCall>,
    pub name: Option<String>,
    pub base64_image: Option<String>,
    pub attachments: Vec<AttachmentRef>,
}

/// What a memory entry is.
pub struct EntryModel {
    pub id: Seq<char>,
    pub role: Seq<char>,
    pub content: Seq<char>,
    pub reasoning: Seq<char>,
    pub reasoning_opaque: Option<Seq<char>>,
    pub created_at: i64,
    pub tool_call_id: Option<Seq<char>>,
    pub tool_names: Seq<Seq<char>>,
    pub tool_calls: Seq<ToolCallModel>,
    pub name: Option<Seq<char>>,
    pub base64_image: Option<Seq<char>>,
    pub attachments: Seq<AttachmentModel>,
}

impl DeepView for AgentMemoryEntry {
    type V = EntryModel;

    open spec fn deep_view(&self) -> EntryModel {
        EntryModel {
            id: self.id@,
            role: self.role@,
            content: self.content@,
            reasoning: self.reasoning@,
            reasoning_opaque: self.reasoning_opaque.deep_view(),
            created_at: self.created_at,
            tool_call_id: self.tool_call_id.deep_view(),
            tool_names: deep(self.tool_names@),
            tool_calls: deep(self.tool_calls@),
            name: self.name.deep_view(),
            base64_image: self.base64_image.deep_view(),
            attachments: deep(self.attachments@),
        }
    }
}

impl Clone for AgentMemoryEntry {
    fn clone(&self) -> (r: Self)
        ensures
            r.deep_view() == self.deep_view(),
    {
        AgentMemoryEntry {
            id: self.id.clone(),
            role: self.role.clone(),
            content: self.content.clone(),
            reasoning: self.reasoning.clone(),
            reasoning_opaque: copy_option(&self.reasoning_opaque),
            created_at: self.created_at,
            tool_call_id: copy_option(&self.tool_call_id),
            tool_names: copy_strings(&self.tool_names),
            tool_calls: copy_all(&self.tool_calls),
            name: copy_option(&self.name),
            base64_image: copy_option(&self.base64_image),
            attachments: copy_all(&self.attachments),
        }
    }
}

/// An entry of the role `role` with a text and nothing else.
pub open spec fn plain_entry(
    id: Seq<char>,
    role: Seq<char>,
    content: Seq<char>,
    created_at: i64,
) -> EntryModel {
    EntryModel {
        id,
        role,
        content,
        reasoning: Seq::empty(),
        reasoning_opaque: None,
        created_at,
        tool_call_id: None,
        tool_names: Seq::empty(),
        tool_calls: Seq::empty(),
        name: None,
        base64_image: None,
        attachments: Seq::empty(),
    }
}

impl AgentMemoryEntry {
    /// An entry of the role `role` with a text and nothing else.
    pub fn plain(id: String, role: &str, content: String, created_at: i64) -> (r: Self)
        ensures
            r.deep_view() == plain_entry(id@, role@, content@, created_at),
    {
        AgentMemoryEntry {
            id,
            role: role.to_owned(),
            content,
            reasoning: String::new(),
            reasoning_opaque: None,
            created_at,
            tool_call_id: None,
            tool_names: Vec::new(),
            tool_calls: Vec::new(),
            name: None,
            base64_image: None,
            attachments: Vec::new(),
        }
    }
}

/// Whether two memory entries are the same.
pub fn same_entry(a: &AgentMemoryEntry, b: &AgentMemoryEntry) -> (r: bool)
    ensures
        r == (a.deep_view() == b.deep_view()),
{
    same(&a.id, &b.id) && same(&a.role, &b.role) && same(&a.content, &b.content) && same(
        &a.reasoning,
        &b.reasoning,
    ) && same_option(&a.reasoning_opaque, &b.reasoning_opaque) && a.created_at == b.created_at
        && same_option(&a.tool_call_id, &b.tool_call_id) && same_strings(
        &a.tool_names,
        &b.tool_names,
    ) && same_calls(&a.tool_calls, &b.tool_calls) && same_option(&a.name, &b.name) && same_option(
        &a.base64_image,
        &b.base64_image,
    ) && same_attachments(&a.attachments, &b.attachments)
}

/// Whether two memories are the same.
pub fn same_entries(a: &Vec<AgentMemoryEntry>, b: &Vec<AgentMemoryEntry>) -> (r: bool)
    ensures
        r == (deep(a@) == deep(b@)),
{
    if a.len() != b.len() {
        proof {
            assert(deep(a@).len() != deep(b@).len());
        }
        return false;
    }
    let mut i: usize = 0;
    while i < a.len()
        invariant
            i <= a@.len(),
            a@.len() == b@.len(),
            forall|j: int| 0 <= j < i ==> deep(a@)[j] == deep(b@)[j],
        decreases a@.len() - i,
    {
        if !same_entry(&a[i], &b[i]) {
            proof {
                assert(deep(a@)[i as int] != deep(b@)[i as int]);
            }
            return false;
        }
        i += 1;
    }
    proof {
        assert(deep(a@) =~= deep(b@));
    }
    true
}

/// Copies of the entries from `from` up to, but not including, `to`.
pub fn copy_entries(entries: &[AgentMemoryEntry], from: usize, to: usize) -> (r: Vec<
    AgentMemoryEntry,
>)
    requires
        from <= to <= entries@.len(),
    ensures
        deep(r@) == deep(entries@).subrange(from as int, to as int),
{
    let mut r: Vec<AgentMemoryEntry> = Vec::new();
    let mut i: usize = from;
    while i < to
        invariant
            from <= i <= to <= entries@.len(),
            deep(r@) == deep(entries@).subrange(from as int, i as int),
        decreases to - i,
    {
        r.push(entries[i].clone());
        i += 1;
        proof {
            assert(deep(entries@).subrange(from as int, i as int) =~= deep(entries@).subrange(
                from as int,
                i - 1,
            ).push(deep(entries@)[i - 1]));
        }
    }
    r
}

} // verus!
