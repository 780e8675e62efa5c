//! The repair of a task that was interrupted, or that was recorded by an older version.

use vstd::prelude::*;

use crate::deep::{copy_all, deep, group_deep, one};
use crate::ids::{is_id, new_id, now};
use crate::memory::{
    fit_all, normalize_memory_for_context, normalized_from, normalizing_changes, recovered_count,
    recovered_tool_result_count, within_budget, MAX_MEMORY_ENTRIES,
};
use crate::memory_laws::{law_context_is_replayable, law_memory_fits_its_budget, replayable};
use crate::models::{plain_entry, same_entries, AgentMemoryEntry, EntryModel};
use crate::tasks::records::{AgentStatus, Task, TaskMessage, TaskMessageModel, TaskModel};
use crate::tasks::task::{touched, with_status};
use crate::text::{blank, copy_option, is_blank, same};

verus! {

broadcast use group_deep;

/// Whether a message is part of what the agent remembers: an answer without text and calls is
/// not.
pub open spec fn is_remembered(message: TaskMessageModel) -> bool {
    if message.role == "assistant"@ {
        !is_blank(message.content) || message.tool_calls.len() > 0
    } else {
        message.role == "user"@ || message.role == "tool"@
    }
}

/// What the agent remembers of a message.
pub open spec fn entry_of(message: TaskMessageModel) -> EntryModel {
    EntryModel {
        id: message.id,
        role: message.role,
        content: message.content,
        reasoning: message.reasoning,
        reasoning_opaque: message.reasoning_opaque,
        created_at: message.created_at,
        tool_call_id: message.tool_call_id,
        tool_names: match message.name {
            Some(name) => seq![name],
            None => Seq::empty(),
        },
        tool_calls: message.tool_calls,
        name: message.name,
        base64_image: message.base64_image,
        attachments: message.attachments,
    }
}

/// What the agent remembers of the messages.
pub open spec fn remembered(messages: Seq<TaskMessageModel>) -> Seq<EntryModel>
    decreases messages.len(),
{
    if messages.len() == 0 {
        Seq::empty()
    } else {
        let head = remembered(messages.drop_last());
        if is_remembered(messages.last()) {
            head.push(entry_of(messages.last()))
        } else {
            head
        }
    }
}

fn make_entry(message: &TaskMessage) -> (r: AgentMemoryEntry)
    ensures
        r.deep_view() == entry_of(message.deep_view()),
{
    let tool_names: Vec<String> = match &message.name {
        Some(name) => one(name.clone()),
        None => {
            let none: Vec<String> = Vec::new();
            proof {
                assert(deep(none@) =~= Seq::<Seq<char>>::empty());
            }
            none
        },
    };
    AgentMemoryEntry {
        id: message.id.clone(),
        role: message.role.clone(),
        content: message.content.clone(),
        reasoning: message.reasoning.clone(),
        reasoning_opaque: copy_option(&message.reasoning_opaque),
        created_at: message.created_at,
        tool_call_id: copy_option(&message.tool_call_id),
        tool_names,
        tool_calls: copy_all(&message.tool_calls),
        name: copy_option(&message.name),
        base64_image: copy_option(&message.base64_image),
        attachments: copy_all(&message.attachments),
    }
}

fn keeps(message: &TaskMessage) -> (r: bool)
    ensures
        r == is_remembered(message.deep_view()),
{
    proof {
        assert(message.deep_view().tool_calls.len() == message.tool_calls@.len());
    }
    if same(&message.role, "assistant") {
        !blank(&message.content) || message.tool_calls.len() > 0
    } else {
        same(&message.role, "user") || same(&message.role, "tool")
    }
}

/// What the agent remembers of the messages.
pub fn memory_from_task_messages(messages: &Vec<TaskMessage>) -> (r: Vec<AgentMemoryEntry>)
    ensures
        deep(r@) == remembered(deep(messages@)),
{
    let ghost models = deep(messages@);
    let mut r: Vec<AgentMemoryEntry> = Vec::new();
    let mut i: usize = 0;
    proof {
        assert(models.take(0) =~= Seq::<TaskMessageModel>::empty());
        assert(deep(r@) =~= Seq::<EntryModel>::empty());
    }
    while i < messages.len()
        invariant
            models == deep(messages@),
            i <= messages@.len(),
            deep(r@) == remembered(models.take(i as int)),
        decreases messages@.len() - i,
    {
        proof {
            assert(models.take(i + 1).drop_last() =~= models.take(i as int));
            assert(models.take(i + 1).last() == messages@[i as int].deep_view());
        }
        if keeps(&messages[i]) {
            r.push(make_entry(&messages[i]));
        }
        i += 1;
    }
    proof {
        assert(models.take(models.len() as int) =~= models);
    }
    r
}

/// The messages with none of them being streamed.
pub open spec fn all_finished(messages: Seq<TaskMessageModel>) -> Seq<TaskMessageModel> {
    messages.map_values(|m: TaskMessageModel| TaskMessageModel { streaming: false, ..m })
}

/// Whether a message is being streamed.
pub open spec fn any_streaming(messages: Seq<TaskMessageModel>) -> bool {
    exists|i: int| 0 <= i < messages.len() && (#[trigger] messages[i]).streaming
}

/// Ends the stream of every message, and says whether there was one.
pub fn clear_streaming_message_flags(messages: &mut Vec<TaskMessage>) -> (r: bool)
    ensures
        deep(final(messages)@) == all_finished(deep(old(messages)@)),
        r == any_streaming(deep(old(messages)@)),
{
    let ghost models = deep(messages@);
    let mut cleared: Vec<TaskMessage> = Vec::new();
    let mut changed = false;
    let mut i: usize = 0;
    while i < messages.len()
        invariant
            models == deep(messages@),
            i <= messages@.len(),
            cleared@.len() == i,
            changed ==> any_streaming(models),
            !changed ==> forall|k: int| 0 <= k < i ==> !(#[trigger] models[k]).streaming,
            forall|k: int| 0 <= k < i ==> #[trigger] deep(cleared@)[k] == all_finished(models)[k],
        decreases messages@.len() - i,
    {
        proof {
            assert(models[i as int] == messages@[i as int].deep_view());
        }
        let mut message = messages[i].clone();
        if message.streaming {
            message.streaming = false;
            changed = true;
        }
        let ghost before = deep(cleared@);
        cleared.push(message);
        proof {
            assert(deep(cleared@) == before.push(message.deep_view()));
        }
        i += 1;
    }
    proof {
        assert(deep(cleared@) =~= all_finished(models));
    }
    *messages = cleared;
    changed
}

// ---- memory ----

/// Whether the memory is what the entries come to once they are repaired and shortened, and
/// whether anything of it is new.
pub open spec fn is_context(source: Seq<EntryModel>, memory: Seq<EntryModel>, new: bool) -> bool {
    exists|repaired: Seq<EntryModel>|
        {
            &&& #[trigger] fit_all(repaired, normalized_from(source, 0))
            &&& memory == within_budget(repaired, MAX_MEMORY_ENTRIES as int)
            &&& new == (normalizing_changes(source, 0) || memory != repaired)
        }
}

/// Whether the entries are where the repair of a memory begins: the memory itself, or else what
/// the messages say, or else the request.
pub open spec fn is_source(t: TaskModel, source: Seq<EntryModel>) -> bool {
    if t.memory.len() > 0 {
        source == t.memory
    } else if remembered(t.messages).len() == 0 && !is_blank(t.prompt) {
        exists|id: Seq<char>|
            is_id(id, "memory"@) && source == seq![
                #[trigger] plain_entry(id, "user"@, t.prompt, t.created_at),
            ]
    } else {
        source == remembered(t.messages)
    }
}

/// Whether the memory is a repaired one of the task. Where results are missing from it the
/// messages are asked: if they have more of them, they are what counts.
pub open spec fn is_repaired_memory(t: TaskModel, memory: Seq<EntryModel>, new: bool) -> bool {
    exists|source: Seq<EntryModel>, first: Seq<EntryModel>, first_new: bool|
        {
            &&& #[trigger] is_source(t, source)
            &&& #[trigger] is_context(source, first, first_new)
            &&& is_better_of(t, first, first_new, memory, new)
        }
}

/// Whether the memory is the better one of a repaired memory and what the messages say.
pub open spec fn is_better_of(
    t: TaskModel,
    first: Seq<EntryModel>,
    first_new: bool,
    memory: Seq<EntryModel>,
    new: bool,
) -> bool {
    if t.messages.len() > 0 && recovered_count(first) > 0 {
        exists|shown: Seq<EntryModel>, shown_new: bool|
            {
                &&& #[trigger] is_context(remembered(t.messages), shown, shown_new)
                &&& if recovered_count(shown) < recovered_count(first) {
                    memory == shown && new
                } else {
                    memory == first && new == first_new
                }
            }
    } else {
        memory == first && new == first_new
    }
}

fn source_of(task: &Task) -> (r: Vec<AgentMemoryEntry>)
    ensures
        is_source(task.deep_view(), deep(r@)),
{
    proof {
        assert(task.deep_view().memory.len() == task.memory@.len());
    }
    if task.memory.len() > 0 {
        return copy_all(&task.memory);
    }
    let recovered = memory_from_task_messages(&task.messages);
    proof {
        assert(deep(recovered@).len() == recovered@.len());
    }
    if recovered.len() == 0 && !blank(&task.prompt) {
        let id = new_id("memory");
        let ghost name = id@;
        let entry = AgentMemoryEntry::plain(id, "user", task.prompt.clone(), task.created_at);
        let r = one(entry);
        proof {
            assert(deep(r@) == seq![plain_entry(name, "user"@, task.prompt@, task.created_at)]);
        }
        return r;
    }
    recovered
}

fn context(entries: &Vec<AgentMemoryEntry>) -> (r: (Vec<AgentMemoryEntry>, bool))
    ensures
        is_context(deep(entries@), deep(r.0@), r.1),
{
    normalize_memory_for_context(entries)
}

/// The memory of a task, repaired; and whether anything of it is new.
pub fn repaired_memory(task: &Task) -> (r: (Vec<AgentMemoryEntry>, bool))
    ensures
        is_repaired_memory(task.deep_view(), deep(r.0@), r.1),
{
    let ghost t = task.deep_view();
    proof {
        assert(t.messages.len() == task.messages@.len());
    }
    let source = source_of(task);
    let (first, first_new) = context(&source);
    proof {
        assert(is_source(t, deep(source@)));
        assert(is_context(deep(source@), deep(first@), first_new));
    }
    let missing = recovered_tool_result_count(&first);
    if task.messages.len() > 0 && missing > 0 {
        let display = memory_from_task_messages(&task.messages);
        let (shown, shown_new) = context(&display);
        proof {
            assert(is_context(remembered(t.messages), deep(shown@), shown_new));
        }
        if recovered_tool_result_count(&shown) < missing {
            proof {
                assert(is_better_of(t, deep(first@), first_new, deep(shown@), true));
            }
            return (shown, true);
        }
        proof {
            assert(is_better_of(t, deep(first@), first_new, deep(first@), first_new));
        }
    }
    (first, first_new)
}

/// Whether the task is one that was repaired: no message is being streamed, it works in the
/// directory, and its memory is a repaired one. Where nothing is new it stays as it is.
pub open spec fn is_repaired_task(
    before: TaskModel,
    workspace: Seq<char>,
    at: i64,
    after: TaskModel,
    changed: bool,
) -> bool {
    let t = TaskModel { messages: all_finished(before.messages), workspace, ..before };
    exists|memory: Seq<EntryModel>, new: bool|
        {
            &&& #[trigger] is_repaired_memory(t, memory, new)
            &&& changed == (any_streaming(before.messages) || before.workspace != workspace || new
                || memory != before.memory)
            &&& after == if changed {
                touched(TaskModel { memory, ..t }, at)
            } else {
                t
            }
        }
}

/// Repairs a task, and says whether anything is new. `workspace` is the directory that the task
/// works in, as far as it is there.
pub fn repair_task(task: &mut Task, workspace: &str, at: i64) -> (r: bool)
    ensures
        is_repaired_task(old(task).deep_view(), workspace@, at, final(task).deep_view(), r),
{
    let ghost before = task.deep_view();
    let streaming = clear_streaming_message_flags(&mut task.messages);
    let moved = !same(&task.workspace, workspace);
    task.workspace = workspace.to_owned();
    let ghost t = task.deep_view();
    proof {
        assert(t == (TaskModel {
            messages: all_finished(before.messages),
            workspace: workspace@,
            ..before
        }));
    }
    let (memory, new) = repaired_memory(task);
    let ghost repaired = deep(memory@);
    proof {
        assert(is_repaired_memory(t, repaired, new));
    }
    let differs = !same_entries(&memory, &task.memory);
    if streaming || moved || new || differs {
        task.memory = memory;
        task.touch(at);
        true
    } else {
        false
    }
}

/// Repairs a task at the present time.
pub fn repair_task_record(task: &mut Task, workspace: &str) -> (r: bool)
    ensures
        exists|at: i64| #[trigger]
            is_repaired_task(old(task).deep_view(), workspace@, at, final(task).deep_view(), r),
{
    let at = now();
    repair_task(task, workspace, at)
}

/// Whether a task was at work.
pub open spec fn was_at_work(status: AgentStatus) -> bool {
    status == AgentStatus::Planning || status == AgentStatus::Executing || status
        == AgentStatus::Verifying || status == AgentStatus::WaitingApproval
}

/// Ends a task that was at work when the application closed, and says whether it was.
pub fn interrupt_task(task: &mut Task, at: i64) -> (r: bool)
    ensures
        r == was_at_work(old(task).status),
        final(task).deep_view() == if r {
            with_status(
                old(task).deep_view(),
                AgentStatus::Failed,
                Some("The task was interrupted before the app closed."@),
                at,
            )
        } else {
            old(task).deep_view()
        },
{
    match task.status {
        AgentStatus::Planning | AgentStatus::Executing | AgentStatus::Verifying
        | AgentStatus::WaitingApproval => {
            task.set_status(
                AgentStatus::Failed,
                Some("The task was interrupted before the app closed.".to_owned()),
                at,
            );
            true
        },
        _ => false,
    }
}

// ---- laws ----

/// The memory of a repaired task can be sent to a model, and it is within its limit.
pub proof fn law_repaired_tasks_can_go_on(
    before: TaskModel,
    workspace: Seq<char>,
    at: i64,
    after: TaskModel,
    changed: bool,
)
    requires
        is_repaired_task(before, workspace, at, after, changed),
    ensures
        replayable(after.memory),
        after.memory.len() <= MAX_MEMORY_ENTRIES,
        !any_streaming(after.messages),
        after.workspace == workspace,
{
    let t = TaskModel { messages: all_finished(before.messages), workspace, ..before };
    let (memory, new) = choose|memory: Seq<EntryModel>, new: bool|
        {
            &&& #[trigger] is_repaired_memory(t, memory, new)
            &&& changed == (any_streaming(before.messages) || before.workspace != workspace || new
                || memory != before.memory)
            &&& after == if changed {
                touched(TaskModel { memory, ..t }, at)
            } else {
                t
            }
        };
    assert(after.memory == memory);
    lemma_repaired_memory(t, memory, new);
    assert(after.messages == all_finished(before.messages));
    assert(!any_streaming(after.messages)) by {
        if any_streaming(after.messages) {
            let i = choose|i: int|
                0 <= i < after.messages.len() && (#[trigger] after.messages[i]).streaming;
            assert(!after.messages[i].streaming);
        }
    }
}

proof fn lemma_repaired_memory(t: TaskModel, memory: Seq<EntryModel>, new: bool)
    requires
        is_repaired_memory(t, memory, new),
    ensures
        replayable(memory),
        memory.len() <= MAX_MEMORY_ENTRIES,
{
    let (source, first, first_new) = choose|
        source: Seq<EntryModel>,
        first: Seq<EntryModel>,
        first_new: bool,
    |
        {
            &&& #[trigger] is_source(t, source)
            &&& #[trigger] is_context(source, first, first_new)
            &&& is_better_of(t, first, first_new, memory, new)
        };
    lemma_context(source, first, first_new);
    if t.messages.len() > 0 && recovered_count(first) > 0 {
        let (shown, shown_new) = choose|shown: Seq<EntryModel>, shown_new: bool|
            {
                &&& #[trigger] is_context(remembered(t.messages), shown, shown_new)
                &&& if recovered_count(shown) < recovered_count(first) {
                    memory == shown && new
                } else {
                    memory == first && new == first_new
                }
            };
        lemma_context(remembered(t.messages), shown, shown_new);
    }
}

proof fn lemma_context(source: Seq<EntryModel>, memory: Seq<EntryModel>, new: bool)
    requires
        is_context(source, memory, new),
    ensures
        replayable(memory),
        memory.len() <= MAX_MEMORY_ENTRIES,
{
    let repaired = choose|repaired: Seq<EntryModel>|
        {
            &&& #[trigger] fit_all(repaired, normalized_from(source, 0))
            &&& memory == within_budget(repaired, MAX_MEMORY_ENTRIES as int)
            &&& new == (normalizing_changes(source, 0) || memory != repaired)
        };
    law_context_is_replayable(source, repaired, MAX_MEMORY_ENTRIES as int);
    law_memory_fits_its_budget(repaired, MAX_MEMORY_ENTRIES as int);
}

} // verus!
