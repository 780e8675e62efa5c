//! What the records of a task guarantee: the request is kept, what is streamed is kept, and every
//! change touches what it is about and nothing else.

use vstd::prelude::*;

use crate::agent::ToolCallModel;
use crate::memory::{is_user, MAX_MEMORY_ENTRIES};
use crate::models::AttachmentModel;
use crate::plan::PlanStepStatus;
use crate::tasks::lifecycle::{
    all_files, continued_task, first_files, new_task_model, retried_task, TaskIds,
};
use crate::tasks::parts::{
    is_part_of, parts_with_calls, streamed, tool_part, with_calls, StreamEvent,
};
use crate::tasks::prompt::title_of;
use crate::tasks::records::{
    AgentStatus, PartModel, RunStepModel, StepPhase, StepStatus, TaskMessageModel, TaskModel,
};
use crate::tasks::repair::{entry_of, remembered};
use crate::tasks::task::{
    active_plan, lemma_position, message_place, step_place, with_approval_status, with_ended_step,
    with_finished_stream, with_new_step, with_plan, with_plan_step, with_stream_event, PlanIds,
};
use crate::text::{is_blank, squeezed};

verus! {

// ---- requests ----

/// A new task holds the request and its files: as its first message, and as the first thing that
/// the agent remembers. Nothing has come of it yet.
pub proof fn law_new_tasks_hold_the_request(
    ids: TaskIds,
    prompt: Seq<char>,
    workspace: Seq<char>,
    agent_name: Seq<char>,
    files: Seq<AttachmentModel>,
    at: i64,
)
    ensures
        ({
            let t = new_task_model(ids, prompt, workspace, agent_name, files, at);
            &&& t.id == ids.task@
            &&& t.prompt == prompt
            &&& t.workspace == workspace
            &&& t.agent_name == agent_name
            &&& t.created_at == at
            &&& t.status == AgentStatus::Idle
            &&& !t.archived
            &&& t.messages.len() == 1
            &&& t.messages[0].role == "user"@
            &&& t.messages[0].content == prompt
            &&& t.messages[0].attachments == files
            &&& t.messages[0].task_id == t.id
            &&& t.memory.len() == 1
            &&& is_user(t.memory[0])
            &&& t.memory[0].content == prompt
            &&& t.memory[0].attachments == files
            &&& t.plans.len() == 0 && t.steps.len() == 0 && t.tool_calls.len() == 0
            &&& t.final_answer is None && t.error is None
            &&& t.title.len() > 0
        }),
{
    reveal_strlit("Attached file");
    reveal_strlit(" attached files");
    reveal_strlit("New task");
}

/// The title of a request is made of its words. A short one is all of them, and no title is long.
pub proof fn law_titles_are_made_of_the_words(prompt: Seq<char>)
    ensures
        0 < squeezed(prompt).len() <= 56 ==> title_of(prompt) == squeezed(prompt),
        squeezed(prompt).len() > 56 ==> title_of(prompt).len() == 59 && title_of(prompt).take(56)
            == squeezed(prompt).take(56),
        squeezed(prompt).len() == 0 ==> title_of(prompt) == "New task"@,
{
    reveal_strlit("...");
    if squeezed(prompt).len() > 56 {
        assert(title_of(prompt).take(56) =~= squeezed(prompt).take(56));
    }
}

/// A task that goes on keeps its messages and what the agent remembers, and gets the new request
/// behind both.
pub proof fn law_going_on_keeps_the_conversation(
    t: TaskModel,
    ids: TaskIds,
    prompt: Seq<char>,
    files: Seq<AttachmentModel>,
    at: i64,
)
    requires
        t.memory.len() < MAX_MEMORY_ENTRIES,
    ensures
        ({
            let after = continued_task(t, ids, prompt, files, at);
            &&& after.messages.drop_last() == t.messages
            &&& after.messages.last().role == "user"@
            &&& after.messages.last().content == prompt
            &&& after.messages.last().attachments == files
            &&& after.memory.drop_last() == t.memory
            &&& is_user(after.memory.last())
            &&& after.memory.last().content == prompt
            &&& after.memory.last().attachments == files
            &&& after.status == AgentStatus::Idle
            &&& after.error is None && after.final_answer is None
            &&& after.id == t.id && after.prompt == t.prompt && after.title == t.title
            &&& after.steps == t.steps && after.tool_calls == t.tool_calls
            &&& after.updated_at == at
        }),
{
    let after = continued_task(t, ids, prompt, files, at);
    assert(after.messages.drop_last() =~= t.messages);
    assert(after.memory.drop_last() =~= t.memory);
}

/// The files of the first message of the user are those with which a task is tried again.
pub proof fn law_retrying_takes_the_first_files(
    t: TaskModel,
    ids: TaskIds,
    note: Seq<char>,
    at: i64,
    i: int,
)
    requires
        0 <= i < t.messages.len(),
        t.messages[i].role == "user"@,
        forall|j: int| 0 <= j < i ==> (#[trigger] t.messages[j]).role != "user"@,
    ensures
        retried_task(t, ids, note, at).memory[0].attachments == t.messages[i].attachments,
        is_user(retried_task(t, ids, note, at).memory[0]),
{
    lemma_first_files(t.messages, i);
}

proof fn lemma_first_files(messages: Seq<TaskMessageModel>, i: int)
    requires
        0 <= i < messages.len(),
        messages[i].role == "user"@,
        forall|j: int| 0 <= j < i ==> (#[trigger] messages[j]).role != "user"@,
    ensures
        first_files(messages) == messages[i].attachments,
    decreases messages.len(),
{
    if i > 0 {
        assert(messages[0].role != "user"@);
        let rest = messages.drop_first();
        assert forall|j: int| 0 <= j < i - 1 implies (#[trigger] rest[j]).role != "user"@ by {
            assert(rest[j] == messages[j + 1]);
        }
        lemma_first_files(rest, i - 1);
    }
}

/// Every file of every message is among the files of the task, in the order of the messages.
pub proof fn law_files_of_all_messages_are_found(
    a: Seq<TaskMessageModel>,
    message: TaskMessageModel,
    b: Seq<TaskMessageModel>,
)
    ensures
        all_files(a + b) == all_files(a) + all_files(b),
        all_files(seq![message]) == message.attachments,
    decreases b.len(),
{
    assert(seq![message].drop_last() =~= Seq::<TaskMessageModel>::empty());
    assert(all_files(seq![message].drop_last()) =~= Seq::<AttachmentModel>::empty());
    assert(all_files(seq![message]) =~= message.attachments);
    if b.len() == 0 {
        assert(a + b =~= a);
        assert(all_files(a) + all_files(b) =~= all_files(a));
    } else {
        assert((a + b).drop_last() =~= a + b.drop_last());
        assert((a + b).last() == b.last());
        law_files_of_all_messages_are_found(a, message, b.drop_last());
        assert(all_files(a + b) =~= all_files(a) + all_files(b));
    }
}

/// Whether a message is part of the conversation with the model: what the user said, what a tool
/// put out, and what the assistant said or asked for.
pub open spec fn is_told(message: TaskMessageModel) -> bool {
    ||| message.role == "user"@
    ||| message.role == "tool"@
    ||| message.role == "assistant"@ && (!is_blank(message.content) || message.tool_calls.len() > 0)
}

/// The agent can remember all that the messages tell, in their order.
pub proof fn law_messages_can_be_remembered(messages: Seq<TaskMessageModel>)
    ensures
        remembered(messages) == messages.filter(|m: TaskMessageModel| is_told(m)).map_values(
            |m: TaskMessageModel| entry_of(m),
        ),
        forall|m: TaskMessageModel|
            {
                let e = #[trigger] entry_of(m);
                &&& e.role == m.role && e.content == m.content && e.id == m.id
                &&& e.tool_calls == m.tool_calls && e.tool_call_id == m.tool_call_id
                &&& e.reasoning == m.reasoning && e.attachments == m.attachments
                &&& e.name == m.name && e.created_at == m.created_at
            },
    decreases messages.len(),
{
    reveal(Seq::filter);
    reveal_strlit("user");
    reveal_strlit("tool");
    reveal_strlit("assistant");
    assert("user"@[0] == 'u' && "tool"@[0] == 't' && "assistant"@[0] == 'a');
    let told = |m: TaskMessageModel| is_told(m);
    let entry = |m: TaskMessageModel| entry_of(m);
    if messages.len() == 0 {
        assert(remembered(messages) =~= messages.filter(told).map_values(entry));
    } else {
        law_messages_can_be_remembered(messages.drop_last());
        assert(remembered(messages) =~= messages.filter(told).map_values(entry));
    }
}

// ---- streams ----

/// A piece of text is added to what the message says, a piece of thought to what was thought; what
/// is not spoken of stays. A piece of a call changes neither.
pub proof fn law_streamed_pieces_add_up(
    message: TaskMessageModel,
    piece: String,
    index: usize,
    id: Option<String>,
    name: Option<String>,
    arguments: Option<String>,
    part_id: Seq<char>,
)
    ensures
        ({
            let after = streamed(message, StreamEvent::TextDelta(piece), part_id);
            &&& after.content == message.content + piece@
            &&& after.reasoning == message.reasoning
            &&& after.role == message.role && after.id == message.id
            &&& after.tool_calls == message.tool_calls
        }),
        ({
            let after = streamed(message, StreamEvent::ReasoningDelta(piece), part_id);
            &&& after.reasoning == message.reasoning + piece@
            &&& after.content == message.content
            &&& after.role == message.role && after.id == message.id
            &&& after.tool_calls == message.tool_calls
        }),
        ({
            let after = streamed(message, StreamEvent::ReasoningOpaque(piece), part_id);
            &&& after == (TaskMessageModel { reasoning_opaque: Some(piece@), ..message })
        }),
        ({
            let after = streamed(
                message,
                StreamEvent::ToolCallDelta { index, id, name, arguments },
                part_id,
            );
            after == (TaskMessageModel { parts: after.parts, ..message })
        }),
{
    assert(piece@.len() == 0 ==> message.content + piece@ =~= message.content);
    assert(piece@.len() == 0 ==> message.reasoning + piece@ =~= message.reasoning);
}

/// An event of a stream reaches the message that it is for, and no other one; a message that is
/// not there yet begins with it.
pub proof fn law_events_reach_their_message(
    t: TaskModel,
    message_id: Seq<char>,
    piece: String,
    part_id: Seq<char>,
    at: i64,
    i: int,
)
    requires
        piece@.len() > 0,
    ensures
        ({
            let place = message_place(t.messages, message_id);
            let after = with_stream_event(
                t,
                message_id,
                StreamEvent::TextDelta(piece),
                part_id,
                at,
            );
            &&& place < after.messages.len()
            &&& after.messages[place].id == message_id
            &&& after.messages[place].streaming
            &&& place < t.messages.len() ==> after.messages.len() == t.messages.len()
                && after.messages[place].content == t.messages[place].content + piece@
            &&& place == t.messages.len() ==> after.messages.len() == t.messages.len() + 1
                && after.messages[place].content == piece@ && after.messages[place].role
                == "assistant"@
            &&& 0 <= i < t.messages.len() && i != place ==> after.messages[i] == t.messages[i]
            &&& after.memory == t.memory && after.status == t.status
            &&& place < t.messages.len() ==> ({
                let done = with_finished_stream(t, message_id);
                &&& !done.messages[place].streaming
                &&& done.messages[place].content == t.messages[place].content
                &&& done.messages.len() == t.messages.len()
            })
        }),
{
    let ids_of = t.messages.map_values(|m: TaskMessageModel| m.id);
    lemma_position(ids_of, message_id);
    assert(Seq::<char>::empty() + piece@ =~= piece@);
}

proof fn lemma_tool_part_at(parts: Seq<PartModel>, index: usize)
    ensures
        0 <= tool_part(parts, index) <= parts.len(),
        tool_part(parts, index) < parts.len() ==> is_part_of(parts[tool_part(parts, index)], index),
    decreases parts.len(),
{
    if parts.len() > 0 && !is_part_of(parts.first(), index) {
        lemma_tool_part_at(parts.drop_first(), index);
    }
}

/// Whether the part shows the call.
pub open spec fn shows_call(part: PartModel, index: int, call: ToolCallModel) -> bool {
    part matches PartModel::Tool { id, index: i, call_id, name } && i == index && call_id == call.id
        && name == call.name
}

proof fn lemma_parts_with_calls(
    parts: Seq<PartModel>,
    message_id: Seq<char>,
    calls: Seq<ToolCallModel>,
    k: int,
) -> (p: int)
    requires
        0 <= k < calls.len() <= usize::MAX,
    ensures
        0 <= p < parts_with_calls(parts, message_id, calls).len(),
        shows_call(parts_with_calls(parts, message_id, calls)[p], k, calls[k]),
        parts_with_calls(parts, message_id, calls).len() >= parts.len(),
    decreases calls.len(),
{
    let before = calls.drop_last();
    let head = parts_with_calls(parts, message_id, before);
    let n = calls.len() - 1;
    let i = tool_part(head, n as usize);
    lemma_tool_part_at(head, n as usize);
    if before.len() > 0 {
        let p = lemma_parts_with_calls(parts, message_id, before, if k < n { k } else { 0 });
        if k < n {
            assert(before[k] == calls[k]);
            p
        } else if i < head.len() {
            i
        } else {
            head.len() as int
        }
    } else if i < head.len() {
        i
    } else {
        head.len() as int
    }
}

/// Every call of a message has a part that shows it, and the calls are those of the message.
pub proof fn law_every_call_has_its_part(
    message: TaskMessageModel,
    calls: Seq<ToolCallModel>,
    k: int,
)
    requires
        0 <= k < calls.len() <= usize::MAX,
        message.role == "assistant"@,
    ensures
        with_calls(message, calls).tool_calls == calls,
        with_calls(message, calls).content == message.content,
        exists|p: int|
            0 <= p < with_calls(message, calls).parts.len() && shows_call(
                #[trigger] with_calls(message, calls).parts[p],
                k,
                calls[k],
            ),
{
    let after = with_calls(message, calls);
    if message.parts.len() == 0 {
        let p = after.parts.len() - calls.len() + k;
        assert(shows_call(after.parts[p], k, calls[k]));
    } else {
        let p = lemma_parts_with_calls(message.parts, message.id, calls, k);
        assert(shows_call(after.parts[p], k, calls[k]));
    }
}

// ---- steps, calls and plans ----

/// A step that ends gets its status and its time, and keeps what it is; the other steps stay. A
/// step that begins comes behind the others, and runs.
pub proof fn law_steps_begin_and_end(
    t: TaskModel,
    id: Seq<char>,
    phase: StepPhase,
    title: Seq<char>,
    status: StepStatus,
    detail: Option<Seq<char>>,
    at: i64,
    i: int,
)
    ensures
        ({
            let after = with_new_step(t, id, phase, title, detail, at);
            &&& after.steps.drop_last() == t.steps
            &&& after.steps.last().id == id
            &&& after.steps.last().task_id == t.id
            &&& after.steps.last().phase == phase
            &&& after.steps.last().title == title
            &&& after.steps.last().detail == detail
            &&& after.steps.last().status == StepStatus::Running
            &&& after.steps.last().started_at == at
            &&& after.steps.last().ended_at is None
        }),
        ({
            let after = with_ended_step(t, id, status, detail, at);
            let place = step_place(t.steps, id);
            &&& after.steps.len() == t.steps.len()
            &&& 0 <= i < t.steps.len() && i != place ==> after.steps[i] == t.steps[i]
            &&& place < t.steps.len() ==> {
                let step = after.steps[place];
                &&& step.id == id
                &&& step.status == status
                &&& step.ended_at == Some(at)
                &&& detail is Some ==> step.detail == detail
                &&& detail is None ==> step.detail == t.steps[place].detail
                &&& step.title == t.steps[place].title
                &&& step.started_at == t.steps[place].started_at
                &&& step.started_at <= at ==> step.duration_ms == Some(
                    (at - step.started_at) as u64,
                )
            }
            &&& after.memory == t.memory && after.messages == t.messages
        }),
{
    let ids_of = t.steps.map_values(|s: RunStepModel| s.id);
    lemma_position(ids_of, id);
    let after = with_new_step(t, id, phase, title, detail, at);
    assert(after.steps.drop_last() =~= t.steps);
}

/// The status of a step of the plan that is worked off is set, with its note; the other steps and
/// the other plans stay.
pub proof fn law_plan_steps_are_marked(
    t: TaskModel,
    ids: PlanIds,
    index: int,
    status: PlanStepStatus,
    note: Option<Seq<char>>,
    at: i64,
    i: int,
)
    ensures
        ({
            let place = active_plan(t);
            let after = with_plan_step(t, index, status, note, at);
            0 <= place < t.plans.len() && 0 <= index < t.plans[place].steps.len() ==> {
                let before = t.plans[place];
                let plan = after.plans[place];
                &&& after.plans.len() == t.plans.len()
                &&& plan.id == before.id && plan.title == before.title
                &&& plan.steps.len() == before.steps.len()
                &&& plan.steps[index].status == status
                &&& plan.steps[index].title == before.steps[index].title
                &&& note matches Some(note) ==> plan.steps[index].notes == note
                &&& note is None ==> plan.steps[index].notes == before.steps[index].notes
                &&& 0 <= i < before.steps.len() && i != index ==> plan.steps[i]
                    == before.steps[i]
                &&& 0 <= i < t.plans.len() && i != place ==> after.plans[i] == t.plans[i]
            }
        }),
        ({
            let after = with_plan(t, ids, at);
            active_plan(t) >= t.plans.len() ==> {
                &&& after.plans.drop_last() == t.plans
                &&& after.active_plan_id == Some(ids.plan@)
                &&& after.plans.last().id == ids.plan@
                &&& after.plans.last().steps.len() == 3
                &&& 0 <= i < 3 ==> after.plans.last().steps[i].status == PlanStepStatus::NotStarted
                &&& after.plans.last().steps[0].id == ids.first@
                &&& after.plans.last().steps[1].id == ids.second@
                &&& after.plans.last().steps[2].id == ids.third@
            }
        }),
        0 <= active_plan(t) < t.plans.len() ==> with_plan(t, ids, at) == t,
{
    let after = with_plan(t, ids, at);
    if active_plan(t) >= t.plans.len() {
        assert(after.plans.drop_last() =~= t.plans);
    }
}

/// An answer to a question to the user is recorded with that question, and with no other one.
pub proof fn law_answers_are_recorded_with_their_question(
    t: TaskModel,
    id: Seq<char>,
    status: Seq<char>,
    at: i64,
    i: int,
)
    ensures
        ({
            let after = with_approval_status(t, id, status, at);
            &&& after.approval_requests.len() == t.approval_requests.len()
            &&& 0 <= i < t.approval_requests.len() ==> {
                let before = t.approval_requests[i];
                let now = after.approval_requests[i];
                &&& before.id != id ==> now == before
                &&& now.id == before.id && now.tool_name == before.tool_name
                &&& before.id == id && (forall|j: int|
                    0 <= j < i ==> (#[trigger] t.approval_requests[j]).id != id) ==> now.status
                    == status
            }
        }),
{
    let ids_of = t.approval_requests.map_values(
        |r: crate::tasks::records::ApprovalModel| r.id,
    );
    lemma_position(ids_of, id);
    let place = crate::tasks::task::approval_place(t.approval_requests, id);
    if 0 <= i < t.approval_requests.len() {
        assert(ids_of[i] == t.approval_requests[i].id);
        if place < t.approval_requests.len() {
            assert(ids_of[place] == t.approval_requests[place].id);
        }
    }
}

} // verus!
