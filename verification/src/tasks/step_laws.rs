//! What the parts of a message, the end of a step and the end of a call guarantee.

use vstd::prelude::*;

use super::parts::{
    call_part, is_part_of, parts_of, tool_part, utf16, with_call_piece, with_text_piece,
    with_thought_piece,
};
use super::records::{
    CallModel, PartModel, RunStepModel, StepStatus, TaskMessageModel, TaskModel, ToolCallStatus,
};
use super::run::{
    heard_run, repetitions, signature_of, stopped_task, callable, CompletionModel, ReplyIds,
    RunModel,
};
use super::task::{
    all_ended, ended_call, lemma_position, message_place, step_place, with_message_calls,
};
use crate::agent::ToolCallModel;
use crate::table::{law_set_value_is_read_back, value_of};

verus! {

/// The parts of a message show all of its reasoning, all of its text and each of its calls, in this
/// order.
pub proof fn law_parts_show_the_whole_message(message: TaskMessageModel, i: int)
    requires
        utf16(message.reasoning) <= usize::MAX,
        utf16(message.content) <= usize::MAX,
    ensures
        ({
            let parts = parts_of(message);
            let thought = if message.reasoning.len() > 0 {
                1int
            } else {
                0int
            };
            let text = if message.content.len() > 0 {
                1int
            } else {
                0int
            };
            &&& parts.len() == thought + text + message.tool_calls.len()
            &&& thought == 1 ==> (parts[0] matches PartModel::Reasoning { start, end, .. } && start
                == 0 && end == utf16(message.reasoning))
            &&& text == 1 ==> (parts[thought] matches PartModel::Text { start, end, .. } && start
                == 0 && end == utf16(message.content))
            &&& 0 <= i < message.tool_calls.len() ==> parts[thought + text + i] == call_part(
                message.id,
                i,
                message.tool_calls[i],
            )
        }),
{
}

/// A piece of text that comes lengthens the text that stands last, and begins a new one else; so
/// does a piece of reasoning. What came before stays.
pub proof fn law_pieces_lengthen_what_stands_last(
    parts: Seq<PartModel>,
    from: nat,
    len: nat,
    part_id: Seq<char>,
    i: int,
)
    requires
        from + len <= usize::MAX,
    ensures
        ({
            let after = with_text_piece(parts, from, len, part_id);
            &&& after.len() > 0
            &&& (parts.len() > 0 && parts.last() is Text ==> (parts.last() matches PartModel::Text {
                id,
                start,
                end,
            } ==> end + len <= usize::MAX ==> after.len() == parts.len() && after.last()
                == (PartModel::Text { id, start, end: (end + len) as usize })))
            &&& (parts.len() == 0 || !(parts.last() is Text)) ==> after.len() == parts.len() + 1
                && after.last() == (PartModel::Text {
                id: part_id,
                start: from as usize,
                end: (from + len) as usize,
            })
            &&& 0 <= i < parts.len() - 1 ==> after[i] == parts[i]
        }),
        ({
            let after = with_thought_piece(parts, from, len, part_id);
            &&& after.len() > 0
            &&& (parts.len() > 0 && parts.last() is Reasoning ==> (
            parts.last() matches PartModel::Reasoning { id, start, end } ==> end + len
                <= usize::MAX ==> after.len() == parts.len() && after.last() == (
            PartModel::Reasoning { id, start, end: (end + len) as usize })))
            &&& (parts.len() == 0 || !(parts.last() is Reasoning)) ==> after.len() == parts.len()
                + 1 && after.last() == (PartModel::Reasoning {
                id: part_id,
                start: from as usize,
                end: (from + len) as usize,
            })
            &&& 0 <= i < parts.len() - 1 ==> after[i] == parts[i]
        }),
{
}

proof fn lemma_tool_part(parts: Seq<PartModel>, index: usize)
    ensures
        0 <= tool_part(parts, index) <= parts.len(),
        tool_part(parts, index) < parts.len() ==> is_part_of(
            parts[tool_part(parts, index)],
            index,
        ),
    decreases parts.len(),
{
    if parts.len() > 0 && !is_part_of(parts.first(), index) {
        lemma_tool_part(parts.drop_first(), index);
    }
}

/// The name of a call is put together from its pieces, in the order in which they come, and every
/// other part stays.
pub proof fn law_names_of_calls_are_put_together(
    parts: Seq<PartModel>,
    index: usize,
    id: Seq<char>,
    name: Seq<char>,
    part_id: Seq<char>,
    k: int,
)
    ensures
        ({
            let i = tool_part(parts, index);
            let after = with_call_piece(parts, index, id, name, part_id);
            &&& i < parts.len() ==> after.len() == parts.len() && (
            parts[i] matches PartModel::Tool { name: known, .. } && (
            after[i] matches PartModel::Tool { name: longer, index: same, .. } && longer == known
                + name && same == index))
            &&& i >= parts.len() ==> after.len() == parts.len() + 1 && (
            after.last() matches PartModel::Tool { name: first, index: same, .. } && first == name
                && same == index)
            &&& 0 <= k < parts.len() && k != i ==> after[k] == parts[k]
        }),
{
    lemma_tool_part(parts, index);
}

/// Where steps are ended, each one that runs is, and tells why; one that had ended stays as it was.
pub proof fn law_every_running_step_is_ended(
    steps: Seq<RunStepModel>,
    status: StepStatus,
    detail: Seq<char>,
    at: i64,
    i: int,
)
    requires
        0 <= i < steps.len(),
    ensures
        ({
            let after = all_ended(steps, status, detail, at);
            &&& after.len() == steps.len()
            &&& after[i].id == steps[i].id
            &&& steps[i].status == StepStatus::Running ==> after[i].status == status
                && after[i].detail == Some(detail) && after[i].ended_at == Some(at)
            &&& steps[i].status != StepStatus::Running ==> after[i] == steps[i]
        }),
{
}

/// A call that has ended tells what came of it, what went wrong and how long it took.
pub proof fn law_ended_calls_tell_what_came_of_them(
    call: CallModel,
    status: ToolCallStatus,
    output: Option<Seq<char>>,
    error: Option<Seq<char>>,
    at: i64,
)
    ensures
        ({
            let ended = ended_call(call, status, output, error, at);
            &&& ended.id == call.id
            &&& ended.name == call.name
            &&& ended.status == status
            &&& ended.result == output
            &&& ended.error == error
            &&& ended.ended_at == Some(at)
            &&& 0 <= call.started_at <= at ==> ended.duration_ms == Some(
                (at - call.started_at) as u64,
            )
        }),
{
}

/// The calls of a reply stand in its message, which is made where there is none; every other
/// message stays.
pub proof fn law_calls_stand_in_their_message(
    t: TaskModel,
    message_id: Seq<char>,
    calls: Seq<ToolCallModel>,
    at: i64,
    k: int,
)
    requires
        calls.len() > 0,
    ensures
        ({
            let i = message_place(t.messages, message_id);
            let after = with_message_calls(t, message_id, calls, at).messages;
            &&& i < after.len()
            &&& after[i].id == message_id
            &&& after[i].tool_calls == calls
            &&& i < t.messages.len() ==> after.len() == t.messages.len() && after[i].content
                == t.messages[i].content && after[i].reasoning == t.messages[i].reasoning
            &&& i >= t.messages.len() ==> after.len() == t.messages.len() + 1
            &&& 0 <= k < t.messages.len() && k != i ==> after[k] == t.messages[k]
        }),
{
    lemma_position(t.messages.map_values(|m: TaskMessageModel| m.id), message_id);
}

/// Replies that say the same are counted: where one is heard, it has been heard once more than
/// before, and all others as often as before.
pub proof fn law_replies_that_repeat_are_counted(
    r: RunModel,
    c: CompletionModel,
    other: Seq<char>,
)
    requires
        other != signature_of(c.content, callable(c.tool_calls)),
    ensures
        ({
            let signature = signature_of(c.content, callable(c.tool_calls));
            let after = heard_run(r, c).signatures;
            &&& value_of(r.signatures, signature) is None ==> value_of(after, signature) == Some(
                1u32,
            )
            &&& (value_of(r.signatures, signature) matches Some(n) ==> n < u32::MAX ==> value_of(
                after,
                signature,
            ) == Some((n + 1) as u32))
            &&& value_of(after, other) == value_of(r.signatures, other)
        }),
{
    law_set_value_is_read_back(
        r.signatures,
        signature_of(c.content, callable(c.tool_calls)),
        repetitions(r, c),
        other,
    );
}

/// A run that repeats itself ends its step as failed, if it has one.
pub proof fn law_repeating_runs_fail_their_step(
    t: TaskModel,
    r: RunModel,
    ids: ReplyIds,
    at: i64,
)
    ensures
        ({
            let i = step_place(t.steps, r.step_id);
            let after = stopped_task(t, r, ids, at);
            &&& i < t.steps.len() ==> after.steps[i].status == StepStatus::Failed
                && after.steps[i].detail is Some && after.steps[i].ended_at == Some(at)
            &&& after.messages == t.messages
            &&& after.prompt == t.prompt
        }),
{
    lemma_position(t.steps.map_values(|s: RunStepModel| s.id), r.step_id);
}

} // verus!
