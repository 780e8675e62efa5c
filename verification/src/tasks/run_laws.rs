//! What a run of an agent guarantees: every call is made, every result is heard, and the answer is
//! kept.

use vstd::prelude::*;

use crate::agent::{AgentState, Role, ToolCallModel};
use crate::chat::{chat, ChatModel};
use crate::coding::limits::MAX_OUTPUT_CHARS;
use crate::json::JsonModel;
use crate::memory::{is_assistant, is_tool, is_user, MAX_MEMORY_ENTRIES};
use crate::models::EntryModel;
use crate::number::decimal;
use crate::plan::PlanStepStatus;
use crate::table::value_of;
use crate::tasks::prompt::conversation;
use crate::tasks::records::{
    AgentStatus, ResultModel, StepPhase, StepStatus, TaskModel, ToolCallStatus,
};
use crate::tasks::run::{
    callable, new_run, next_turn, replied_run, replied_task, round_begun, round_fault,
    signature_of, CompletionModel,
    ReplyIds, RunModel, TurnModel,
};
use crate::tasks::run_end::{
    end_of, ended_task, next_run, resulted_run, EndModel,
};
use crate::tasks::task::{
    active_plan, call_place, has_step, lemma_position, message_place, step_place,
};
use crate::tasks::tool_run::{
    begun_call, concluded_call, CallIds, ErrorModel, ToolInvocation, ToolOutcome,
};
use crate::text::{is_blank, trimmed};

verus! {

// ---- calls ----

/// Whether a call can be made: it has an identifier and a name.
pub open spec fn can_be_made(call: ToolCallModel) -> bool {
    !is_blank(call.id) && !is_blank(call.name)
}

/// Every call of a reply that has an identifier and a name is made, in the order of the reply, and
/// no other one.
pub proof fn law_every_call_that_can_be_made_is_made(calls: Seq<ToolCallModel>)
    ensures
        callable(calls) == calls.filter(|c: ToolCallModel| can_be_made(c)),
        (forall|i: int| 0 <= i < calls.len() ==> can_be_made(#[trigger] calls[i])) ==> callable(
            calls,
        ) == calls,
        forall|i: int| 0 <= i < calls.len() && can_be_made(#[trigger] calls[i]) ==> callable(
            calls,
        ).contains(calls[i]),
        forall|i: int| 0 <= i < callable(calls).len() ==> can_be_made(#[trigger] callable(calls)[i]),
    decreases calls.len(),
{
    reveal(Seq::filter);
    let made = |c: ToolCallModel| can_be_made(c);
    if calls.len() == 0 {
        assert(callable(calls) =~= calls.filter(made));
        assert(callable(calls) =~= calls);
    } else {
        let head = calls.drop_last();
        law_every_call_that_can_be_made_is_made(head);
        let rest = callable(head);
        assert(calls =~= head.push(calls.last()));
        assert(callable(calls) =~= calls.filter(made));
        if forall|i: int| 0 <= i < calls.len() ==> can_be_made(#[trigger] calls[i]) {
            assert forall|i: int| 0 <= i < head.len() implies can_be_made(#[trigger] head[i]) by {
                assert(head[i] == calls[i]);
            }
            assert(can_be_made(calls[calls.len() - 1]));
            assert(callable(calls) =~= calls);
        }
        assert forall|i: int| 0 <= i < calls.len() && can_be_made(#[trigger] calls[i]) implies
            callable(calls).contains(calls[i]) by {
            if i < head.len() {
                assert(head[i] == calls[i]);
                let k = choose|k: int| 0 <= k < rest.len() && rest[k] == calls[i];
                assert(callable(calls)[k] == calls[i]);
            } else {
                assert(callable(calls)[callable(calls).len() - 1] == calls[i]);
            }
        }
    }
}

/// How often the reply came before.
pub open spec fn came_before(r: RunModel, c: CompletionModel) -> nat {
    match value_of(r.signatures, signature_of(c.content, callable(c.tool_calls))) {
        Some(n) => n as nat,
        None => 0,
    }
}

/// A reply with calls that has come at most once before is acted on: all its calls that can be made
/// are to be called. They are recorded in what the agent remembers, in the conversation and in the
/// message that the user sees, with all that was said; the step of the round is completed with the
/// number of the calls, and a step begins in which they are made.
pub proof fn law_calls_of_a_reply_are_made_and_recorded(
    t: TaskModel,
    r: RunModel,
    c: CompletionModel,
    ids: ReplyIds,
    at: i64,
)
    requires
        has_step(t, r.step_id),
        came_before(r, c) < 2,
        exists|i: int| 0 <= i < c.tool_calls.len() && can_be_made(#[trigger] c.tool_calls[i]),
        t.memory.len() < MAX_MEMORY_ENTRIES,
    ensures
        ({
            let calls = c.tool_calls.filter(|c: ToolCallModel| can_be_made(c));
            let after = replied_task(t, r, c, ids, at);
            let run = replied_run(t, r, c);
            let entry = after.memory.last();
            let message = run.messages.last();
            let place = step_place(t.steps, r.step_id);
            &&& next_turn(t, r, c) == TurnModel::Act(calls)
            &&& after.memory.len() == t.memory.len() + 1
            &&& after.memory.drop_last() == t.memory
            &&& is_assistant(entry)
            &&& entry.id == ids.memory@
            &&& entry.content == c.content
            &&& entry.reasoning == c.reasoning
            &&& entry.reasoning_opaque == c.reasoning_opaque
            &&& entry.tool_calls == calls
            &&& entry.tool_names.len() == calls.len()
            &&& forall|i: int| 0 <= i < calls.len() ==> #[trigger] entry.tool_names[i] == calls[i].name
            &&& run.messages.drop_last() == r.messages
            &&& message.role == "assistant"@
            &&& message.content == (if c.content.len() > 0 {
                Some(c.content)
            } else {
                None
            })
            &&& message.tool_calls == Some(calls)
            &&& run.agent.tool_calls == calls
            &&& run.agent.state == r.agent.state
            &&& run.round == r.round
            &&& run.step_id == r.step_id
            &&& run.failure is None
            &&& run.ending is None
            &&& after.status == AgentStatus::Executing
            &&& after.error is None
            &&& after.steps.len() == t.steps.len() + 1
            &&& after.steps[place].status == StepStatus::Completed
            &&& after.steps[place].ended_at == Some(at)
            &&& calls.len() == 1 ==> after.steps[place].detail == Some(
                "1 tool call requested."@,
            )
            &&& calls.len() > 1 ==> after.steps[place].detail == Some(
                decimal(calls.len()) + " tool calls requested."@,
            )
            &&& after.steps.last().id == ids.act_step@
            &&& after.steps.last().phase == StepPhase::Act
            &&& after.steps.last().status == StepStatus::Running
            &&& forall|i: int|
                0 <= i < t.steps.len() && i != place ==> after.steps[i] == #[trigger] t.steps[i]
            &&& after.final_answer == t.final_answer
        }),
{
    law_every_call_that_can_be_made_is_made(c.tool_calls);
    let calls = callable(c.tool_calls);
    let k = choose|i: int| 0 <= i < c.tool_calls.len() && can_be_made(#[trigger] c.tool_calls[i]);
    assert(calls.contains(c.tool_calls[k]));
    let after = replied_task(t, r, c, ids, at);
    let run = replied_run(t, r, c);
    let ids_of = t.steps.map_values(|s: crate::tasks::records::RunStepModel| s.id);
    lemma_position(ids_of, r.step_id);
    let entry = after.memory.last();
    let all = t.memory.push(entry);
    assert(after.memory =~= all);
    assert(after.memory.drop_last() =~= t.memory);
    assert(run.messages.drop_last() =~= r.messages);
    reveal_strlit(" tool call");
    reveal_strlit("");
    reveal_strlit("s");
    reveal_strlit(" requested.");
    reveal_strlit("1 tool call requested.");
    reveal_strlit(" tool calls requested.");
    assert(decimal(1) =~= seq!['1']);
    assert(decimal(1) + " tool call"@ + ""@ + " requested."@ =~= "1 tool call requested."@);
    assert(decimal(calls.len()) + " tool call"@ + "s"@ + " requested."@ =~= decimal(calls.len())
        + " tool calls requested."@);
}

/// The message that the user sees of a reply has its calls, and says what it said before. Where
/// there was none it is added, behind the others. The other messages stay.
pub proof fn law_the_user_sees_the_calls(
    t: TaskModel,
    r: RunModel,
    c: CompletionModel,
    ids: ReplyIds,
    at: i64,
    i: int,
)
    requires
        has_step(t, r.step_id),
        came_before(r, c) < 2,
        callable(c.tool_calls).len() > 0,
    ensures
        ({
            let calls = c.tool_calls.filter(|c: ToolCallModel| can_be_made(c));
            let after = replied_task(t, r, c, ids, at);
            let place = message_place(t.messages, c.message_id);
            &&& place < after.messages.len()
            &&& after.messages[place].id == c.message_id
            &&& after.messages[place].tool_calls == calls
            &&& place < t.messages.len() ==> {
                &&& after.messages.len() == t.messages.len()
                &&& after.messages[place].content == t.messages[place].content
                &&& after.messages[place].reasoning == t.messages[place].reasoning
            }
            &&& place == t.messages.len() ==> after.messages.len() == t.messages.len() + 1
                && after.messages[place].role == "assistant"@
            &&& 0 <= i < t.messages.len() && i != place ==> after.messages[i] == t.messages[i]
        }),
{
    law_every_call_that_can_be_made_is_made(c.tool_calls);
    let ids_of = t.messages.map_values(|m: crate::tasks::records::TaskMessageModel| m.id);
    lemma_position(ids_of, c.message_id);
}

/// A reply that says something and has no call that can be made is the answer: it ends the run,
/// and it is remembered. One that says nothing leaves what was said last as the answer.
pub proof fn law_a_reply_without_calls_is_the_answer(
    t: TaskModel,
    r: RunModel,
    c: CompletionModel,
    ids: ReplyIds,
    at: i64,
)
    requires
        has_step(t, r.step_id),
        forall|i: int| 0 <= i < c.tool_calls.len() ==> !can_be_made(#[trigger] c.tool_calls[i]),
        c.tool_calls.len() == 0 || !is_blank(c.content),
    ensures
        ({
            let run = replied_run(t, r, c);
            let after = replied_task(t, r, c, ids, at);
            let place = step_place(t.steps, r.step_id);
            &&& !is_blank(c.content) ==> next_turn(t, r, c) == TurnModel::Answer(c.content)
            &&& is_blank(c.content) && r.latest_answer.len() > 0 ==> next_turn(t, r, c)
                == TurnModel::Answer(r.latest_answer)
            &&& next_turn(t, r, c) is Answer
            &&& next_turn(t, r, c)->Answer_0.len() > 0
            &&& run.latest_answer == next_turn(t, r, c)->Answer_0
            &&& run.agent.state == AgentState::Finished
            &&& run.messages.drop_last() == r.messages
            &&& run.messages.last().tool_calls is None
            &&& after.steps.len() == t.steps.len()
            &&& after.steps[place].status == StepStatus::Completed
            &&& !is_blank(c.content) ==> after.messages == t.messages
            &&& !is_blank(c.content) && t.memory.len() < MAX_MEMORY_ENTRIES ==> {
                &&& after.memory.len() == t.memory.len() + 1
                &&& after.memory.drop_last() == t.memory
                &&& is_assistant(after.memory.last())
                &&& after.memory.last().content == c.content
                &&& after.memory.last().tool_calls.len() == 0
            }
        }),
{
    law_every_call_that_can_be_made_is_made(c.tool_calls);
    let calls = callable(c.tool_calls);
    if calls.len() > 0 {
        assert(can_be_made(calls[0]));
        lemma_callable_is_from(c.tool_calls, 0);
    }
    let run = replied_run(t, r, c);
    let after = replied_task(t, r, c, ids, at);
    let ids_of = t.steps.map_values(|s: crate::tasks::records::RunStepModel| s.id);
    lemma_position(ids_of, r.step_id);
    reveal_strlit("The model completed the run without a streamed final message.");
    assert(run.messages.drop_last() =~= r.messages);
    if !is_blank(c.content) && t.memory.len() < MAX_MEMORY_ENTRIES {
        assert(after.memory =~= t.memory.push(after.memory.last()));
        assert(after.memory.drop_last() =~= t.memory);
    }
}

proof fn lemma_callable_is_from(calls: Seq<ToolCallModel>, k: int)
    requires
        0 <= k < callable(calls).len(),
    ensures
        calls.contains(callable(calls)[k]),
    decreases calls.len(),
{
    if calls.len() > 0 {
        let head = calls.drop_last();
        if k < callable(head).len() {
            lemma_callable_is_from(head, k);
            let j = choose|j: int| 0 <= j < head.len() && head[j] == callable(head)[k];
            assert(calls[j] == callable(calls)[k]);
        } else {
            assert(calls[calls.len() - 1] == callable(calls)[k]);
        }
    }
}

/// A reply that asks for calls none of which can be made, and says nothing, stops the run and
/// leaves no trace.
pub proof fn law_a_void_reply_stops_the_run(
    t: TaskModel,
    r: RunModel,
    c: CompletionModel,
    ids: ReplyIds,
    at: i64,
)
    requires
        c.tool_calls.len() > 0,
        forall|i: int| 0 <= i < c.tool_calls.len() ==> !can_be_made(#[trigger] c.tool_calls[i]),
        is_blank(c.content),
    ensures
        next_turn(t, r, c) is Stop,
        replied_task(t, r, c, ids, at) == t,
        replied_run(t, r, c) == r,
{
    law_every_call_that_can_be_made_is_made(c.tool_calls);
    if callable(c.tool_calls).len() > 0 {
        lemma_callable_is_from(c.tool_calls, 0);
        assert(can_be_made(callable(c.tool_calls)[0]));
    }
}

/// Two replies with one call each count as the same if and only if they say the same, but for
/// spaces around it, and call the same tool with the same arguments: the identifier does not count.
pub proof fn law_replies_are_told_apart_by_what_they_ask_for(
    said: Seq<char>,
    again: Seq<char>,
    one: ToolCallModel,
    other: ToolCallModel,
)
    ensures
        trimmed(said) == trimmed(again) && one.name == other.name && one.arguments
            == other.arguments ==> signature_of(said, seq![one]) == signature_of(
            again,
            seq![other],
        ),
        trimmed(said) == trimmed(again) && one.name == other.name && one.arguments
            != other.arguments ==> signature_of(said, seq![one]) != signature_of(
            again,
            seq![other],
        ),
        trimmed(said) == trimmed(again) && one.name != other.name && one.arguments
            == other.arguments ==> signature_of(said, seq![one]) != signature_of(
            again,
            seq![other],
        ),
        trimmed(said) != trimmed(again) && one.name == other.name && one.arguments
            == other.arguments ==> signature_of(said, seq![one]) != signature_of(
            again,
            seq![other],
        ),
{
    let mark = |c: ToolCallModel| c.name + ":"@ + c.arguments;
    let first = seq![one].map_values(mark);
    let second = seq![other].map_values(mark);
    assert(crate::tasks::run::call_marks(seq![one]) =~= seq![mark(one)]);
    assert(crate::tasks::run::call_marks(seq![other]) =~= seq![mark(other)]);
    assert(crate::text::joined(seq![mark(one)], "|"@) == mark(one));
    assert(crate::text::joined(seq![mark(other)], "|"@) == mark(other));
    let a = signature_of(said, seq![one]);
    let b = signature_of(again, seq![other]);
    assert(a =~= trimmed(said) + "|"@ + one.name + ":"@ + one.arguments);
    assert(b =~= trimmed(again) + "|"@ + other.name + ":"@ + other.arguments);
    if a == b && one.arguments == other.arguments {
        let n = one.arguments.len();
        let x = trimmed(said) + "|"@ + one.name + ":"@;
        let y = trimmed(again) + "|"@ + other.name + ":"@;
        assert(x =~= a.take(a.len() - n));
        assert(y =~= b.take(b.len() - n));
        if one.name == other.name {
            let tail = "|"@ + one.name + ":"@;
            assert(trimmed(said) =~= x.take(x.len() - tail.len()));
            assert(trimmed(again) =~= y.take(y.len() - tail.len()));
        }
        if trimmed(said) == trimmed(again) {
            let front = (trimmed(said) + "|"@).len() as int;
            assert(one.name =~= x.subrange(front, x.len() - ":"@.len()));
            assert(other.name =~= y.subrange(front, y.len() - ":"@.len()));
        }
    }
    if a == b && trimmed(said) == trimmed(again) && one.name == other.name {
        let front = (trimmed(said) + "|"@ + one.name + ":"@).len() as int;
        assert(one.arguments =~= a.skip(front));
        assert(other.arguments =~= b.skip(front));
    }
}

// ---- results ----

/// What a tool put out reaches the model as it is, where it is not too long: behind all that was
/// said before, as the result of the very call that asked for it. An error reaches it too.
pub proof fn law_results_reach_the_model(
    r: RunModel,
    call: ToolCallModel,
    arguments: JsonModel,
    result: ResultModel,
)
    ensures
        ({
            let run = resulted_run(r, call, arguments, result);
            let message = run.messages.last();
            &&& run.messages.len() == r.messages.len() + 1
            &&& run.messages.drop_last() == r.messages
            &&& message.role == "tool"@
            &&& message.tool_call_id == Some(call.id)
            &&& message.name == Some(call.name)
            &&& message.content is Some
            &&& result.output matches Some(output) ==> {
                &&& output.len() <= MAX_OUTPUT_CHARS ==> message.content == Some(output)
                &&& output.len() > MAX_OUTPUT_CHARS ==> message.content->0.len() > MAX_OUTPUT_CHARS
                    && message.content->0.take(MAX_OUTPUT_CHARS as int) == output.take(
                    MAX_OUTPUT_CHARS as int,
                )
            }
            &&& result.output is None ==> match result.error {
                Some(error) => message.content == Some("Tool error: "@ + error),
                None => message.content == Some("Tool returned no output."@),
            }
            &&& run.round == r.round
            &&& run.latest_answer == r.latest_answer
            &&& run.signatures == r.signatures
            &&& run.agent.state == r.agent.state
        }),
{
    let run = resulted_run(r, call, arguments, result);
    assert(run.messages.drop_last() =~= r.messages);
    if let Some(output) = result.output {
        if output.len() > MAX_OUTPUT_CHARS {
            reveal_strlit("\n[output truncated]");
            let text = output.take(MAX_OUTPUT_CHARS as int) + crate::coding::limits::OUTPUT_NOTE@;
            assert(text.take(MAX_OUTPUT_CHARS as int) =~= output.take(MAX_OUTPUT_CHARS as int));
        }
    }
}

/// Only the tool that ends a run ends it: with the message where it failed, with what it put out
/// where it did not.
pub proof fn law_only_the_terminating_tool_ends_a_run(
    r: RunModel,
    call: ToolCallModel,
    arguments: JsonModel,
    result: ResultModel,
)
    ensures
        ({
            let run = resulted_run(r, call, arguments, result);
            let fails = arguments.text("status"@) == Some("failure"@);
            &&& call.name != "rust_terminate"@ ==> run.failure == r.failure && run.ending
                == r.ending
            &&& call.name == "rust_terminate"@ && fails ==> {
                &&& run.failure is Some
                &&& run.ending == r.ending
                &&& arguments.text("message"@) is Some ==> run.failure == arguments.text(
                    "message"@,
                )
            }
            &&& call.name == "rust_terminate"@ && !fails ==> {
                &&& run.failure == r.failure
                &&& result.output is Some ==> run.ending == result.output
                &&& result.output is None ==> run.ending == r.ending
            }
        }),
{
    reveal_strlit("success");
    reveal_strlit("failure");
    assert("success"@[0] == 's' && "failure"@[0] == 'f');
}

/// The calls that a task has recorded keep what came of them: the output of a tool that ran, the
/// error of one that failed.
pub proof fn law_what_came_of_a_call_is_recorded(
    t: TaskModel,
    invocation: ToolInvocation,
    ids: CallIds,
    outcome: ToolOutcome,
    begun_at: i64,
    at: i64,
    i: int,
)
    requires
        call_place(t.tool_calls, ids.call@) == t.tool_calls.len(),
        t.memory.len() < MAX_MEMORY_ENTRIES,
    ensures
        ({
            let begun = begun_call(t, invocation, ids, begun_at);
            let after = concluded_call(begun, invocation, ids, outcome, at);
            let n = t.tool_calls.len() as int;
            let call = after.tool_calls[n];
            let entry = after.memory.last();
            &&& begun.tool_calls[n].status == ToolCallStatus::Running
            &&& begun.tool_calls[n].name == invocation.name@
            &&& begun.tool_calls[n].arguments == invocation.arguments.deep_view()
            &&& begun.memory == t.memory
            &&& begun.messages == t.messages
            &&& call.id == ids.call@
            &&& call.name == invocation.name@
            &&& call.arguments == invocation.arguments.deep_view()
            &&& call.started_at == begun_at
            &&& call.ended_at == Some(at)
            &&& outcome matches ToolOutcome::Done(output) ==> {
                &&& call.status == ToolCallStatus::Completed
                &&& call.result == Some(output@)
                &&& call.error is None
                &&& output@.len() <= MAX_OUTPUT_CHARS ==> entry.content == output@
            }
            &&& outcome matches ToolOutcome::Failed(error) ==> {
                &&& call.status == ToolCallStatus::Failed
                &&& call.result is None
                &&& call.error == Some(error@)
                &&& entry.content == error@
            }
            &&& outcome is Cancelled || outcome is ApprovalCancelled ==> call.status
                == ToolCallStatus::Cancelled
            &&& !(outcome is Done) ==> call.result is None && call.error is Some && call.status
                != ToolCallStatus::Completed
            &&& after.memory.len() == t.memory.len() + 1
            &&& after.memory.drop_last() == t.memory
            &&& is_tool(entry)
            &&& entry.id == ids.memory@
            &&& (invocation.model_tool_call_id matches Some(id) ==> !is_blank(id@)
                ==> entry.tool_call_id == Some(id@))
            &&& entry.tool_call_id == after.messages.last().tool_call_id
            &&& after.messages.drop_last() == t.messages
            &&& 0 <= i < n ==> after.tool_calls[i] == t.tool_calls[i]
            &&& after.status == t.status
        }),
{
    crate::tasks::tool_run::law_every_call_is_answered(t, invocation, ids, outcome, begun_at, at);
    let begun = begun_call(t, invocation, ids, begun_at);
    let after = concluded_call(begun, invocation, ids, outcome, at);
    assert(after.memory =~= t.memory.push(after.memory.last()));
    assert(after.memory.drop_last() =~= t.memory);
    assert(after.messages.drop_last() =~= t.messages);
}

// ---- requests ----

/// The messages of a memory are those of its parts; an entry of the user, of the assistant or of
/// a tool has one message that says what it says, and no other entry has one.
pub proof fn law_every_entry_is_told(a: Seq<EntryModel>, entry: EntryModel, b: Seq<EntryModel>)
    ensures
        chat(a + b) == chat(a) + chat(b),
        is_user(entry) || is_assistant(entry) || is_tool(entry) ==> {
            let said = chat(seq![entry]);
            &&& said.len() == 1
            &&& said[0].role == entry.role
            &&& entry.content.len() > 0 ==> said[0].content == Some(entry.content)
            &&& entry.reasoning.len() > 0 ==> said[0].reasoning_content == Some(entry.reasoning)
            &&& entry.tool_calls.len() > 0 ==> said[0].tool_calls == Some(entry.tool_calls)
            &&& entry.tool_calls.len() == 0 ==> said[0].tool_calls is None
            &&& said[0].tool_call_id == entry.tool_call_id
            &&& said[0].attachments == entry.attachments
        },
        !(is_user(entry) || is_assistant(entry) || is_tool(entry)) ==> chat(seq![entry]).len() == 0,
    decreases b.len(),
{
    assert(seq![entry].drop_last() =~= Seq::<EntryModel>::empty());
    assert(chat(seq![entry].drop_last()) =~= Seq::<ChatModel>::empty());
    if b.len() == 0 {
        assert(a + b =~= a);
        assert(chat(a) + chat(b) =~= chat(a));
    } else {
        assert((a + b).drop_last() =~= a + b.drop_last());
        assert((a + b).last() == b.last());
        law_every_entry_is_told(a, entry, b.drop_last());
        assert(chat(a + b) =~= chat(a) + chat(b));
    }
}

/// A request begins with what the agent is told about itself and its rules, and then tells all
/// that the agent remembers; where that is nothing, it is the request of the user.
pub proof fn law_requests_tell_all(
    header: Seq<char>,
    policy: Seq<char>,
    memory: Seq<EntryModel>,
    prompt: Seq<char>,
)
    ensures
        ({
            let messages = conversation(header, policy, memory, prompt);
            &&& messages.len() >= 2
            &&& messages[0].role == "system"@ && messages[0].content == Some(header)
            &&& messages[1].role == "system"@ && messages[1].content == Some(policy)
            &&& memory.len() > 0 ==> messages.skip(2) == chat(memory)
            &&& memory.len() == 0 ==> messages.len() == 3 && messages[2].role == "user"@
                && messages[2].content == Some(prompt)
        }),
{
    let messages = conversation(header, policy, memory, prompt);
    if memory.len() > 0 {
        assert(messages.skip(2) =~= chat(memory));
    }
}

/// A round that ends without a result that ends the run is followed by another: the next request
/// tells all that the agent remembers, and nothing else of the run is lost.
pub proof fn law_rounds_follow_each_other(r: RunModel, memory: Seq<EntryModel>)
    requires
        r.failure is None,
        r.ending is None,
        r.round < r.max_steps,
        r.agent.state == AgentState::Running,
        r.agent.current_step < r.agent.max_steps,
    ensures
        ({
            let next = next_run(r, memory);
            &&& next.round == r.round + 1
            &&& next.messages == conversation(r.header, r.policy, memory, r.prompt)
            &&& next.agent == r.agent
            &&& next.signatures == r.signatures
            &&& next.latest_answer == r.latest_answer
            &&& round_fault(r, false) is None
            &&& next.round < next.max_steps ==> round_fault(next, false) is None
            &&& round_fault(next, true) is Some
        }),
{
}

// ---- the end ----

/// A run that has an answer and was not cancelled is completed with that very answer. One that
/// failed keeps its error, and tells the user; a cancelled one has neither.
pub proof fn law_the_answer_of_a_run_is_kept(
    t: TaskModel,
    answer: Seq<char>,
    error: Seq<char>,
    id: Seq<char>,
    at: i64,
)
    ensures
        end_of(Ok(answer), false) == EndModel::Completed(answer),
        end_of(Ok(answer), true) == EndModel::Cancelled,
        end_of(Err(ErrorModel::Message(error)), false) == EndModel::Failed(error),
        end_of(Err(ErrorModel::Cancelled), false) == EndModel::Cancelled,
        ({
            let after = ended_task(t, EndModel::Completed(answer), id, at);
            &&& after.status == AgentStatus::Completed
            &&& after.final_answer == Some(answer)
            &&& after.error is None
            &&& after.messages == t.messages
            &&& after.memory == t.memory
            &&& after.steps == t.steps
        }),
        ({
            let after = ended_task(t, EndModel::Failed(error), id, at);
            &&& after.status == AgentStatus::Failed
            &&& after.error == Some(error)
            &&& after.final_answer == t.final_answer
            &&& after.messages.drop_last() == t.messages
            &&& after.messages.last().id == id
            &&& after.messages.last().content == "Agent failed: "@ + error
            &&& after.memory == t.memory
        }),
        ({
            let after = ended_task(t, EndModel::Cancelled, id, at);
            &&& after.status == AgentStatus::Cancelled
            &&& after.error is None
            &&& after.final_answer == t.final_answer
            &&& after.messages == t.messages
            &&& after.memory == t.memory
        }),
{
    crate::tasks::task::lemma_touched_times(
        t,
        crate::tasks::task::running_count(t.steps),
        at,
    );
    let after = ended_task(t, EndModel::Failed(error), id, at);
    assert(after.messages.drop_last() =~= t.messages);
}

// ---- rounds ----

/// A run begins with the whole conversation, at its first round, with nothing said yet and no call
/// made, and may take as many steps as it is allowed, one at least.
pub proof fn law_runs_begin_with_the_conversation(
    t: TaskModel,
    workspace: Seq<char>,
    max_steps: u32,
    step_id: Seq<char>,
)
    ensures
        ({
            let r = new_run(t, workspace, max_steps, step_id);
            &&& r.messages == conversation(r.header, r.policy, t.memory, t.prompt)
            &&& r.prompt == t.prompt
            &&& r.round == 0
            &&& r.step_id == step_id
            &&& max_steps >= 1 ==> r.max_steps == max_steps
            &&& r.max_steps >= 1
            &&& r.agent.max_steps == r.max_steps
            &&& r.agent.state == AgentState::Running
            &&& r.agent.current_step == 0
            &&& r.signatures.len() == 0
            &&& r.latest_answer.len() == 0
            &&& r.failure is None && r.ending is None
            &&& round_fault(r, false) is None
        }),
{
}

/// The first round is planning, and each later one verifies what the tools brought, in a step of
/// its own that runs; the steps before it stay.
pub proof fn law_rounds_show_what_is_done(
    t: TaskModel,
    round: u32,
    step_id: Seq<char>,
    at: i64,
)
    ensures
        round == 0 ==> round_begun(t, round, step_id, at).status == AgentStatus::Planning
            && round_begun(t, round, step_id, at).steps == t.steps,
        round > 0 ==> {
            let after = round_begun(t, round, step_id, at);
            &&& after.status == AgentStatus::Verifying
            &&& after.steps.drop_last() == t.steps
            &&& after.steps.last().id == step_id
            &&& after.steps.last().phase == StepPhase::Verify
            &&& after.steps.last().status == StepStatus::Running
        },
        round_begun(t, round, step_id, at).memory == t.memory,
        round_begun(t, round, step_id, at).messages == t.messages,
{
    if round > 0 {
        assert(round_begun(t, round, step_id, at).steps.drop_last() =~= t.steps);
    }
}

/// The agent recalls what it said, with its calls, and every result that it got, behind what it
/// recalled before.
pub proof fn law_the_agent_recalls_what_was_said(
    t: TaskModel,
    r: RunModel,
    c: CompletionModel,
    call: ToolCallModel,
    arguments: JsonModel,
    result: ResultModel,
)
    requires
        r.agent.recalled.len() < r.agent.recall_limit,
    ensures
        !(c.tool_calls.len() > 0 && callable(c.tool_calls).len() == 0 && is_blank(c.content)) ==> {
            let run = replied_run(t, r, c);
            &&& run.agent.recalled.drop_last() == r.agent.recalled
            &&& run.agent.recalled.last().role == Role::Assistant
            &&& c.content.len() > 0 ==> run.agent.recalled.last().content == Some(c.content)
            &&& run.agent.recalled.last().tool_calls == Some(callable(c.tool_calls))
        },
        ({
            let run = resulted_run(r, call, arguments, result);
            &&& run.agent.recalled.drop_last() == r.agent.recalled
            &&& run.agent.recalled.last().role == Role::Tool
            &&& run.agent.recalled.last().tool_call_id == Some(call.id)
            &&& run.agent.recalled.last().content == run.messages.last().content
        }),
{
    let one = replied_run(t, r, c).agent.recalled;
    let two = resulted_run(r, call, arguments, result).agent.recalled;
    assert(two.drop_last() =~= r.agent.recalled);
    if !(c.tool_calls.len() > 0 && callable(c.tool_calls).len() == 0 && is_blank(c.content)) {
        assert(one.drop_last() =~= r.agent.recalled);
    }
}

/// The plan of a task follows its run: the first step is completed when tools are called or the
/// answer is there, the second is in progress while they run, and the third is completed with the
/// answer.
pub proof fn law_plans_follow_their_run(
    t: TaskModel,
    r: RunModel,
    c: CompletionModel,
    ids: ReplyIds,
    at: i64,
)
    requires
        has_step(t, r.step_id),
        came_before(r, c) < 2,
        0 <= active_plan(t) < t.plans.len(),
        t.plans[active_plan(t)].steps.len() == 3,
    ensures
        ({
            let after = replied_task(t, r, c, ids, at);
            let plan = after.plans[active_plan(t)];
            &&& callable(c.tool_calls).len() > 0 ==> {
                &&& r.round == 0 ==> plan.steps[0].status == PlanStepStatus::Completed
                &&& plan.steps[1].status == PlanStepStatus::InProgress
            }
            &&& callable(c.tool_calls).len() == 0 && c.tool_calls.len() == 0 ==> {
                &&& plan.steps[0].status == PlanStepStatus::Completed
                &&& plan.steps[2].status == PlanStepStatus::Completed
            }
        }),
{
    let place = active_plan(t);
    let ids_of = t.plans.map_values(|p: crate::plan::PlanModel| p.id);
    lemma_position(ids_of, t.active_plan_id->0);
    let after = replied_task(t, r, c, ids, at);
    assert forall|u: TaskModel|
        u.active_plan_id == t.active_plan_id && u.plans.len() == t.plans.len() && (forall|i: int|
            0 <= i < t.plans.len() ==> (#[trigger] u.plans[i]).id == t.plans[i].id)
            implies #[trigger] active_plan(u) == place by {
        assert(u.plans.map_values(|p: crate::plan::PlanModel| p.id) =~= ids_of);
    }
}

} // verus!
