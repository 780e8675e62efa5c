//! The end of a round, and the end of a run.

use vstd::prelude::*;

use crate::agent::{tool_reply, AgentState, Message, MessageToolCall, ToolCallModel};
use crate::agents::TERMINATE_TOOL_NAME;
use crate::bedrock::{call_input, input_of};
use crate::chat::{chat, context_error, utterance, utterances, ChatMessage, ChatModel};
use crate::coding::limits::truncate_output;
use crate::deep::{deep, group_deep};
use crate::json::{group_json, Json, JsonModel};
use crate::json_text::parsed_json;
use crate::memory_laws::replayable;
use crate::models::EntryModel;
use crate::pairs::{heard_all, FaultModel, Utterance};
use crate::plan::PlanStepStatus;
use crate::tasks::prompt::{build_conversation, conversation, text_message};
use crate::tasks::records::{
    AgentStatus, ResultModel, StepStatus, Task, TaskMessage, TaskModel, ToolResult,
};
use crate::tasks::repair::{is_repaired_task, law_repaired_tasks_can_go_on, repair_task};
use crate::tasks::run::{
    acting_task, callable, next_turn, recalling, repetitions, replied_run, round_begun, round_fault,
    run_begun, signature_of, AgentRun, CompletionModel, ReplyIds, RunModel, RuntimeModel,
    TurnModel, REPEATED,
};
use crate::tasks::task::{
    all_ended, has_step, lemma_newest_step, plain_task_message, running_count, touched_times, with_answer, with_ended_step,
    with_message, with_plan_step, with_status, PlanIds,
};
use crate::tasks::tool_run::{AgentError, ErrorModel, ToolInvocation};
use crate::text::{concat2, same};
use crate::tools::websearch::shown;

verus! {

broadcast use {group_deep, group_json};

// ---- results ----

/// The tool that a call asks for, with its arguments.
pub fn invocation_of(call: &MessageToolCall) -> (r: ToolInvocation)
    ensures
        r.model_tool_call_id.deep_view() == Some(call.id@),
        r.name@ == call.function.name@,
        r.arguments.deep_view() == call_input(
            parsed_json(call.function.arguments@),
            call.function.arguments@,
        ),
{
    let arguments = input_of(Json::parse(&call.function.arguments), &call.function.arguments);
    ToolInvocation {
        model_tool_call_id: Some(call.id.clone()),
        name: call.function.name.clone(),
        arguments,
    }
}

/// What the model hears of a result.
pub open spec fn result_text(result: ResultModel) -> Seq<char> {
    match result.output {
        Some(output) => shown(output),
        None => match result.error {
            Some(error) => "Tool error: "@ + error,
            None => "Tool returned no output."@,
        },
    }
}

fn write_result(result: &ToolResult) -> (r: String)
    ensures
        r@ == result_text(result.deep_view()),
{
    match &result.output {
        Some(output) => truncate_output(output),
        None => match &result.error {
            Some(error) => concat2("Tool error: ", error),
            None => "Tool returned no output.".to_owned(),
        },
    }
}

/// A result as a message of the conversation.
pub open spec fn result_message(call: ToolCallModel, text: Seq<char>) -> ChatModel {
    ChatModel {
        tool_call_id: Some(call.id),
        name: Some(call.name),
        ..text_message("tool"@, text)
    }
}

/// Why the agent ends the run as failed, if the call says so.
pub open spec fn failure_of(
    name: Seq<char>,
    arguments: JsonModel,
    before: Option<Seq<char>>,
) -> Option<Seq<char>> {
    if name == TERMINATE_TOOL_NAME@ && arguments.text_or("status"@, "success"@) == "failure"@ {
        Some(arguments.text_or("message"@, "The agent terminated with failure."@))
    } else {
        before
    }
}

/// The answer with which the agent ends the run, if the call says so.
pub open spec fn ending_of(
    name: Seq<char>,
    arguments: JsonModel,
    output: Option<Seq<char>>,
    before: Option<Seq<char>>,
) -> Option<Seq<char>> {
    if name == TERMINATE_TOOL_NAME@ && arguments.text_or("status"@, "success"@) != "failure"@
        && output is Some {
        output
    } else {
        before
    }
}

/// The run after a result.
pub open spec fn resulted_run(
    r: RunModel,
    call: ToolCallModel,
    arguments: JsonModel,
    result: ResultModel,
) -> RunModel {
    let text = result_text(result);
    RunModel {
        messages: r.messages.push(result_message(call, text)),
        agent: recalling(r.agent, tool_reply(text, call.name, call.id)),
        failure: failure_of(call.name, arguments, r.failure),
        ending: ending_of(call.name, arguments, result.output, r.ending),
        ..r
    }
}

/// The task when the results of a round are there, before it is repaired.
pub open spec fn acted_task(t: TaskModel, act_step: Seq<char>, at: i64) -> TaskModel {
    with_plan_step(
        with_plan_step(
            with_ended_step(
                t,
                act_step,
                StepStatus::Completed,
                Some("Tool results recorded."@),
                at,
            ),
            1,
            PlanStepStatus::Completed,
            Some("Tool results recorded in memory."@),
            at,
        ),
        2,
        PlanStepStatus::InProgress,
        None,
        at,
    )
}

/// One more round; no more than can be counted.
pub open spec fn next_round(round: u32) -> u32 {
    if round == u32::MAX {
        round
    } else {
        (round + 1) as u32
    }
}

/// The run when a round has ended: the next request is made from what the agent remembers.
pub open spec fn next_run(r: RunModel, memory: Seq<EntryModel>) -> RunModel {
    RunModel {
        messages: conversation(r.header, r.policy, memory, r.prompt),
        round: next_round(r.round),
        agent: RuntimeModel {
            state: if r.failure is Some {
                AgentState::Error
            } else if r.ending is Some {
                AgentState::Finished
            } else {
                r.agent.state
            },
            ..r.agent
        },
        ..r
    }
}

impl AgentRun {
    /// Takes the result of a tool that the model asked for. `arguments` are those that the tool
    /// was called with.
    pub fn take_result(&mut self, call: &MessageToolCall, arguments: &Json, result: &ToolResult)
        ensures
            final(self).deep_view() == resulted_run(
                old(self).deep_view(),
                call.deep_view(),
                arguments.deep_view(),
                result.deep_view(),
            ),
    {
        if same(&call.function.name, TERMINATE_TOOL_NAME) {
            if same(&arguments.text_or("status", "success"), "failure") {
                self.failure = Some(
                    arguments.text_or("message", "The agent terminated with failure."),
                );
            } else if let Some(output) = &result.output {
                self.ending = Some(output.clone());
            }
        }
        let text = write_result(result);
        let reply = Message::tool(text.clone(), call.function.name.clone(), call.id.clone());
        proof {
            crate::agent::lemma_newest_deep(
                self.runtime.base.memory.messages@.push(reply),
                self.runtime.base.memory.max_messages as nat,
            );
        }
        self.runtime.base.memory.add_message(reply);
        let message = ChatMessage {
            role: "tool".to_owned(),
            content: Some(text),
            reasoning_content: None,
            reasoning_opaque: None,
            tool_calls: None,
            tool_call_id: Some(call.id.clone()),
            name: Some(call.function.name.clone()),
            attachments: Vec::new(),
        };
        proof {
            assert(deep(message.attachments@) =~= Seq::empty());
        }
        self.messages.push(message);
    }

    /// Ends a round: the task is brought in order, and the next request is made from what the
    /// agent remembers. Gives the answer where the agent has ended the run with one.
    pub fn end_round(&mut self, task: &mut Task, act_step: &str, workspace: &str, at: i64) -> (r:
        Result<Option<String>, AgentError>)
        ensures
            !has_step(old(task).deep_view(), act_step@) ==> {
                &&& r is Err && r->Err_0.deep_view() == ErrorModel::Message("Step not found"@)
                &&& final(task).deep_view() == old(task).deep_view()
                &&& final(self).deep_view() == old(self).deep_view()
            },
            has_step(old(task).deep_view(), act_step@) ==> {
                &&& exists|changed: bool| #[trigger]
                    is_repaired_task(
                        acted_task(old(task).deep_view(), act_step@, at),
                        workspace@,
                        at,
                        final(task).deep_view(),
                        changed,
                    )
                &&& final(self).deep_view() == next_run(
                    old(self).deep_view(),
                    final(task).deep_view().memory,
                )
                &&& match old(self).failure {
                    Some(error) => r is Err && r->Err_0.deep_view() == ErrorModel::Message(error@),
                    None => r is Ok && r->Ok_0.deep_view() == old(self).ending.deep_view(),
                }
            },
    {
        match task.finish_step(
            act_step,
            StepStatus::Completed,
            Some("Tool results recorded.".to_owned()),
            at,
        ) {
            Ok(_) => {},
            Err(error) => {
                return Err(AgentError::Message(error));
            },
        }
        task.set_plan_step_status(
            1,
            PlanStepStatus::Completed,
            Some("Tool results recorded in memory.".to_owned()),
            at,
        );
        task.set_plan_step_status(2, PlanStepStatus::InProgress, None, at);
        let ghost acted = task.deep_view();
        let changed = repair_task(task, workspace, at);
        self.messages = build_conversation(
            &self.header,
            &self.policy,
            &task.memory,
            &self.prompt,
        );
        if self.round < u32::MAX {
            self.round = self.round + 1;
        }
        if let Some(error) = &self.failure {
            let message = error.clone();
            self.runtime.base.fail();
            return Err(AgentError::Message(message));
        }
        if let Some(answer) = &self.ending {
            let text = answer.clone();
            self.runtime.base.finish();
            return Ok(Some(text));
        }
        Ok(None)
    }
}

// ---- the end ----

/// What a run came to.
#[derive(Debug, PartialEq, Eq)]
pub enum RunEnd {
    Completed(String),
    Cancelled,
    Failed(String),
}

pub enum EndModel {
    Completed(Seq<char>),
    Cancelled,
    Failed(Seq<char>),
}

impl DeepView for RunEnd {
    type V = EndModel;

    open spec fn deep_view(&self) -> EndModel {
        match self {
            RunEnd::Completed(answer) => EndModel::Completed(answer@),
            RunEnd::Cancelled => EndModel::Cancelled,
            RunEnd::Failed(error) => EndModel::Failed(error@),
        }
    }
}

/// What a run came to: an answer that comes after the run was cancelled does not count.
pub open spec fn end_of(result: Result<Seq<char>, ErrorModel>, cancelled: bool) -> EndModel {
    match result {
        Ok(answer) => if cancelled {
            EndModel::Cancelled
        } else {
            EndModel::Completed(answer)
        },
        Err(ErrorModel::Cancelled) => EndModel::Cancelled,
        Err(ErrorModel::Message(error)) => EndModel::Failed(error),
    }
}

/// The task with the steps that run ended.
pub open spec fn steps_ended(
    t: TaskModel,
    status: StepStatus,
    detail: Seq<char>,
    at: i64,
) -> TaskModel {
    TaskModel {
        steps: all_ended(t.steps, status, detail, at),
        ..touched_times(t, running_count(t.steps), at)
    }
}

/// The task when a run has ended.
pub open spec fn ended_task(t: TaskModel, end: EndModel, message_id: Seq<char>, at: i64) -> TaskModel {
    match end {
        EndModel::Completed(answer) => with_status(
            with_answer(t, answer, at),
            AgentStatus::Completed,
            None,
            at,
        ),
        EndModel::Cancelled => with_status(
            steps_ended(t, StepStatus::Cancelled, "Task cancelled."@, at),
            AgentStatus::Cancelled,
            None,
            at,
        ),
        EndModel::Failed(error) => with_status(
            with_message(
                steps_ended(t, StepStatus::Failed, error, at),
                plain_task_message(
                    message_id,
                    t.id,
                    "system"@,
                    "Agent failed: "@ + error,
                    at,
                    false,
                ),
                at,
            ),
            AgentStatus::Failed,
            Some(error),
            at,
        ),
    }
}

/// Records the end of a run.
pub fn finish_run(
    task: &mut Task,
    result: Result<String, AgentError>,
    cancelled: bool,
    message_id: &str,
    at: i64,
) -> (r: RunEnd)
    ensures
        r.deep_view() == end_of(
            match result {
                Ok(answer) => Ok(answer@),
                Err(error) => Err(error.deep_view()),
            },
            cancelled,
        ),
        final(task).deep_view() == ended_task(
            old(task).deep_view(),
            r.deep_view(),
            message_id@,
            at,
        ),
{
    let end = match result {
        Ok(answer) => if cancelled {
            RunEnd::Cancelled
        } else {
            RunEnd::Completed(answer)
        },
        Err(AgentError::Cancelled) => RunEnd::Cancelled,
        Err(AgentError::Message(error)) => RunEnd::Failed(error),
    };
    match &end {
        RunEnd::Completed(answer) => {
            task.set_final_answer(answer.clone(), at);
            task.set_status(AgentStatus::Completed, None, at);
        },
        RunEnd::Cancelled => {
            task.finish_active_steps(StepStatus::Cancelled, "Task cancelled.", at);
            task.set_status(AgentStatus::Cancelled, None, at);
        },
        RunEnd::Failed(error) => {
            proof {
                crate::tasks::task::lemma_touched_times(
                    task.deep_view(),
                    running_count(task.deep_view().steps),
                    at,
                );
            }
            task.finish_active_steps(StepStatus::Failed, error, at);
            let message = TaskMessage::plain(
                message_id.to_owned(),
                &task.id,
                "system",
                concat2("Agent failed: ", error),
                at,
                false,
            );
            task.add_message(message, at);
            task.set_status(AgentStatus::Failed, Some(error.clone()), at);
        },
    }
    end
}

// ---- laws ----

/// No step runs when a run has been cancelled or has failed, and the task is at rest however it
/// ended.
pub proof fn law_ended_tasks_are_at_rest(
    t: TaskModel,
    end: EndModel,
    message_id: Seq<char>,
    at: i64,
    i: int,
)
    ensures
        ({
            let after = ended_task(t, end, message_id, at);
            &&& after.status == AgentStatus::Completed || after.status == AgentStatus::Cancelled
                || after.status == AgentStatus::Failed
            &&& !(end is Completed) && 0 <= i < after.steps.len() ==> after.steps[i].status
                != StepStatus::Running
        }),
{
    let after = ended_task(t, end, message_id, at);
    if !(end is Completed) && 0 <= i < after.steps.len() {
        assert(after.steps.len() == t.steps.len());
    }
}

/// A run has no more rounds than it may have steps.
pub proof fn law_runs_are_bounded(r: RunModel, cancelled: bool)
    requires
        r.round >= r.max_steps,
    ensures
        round_fault(r, cancelled) is Some,
{
}

/// The step of a round is there when the round begins, and the step in which tools are called is
/// there when they are called.
pub proof fn law_steps_of_a_run_are_there(
    t: TaskModel,
    r: RunModel,
    plan: PlanIds,
    step_id: Seq<char>,
    round: u32,
    calls: Seq<ToolCallModel>,
    ids: ReplyIds,
    at: i64,
)
    ensures
        has_step(run_begun(t, plan, step_id, at), step_id),
        round > 0 ==> has_step(round_begun(t, round, step_id, at), step_id),
        round == 0 && has_step(t, step_id) ==> has_step(round_begun(t, round, step_id, at), step_id),
        has_step(acting_task(t, r, calls, ids, at), ids.act_step@),
{
    lemma_newest_step(run_begun(t, plan, step_id, at), step_id);
    if round > 0 {
        lemma_newest_step(round_begun(t, round, step_id, at), step_id);
    }
    lemma_newest_step(acting_task(t, r, calls, ids, at), ids.act_step@);
}

/// The same reply with calls, coming again and again, stops the run at the third time.
pub proof fn law_repetition_stops_a_run(
    first: TaskModel,
    second: TaskModel,
    third: TaskModel,
    r: RunModel,
    c: CompletionModel,
)
    requires
        callable(c.tool_calls).len() > 0,
    ensures
        ({
            let once = replied_run(first, r, c);
            let twice = replied_run(second, once, c);
            &&& next_turn(third, twice, c) is Stop
            &&& has_step(third, r.step_id) ==> next_turn(third, twice, c) == TurnModel::Stop(
                REPEATED@,
            )
        }),
{
    let mark = signature_of(c.content, callable(c.tool_calls));
    let once = replied_run(first, r, c);
    let twice = replied_run(second, once, c);
    let other = mark.push('x');
    assert(other.len() != mark.len());
    crate::table::law_set_value_is_read_back(r.signatures, mark, repetitions(r, c), other);
    crate::table::law_set_value_is_read_back(
        once.signatures,
        mark,
        repetitions(once, c),
        other,
    );
}

/// Hearing the system first does not change what is heard after.
proof fn lemma_system_first(head: Seq<Utterance>, said: Seq<Utterance>)
    requires
        forall|i: int| 0 <= i < head.len() ==> (#[trigger] head[i]).role == "system"@,
    ensures
        heard_all(Ok(Set::empty()), head + said, true) == heard_all(Ok(Set::empty()), said, true),
    decreases head.len() + said.len(),
{
    reveal_strlit("system");
    reveal_strlit("assistant");
    reveal_strlit("tool");
    reveal_strlit("user");
    let all = head + said;
    if said.len() > 0 {
        assert(all.drop_last() =~= head + said.drop_last());
        assert(all.last() == said.last());
        lemma_system_first(head, said.drop_last());
    } else if head.len() > 0 {
        assert(all =~= head);
        let front = head.drop_last();
        assert forall|i: int| 0 <= i < front.len() implies (#[trigger] front[i]).role
            == "system"@ by {
            assert(front[i] == head[i]);
        }
        lemma_system_first(front, said);
        assert(front + said =~= front);
        assert(head.last() == head[head.len() - 1]);
        assert(head.last().role == "system"@);
        assert("system"@[1] == 'y');
        assert("assistant"@[1] == 's');
        assert("tool"@.len() == 4 && "system"@.len() == 6 && "assistant"@.len() == 9);
    } else {
        assert(all =~= said);
    }
}

/// Every request that a run sends keeps the rule of a conversation: what the agent remembers was
/// brought in order before.
pub proof fn law_requests_keep_the_rule(
    header: Seq<char>,
    policy: Seq<char>,
    memory: Seq<EntryModel>,
    prompt: Seq<char>,
)
    requires
        replayable(memory),
    ensures
        context_error(conversation(header, policy, memory, prompt)) is None,
{
    let system = seq![text_message("system"@, header), text_message("system"@, policy)];
    let rest = if memory.len() == 0 {
        seq![text_message("user"@, prompt)]
    } else {
        chat(memory)
    };
    let head = utterances(system);
    let said = utterances(rest);
    assert(utterances(system + rest) =~= head + said);
    assert forall|i: int| 0 <= i < head.len() implies (#[trigger] head[i]).role == "system"@ by {}
    lemma_system_first(head, said);
    if memory.len() == 0 {
        reveal_strlit("user");
        reveal_strlit("assistant");
        reveal_strlit("tool");
        assert("user"@[0] == 'u' && "tool"@[0] == 't' && "assistant"@.len() == 9 && "user"@.len()
            == 4);
        assert(said.drop_last() =~= Seq::<Utterance>::empty());
        assert(said.last() == utterance(text_message("user"@, prompt)));
        assert(heard_all(Ok(Set::empty()), said.drop_last(), true) == Ok::<
            Set<Seq<char>>,
            FaultModel,
        >(Set::empty()));
    }
}

/// After a round the next request keeps the rule of a conversation, whatever the tools did.
pub proof fn law_the_next_request_keeps_the_rule(
    r: RunModel,
    before: TaskModel,
    workspace: Seq<char>,
    at: i64,
    after: TaskModel,
    changed: bool,
)
    requires
        is_repaired_task(before, workspace, at, after, changed),
    ensures
        context_error(next_run(r, after.memory).messages) is None,
{
    law_repaired_tasks_can_go_on(before, workspace, at, after, changed);
    law_requests_keep_the_rule(r.header, r.policy, after.memory, r.prompt);
}

} // verus!
