//! A run: the model is asked, its tools are called, and it is asked again, until it answers.
//!
//! The model and the tools are called outside the library. [`AgentRun`] decides, after each reply
//! and each result, what is recorded and what comes next.

use vstd::prelude::*;

use crate::agent::{
    newest, plain_message, AgentState, Message, MessageModel, MessageToolCall, Role,
    ToolCallAgentRuntime, ToolCallModel, ToolChoice,
};
use crate::agents::{spec_of, AgentSpec};
use crate::chat::{ChatMessage, ChatModel};
use crate::deep::{copy_all, deep, group_deep};
use crate::json::group_json;
use crate::memory::MAX_MEMORY_ENTRIES;
use crate::models::{plain_entry, AgentMemoryEntry, EntryModel};
use crate::number::{decimal, number_text};
use crate::pairs::heard;
use crate::plan::PlanStepStatus;
use crate::table::{find_name, set_value, value_of, with_value};
use crate::tasks::prompt::{
    build_conversation, conversation, kind_named, kind_of, make_text_message, prompt_parts,
    system_prompt_parts, text_message,
};
use crate::tasks::records::{AgentStatus, StepPhase, StepStatus, Task, TaskMessage, TaskModel};
use crate::tasks::task::{
    has_step, plain_task_message, with_ended_step, with_memory, with_message, with_message_calls,
    with_new_step, with_plan, with_plan_step, with_status, PlanIds,
};
use crate::tasks::tool_run::{AgentError, ErrorModel};
use crate::text::{blank, concat2, concat3, copy_option, is_blank, join, joined, trim, trimmed};

verus! {

broadcast use {group_deep, group_json};

/// What the agent is told when it repeats itself.
pub const REPEATED: &'static str =
    "The agent detected a repeated tool-call pattern and stopped to avoid an infinite loop.";

/// The answer where the model gave none.
pub const NO_ANSWER: &'static str = "The model completed the run without a streamed final message.";

/// How often the same reply with calls may come.
pub const MAX_REPETITIONS: u32 = 3;

// ---- replies ----

/// A reply of the model.
#[derive(Debug, PartialEq, Eq)]
pub struct Completion {
    pub message_id: String,
    pub content: String,
    pub reasoning: String,
    pub reasoning_opaque: Option<String>,
    pub tool_calls: Vec<MessageToolCall>,
}

pub struct CompletionModel {
    pub message_id: Seq<char>,
    pub content: Seq<char>,
    pub reasoning: Seq<char>,
    pub reasoning_opaque: Option<Seq<char>>,
    pub tool_calls: Seq<ToolCallModel>,
}

impl DeepView for Completion {
    type V = CompletionModel;

    open spec fn deep_view(&self) -> CompletionModel {
        CompletionModel {
            message_id: self.message_id@,
            content: self.content@,
            reasoning: self.reasoning@,
            reasoning_opaque: self.reasoning_opaque.deep_view(),
            tool_calls: deep(self.tool_calls@),
        }
    }
}

/// The calls that can be made: those with an identifier and a name.
pub open spec fn callable(calls: Seq<ToolCallModel>) -> Seq<ToolCallModel>
    decreases calls.len(),
{
    if calls.len() == 0 {
        Seq::empty()
    } else {
        let head = callable(calls.drop_last());
        if is_blank(calls.last().id) || is_blank(calls.last().name) {
            head
        } else {
            head.push(calls.last())
        }
    }
}

fn keep_callable(calls: &Vec<MessageToolCall>) -> (r: Vec<MessageToolCall>)
    ensures
        deep(r@) == callable(deep(calls@)),
{
    let ghost models = deep(calls@);
    let mut r: Vec<MessageToolCall> = Vec::new();
    let mut i: usize = 0;
    proof {
        assert(models.take(0) =~= Seq::<ToolCallModel>::empty());
        assert(deep(r@) =~= Seq::<ToolCallModel>::empty());
    }
    while i < calls.len()
        invariant
            models == deep(calls@),
            i <= calls@.len(),
            deep(r@) == callable(models.take(i as int)),
        decreases calls@.len() - i,
    {
        proof {
            assert(models.take(i + 1).drop_last() =~= models.take(i as int));
            assert(models.take(i + 1).last() == calls@[i as int].deep_view());
        }
        if !blank(&calls[i].id) && !blank(&calls[i].function.name) {
            r.push(calls[i].clone());
        }
        i += 1;
    }
    proof {
        assert(models.take(models.len() as int) =~= models);
    }
    r
}

/// Each call by its name and its arguments.
pub open spec fn call_marks(calls: Seq<ToolCallModel>) -> Seq<Seq<char>> {
    calls.map_values(|call: ToolCallModel| call.name + ":"@ + call.arguments)
}

/// What makes a reply the same as another.
pub open spec fn signature_of(content: Seq<char>, calls: Seq<ToolCallModel>) -> Seq<char> {
    trimmed(content) + "|"@ + joined(call_marks(calls), "|"@)
}

fn signature(content: &str, calls: &Vec<MessageToolCall>) -> (r: String)
    ensures
        r@ == signature_of(content@, deep(calls@)),
{
    let mut marks: Vec<String> = Vec::new();
    let mut i: usize = 0;
    while i < calls.len()
        invariant
            i <= calls@.len(),
            marks@.len() == i,
            forall|k: int|
                0 <= k < i ==> #[trigger] deep(marks@)[k] == call_marks(deep(calls@))[k],
        decreases calls@.len() - i,
    {
        let mark = concat3(&calls[i].function.name, ":", &calls[i].function.arguments);
        let ghost before = deep(marks@);
        marks.push(mark);
        proof {
            assert(deep(marks@) == before.push(mark@));
            assert(deep(calls@)[i as int] == calls@[i as int].deep_view());
        }
        i += 1;
    }
    proof {
        assert(deep(marks@) =~= call_marks(deep(calls@)));
    }
    concat3(&trim(content), "|", &join(&marks, "|"))
}

/// The names of the tools that are called.
pub open spec fn call_names(calls: Seq<ToolCallModel>) -> Seq<Seq<char>> {
    calls.map_values(|call: ToolCallModel| call.name)
}

fn names_of_calls(calls: &Vec<MessageToolCall>) -> (r: Vec<String>)
    ensures
        deep(r@) == call_names(deep(calls@)),
{
    let mut names: Vec<String> = Vec::new();
    let mut i: usize = 0;
    while i < calls.len()
        invariant
            i <= calls@.len(),
            names@.len() == i,
            forall|k: int|
                0 <= k < i ==> #[trigger] deep(names@)[k] == call_names(deep(calls@))[k],
        decreases calls@.len() - i,
    {
        let name = calls[i].function.name.clone();
        let ghost before = deep(names@);
        names.push(name);
        proof {
            assert(deep(names@) == before.push(name@));
            assert(deep(calls@)[i as int] == calls@[i as int].deep_view());
        }
        i += 1;
    }
    proof {
        assert(deep(names@) =~= call_names(deep(calls@)));
    }
    names
}

/// A reply as the agent remembers it.
pub open spec fn answer_entry(
    id: Seq<char>,
    c: CompletionModel,
    calls: Seq<ToolCallModel>,
    at: i64,
) -> EntryModel {
    EntryModel {
        reasoning: c.reasoning,
        reasoning_opaque: c.reasoning_opaque,
        tool_names: call_names(calls),
        tool_calls: calls,
        ..plain_entry(id, "assistant"@, c.content, at)
    }
}

/// A text, where it is not empty.
pub open spec fn some_text(text: Seq<char>) -> Option<Seq<char>> {
    if text.len() == 0 {
        None
    } else {
        Some(text)
    }
}

fn optional_text(text: &String) -> (r: Option<String>)
    ensures
        r.deep_view() == some_text(text@),
{
    if text.as_str().is_empty() {
        None
    } else {
        Some(text.clone())
    }
}

/// A reply as a message of the conversation.
pub open spec fn answer_message(c: CompletionModel, calls: Seq<ToolCallModel>) -> ChatModel {
    ChatModel {
        role: "assistant"@,
        content: some_text(c.content),
        reasoning_content: some_text(c.reasoning),
        reasoning_opaque: c.reasoning_opaque,
        tool_calls: if calls.len() == 0 {
            None
        } else {
            Some(calls)
        },
        tool_call_id: None,
        name: None,
        attachments: Seq::empty(),
    }
}

fn make_answer_message(c: &Completion, calls: &Vec<MessageToolCall>) -> (r: ChatMessage)
    ensures
        r.deep_view() == answer_message(c.deep_view(), deep(calls@)),
{
    proof {
        assert(deep(calls@).len() == calls@.len());
    }
    let tool_calls: Option<Vec<MessageToolCall>> = if calls.len() == 0 {
        None
    } else {
        Some(copy_all(calls))
    };
    ChatMessage {
        role: "assistant".to_owned(),
        content: optional_text(&c.content),
        reasoning_content: optional_text(&c.reasoning),
        reasoning_opaque: copy_option(&c.reasoning_opaque),
        tool_calls,
        tool_call_id: None,
        name: None,
        attachments: Vec::new(),
    }
}

// ---- the run ----

/// A run of an agent.
#[derive(Debug, PartialEq, Eq)]
pub struct AgentRun {
    pub header: String,
    pub policy: String,
    pub prompt: String,
    pub messages: Vec<ChatMessage>,
    pub runtime: ToolCallAgentRuntime,
    pub latest_answer: String,
    pub signatures: Vec<(String, u32)>,
    pub round: u32,
    pub max_steps: u32,
    pub step_id: String,
    pub failure: Option<String>,
    pub ending: Option<String>,
}

pub struct RunModel {
    pub header: Seq<char>,
    pub policy: Seq<char>,
    pub prompt: Seq<char>,
    pub messages: Seq<ChatModel>,
    pub agent: RuntimeModel,
    pub latest_answer: Seq<char>,
    pub signatures: Seq<(Seq<char>, u32)>,
    pub round: u32,
    pub max_steps: u32,
    pub step_id: Seq<char>,
    pub failure: Option<Seq<char>>,
    pub ending: Option<Seq<char>>,
}

/// What the runtime of a run is.
pub struct RuntimeModel {
    pub name: Seq<char>,
    pub description: Seq<char>,
    pub system_prompt: Seq<char>,
    pub next_step_prompt: Seq<char>,
    pub state: AgentState,
    pub max_steps: u32,
    pub current_step: u32,
    pub recalled: Seq<MessageModel>,
    pub recall_limit: usize,
    pub duplicate_threshold: usize,
    pub tool_choice: ToolChoice,
    pub special_tool_names: Seq<Seq<char>>,
    pub tool_calls: Seq<ToolCallModel>,
    pub max_observe: Option<usize>,
}

pub open spec fn runtime_model(runtime: ToolCallAgentRuntime) -> RuntimeModel {
    RuntimeModel {
        name: runtime.base.name@,
        description: runtime.base.description@,
        system_prompt: runtime.base.system_prompt@,
        next_step_prompt: runtime.base.next_step_prompt@,
        state: runtime.base.state,
        max_steps: runtime.base.max_steps,
        current_step: runtime.base.current_step,
        recalled: deep(runtime.base.memory.messages@),
        recall_limit: runtime.base.memory.max_messages,
        duplicate_threshold: runtime.base.duplicate_threshold,
        tool_choice: runtime.tool_choice,
        special_tool_names: deep(runtime.special_tool_names@),
        tool_calls: deep(runtime.tool_calls@),
        max_observe: runtime.max_observe,
    }
}

impl DeepView for AgentRun {
    type V = RunModel;

    open spec fn deep_view(&self) -> RunModel {
        RunModel {
            header: self.header@,
            policy: self.policy@,
            prompt: self.prompt@,
            messages: deep(self.messages@),
            agent: runtime_model(self.runtime),
            latest_answer: self.latest_answer@,
            signatures: deep(self.signatures@),
            round: self.round,
            max_steps: self.max_steps,
            step_id: self.step_id@,
            failure: self.failure.deep_view(),
            ending: self.ending.deep_view(),
        }
    }
}

/// The runtime after another message is recalled.
pub open spec fn recalling(agent: RuntimeModel, message: MessageModel) -> RuntimeModel {
    RuntimeModel {
        recalled: newest(agent.recalled.push(message), agent.recall_limit as nat),
        ..agent
    }
}

/// At least one step.
pub open spec fn at_least_one(max_steps: u32) -> u32 {
    if max_steps < 1 {
        1
    } else {
        max_steps
    }
}

/// At least one step.
pub fn normalize_max_steps(max_steps: u32) -> (r: u32)
    ensures
        r == at_least_one(max_steps),
{
    if max_steps < 1 {
        1
    } else {
        max_steps
    }
}

/// The run of a task when it begins. `workspace` is the directory that the model is told of.
pub open spec fn new_run(
    t: TaskModel,
    workspace: Seq<char>,
    max_steps: u32,
    step_id: Seq<char>,
) -> RunModel {
    let (header, policy) = prompt_parts(t.agent_kind, workspace);
    let spec = spec_of(kind_of(t.agent_kind), workspace);
    RunModel {
        header,
        policy,
        prompt: t.prompt,
        messages: conversation(header, policy, t.memory, t.prompt),
        agent: RuntimeModel {
            name: t.agent_name,
            description: spec.description,
            system_prompt: header + "\n\n"@ + policy,
            next_step_prompt: spec.next_step_prompt,
            state: AgentState::Running,
            max_steps: at_least_one(max_steps),
            current_step: 0,
            recalled: Seq::empty(),
            recall_limit: MAX_MEMORY_ENTRIES,
            duplicate_threshold: crate::agent::DEFAULT_DUPLICATE_THRESHOLD,
            tool_choice: ToolChoice::Auto,
            special_tool_names: spec.special_tool_names,
            tool_calls: Seq::empty(),
            max_observe: spec.max_observe,
        },
        latest_answer: Seq::empty(),
        signatures: Seq::empty(),
        round: 0,
        max_steps: at_least_one(max_steps),
        step_id,
        failure: None,
        ending: None,
    }
}

/// The task when a run begins.
pub open spec fn run_begun(t: TaskModel, ids: PlanIds, step_id: Seq<char>, at: i64) -> TaskModel {
    with_new_step(
        with_plan_step(
            with_plan(t, ids, at),
            0,
            PlanStepStatus::InProgress,
            Some("The ReAct agent is deciding how to solve the request."@),
            at,
        ),
        step_id,
        StepPhase::Plan,
        "Plan"@,
        Some("Ask the configured model to plan the task and choose tools."@),
        at,
    )
}

/// The task when a round begins.
pub open spec fn round_begun(t: TaskModel, round: u32, step_id: Seq<char>, at: i64) -> TaskModel {
    if round == 0 {
        with_status(t, AgentStatus::Planning, None, at)
    } else {
        with_new_step(
            with_status(t, AgentStatus::Verifying, None, at),
            step_id,
            StepPhase::Verify,
            "Verify"@,
            Some("Review tool evidence and decide whether more action is needed."@),
            at,
        )
    }
}

/// Why a round does not begin, if it does not.
pub open spec fn round_fault(r: RunModel, cancelled: bool) -> Option<ErrorModel> {
    if r.round >= r.max_steps {
        Some(
            ErrorModel::Message(
                "The agent reached the maximum of "@ + decimal(r.max_steps as nat)
                    + " steps before a final answer."@,
            ),
        )
    } else if cancelled {
        Some(ErrorModel::Cancelled)
    } else if r.agent.state != AgentState::Running {
        Some(ErrorModel::Message("Agent is not running."@))
    } else if r.agent.current_step >= r.agent.max_steps {
        Some(
            ErrorModel::Message(
                "Reached max steps ("@ + decimal(r.agent.max_steps as nat) + ")"@,
            ),
        )
    } else {
        None
    }
}

impl AgentRun {
    /// Begins a run of a task whose memory is in order. `workspace` is the directory that the task
    /// named before it was brought in order: the model is told of that one.
    pub fn begin(
        task: &mut Task,
        workspace: &str,
        max_steps: u32,
        ids: &PlanIds,
        step_id: &str,
        at: i64,
    ) -> (r: AgentRun)
        ensures
            r.deep_view() == new_run(old(task).deep_view(), workspace@, max_steps, step_id@),
            final(task).deep_view() == run_begun(old(task).deep_view(), *ids, step_id@, at),
    {
        let (header, policy) = system_prompt_parts(&task.agent_kind, workspace);
        let messages = build_conversation(&header, &policy, &task.memory, &task.prompt);
        let spec = AgentSpec::for_kind(kind_named(&task.agent_kind), workspace);
        let steps = normalize_max_steps(max_steps);
        let mut runtime = ToolCallAgentRuntime::new(
            task.agent_name.clone(),
            concat3(&header, "\n\n", &policy),
        );
        runtime.base.description = spec.description;
        runtime.base.next_step_prompt = spec.next_step_prompt;
        runtime.base.max_steps = steps;
        runtime.base.memory.max_messages = MAX_MEMORY_ENTRIES;
        runtime.max_observe = spec.max_observe;
        runtime.special_tool_names = spec.special_tool_names;
        let _ = runtime.base.begin();
        let run = AgentRun {
            header,
            policy,
            prompt: task.prompt.clone(),
            messages,
            runtime,
            latest_answer: String::new(),
            signatures: Vec::new(),
            round: 0,
            max_steps: steps,
            step_id: step_id.to_owned(),
            failure: None,
            ending: None,
        };
        proof {
            assert(deep(run.signatures@) =~= Seq::<(Seq<char>, u32)>::empty());
            assert(run.deep_view().agent.recalled =~= Seq::<MessageModel>::empty());
            assert(run.deep_view().agent.tool_calls =~= Seq::<ToolCallModel>::empty());
            assert(run.deep_view() == new_run(task.deep_view(), workspace@, max_steps, step_id@));
        }
        task.ensure_default_plan(ids, at);
        task.set_plan_step_status(
            0,
            PlanStepStatus::InProgress,
            Some("The ReAct agent is deciding how to solve the request.".to_owned()),
            at,
        );
        task.add_step(
            step_id.to_owned(),
            StepPhase::Plan,
            "Plan",
            Some("Ask the configured model to plan the task and choose tools.".to_owned()),
            at,
        );
        run
    }

    /// Begins a round: the model is asked again. The first round belongs to the step that the run
    /// began with, and each later one to a step of its own.
    pub fn begin_round(&mut self, task: &mut Task, cancelled: bool, step_id: &str, at: i64) -> (r:
        Result<(), AgentError>)
        ensures
            ({
                let run = old(self).deep_view();
                let t = old(task).deep_view();
                match round_fault(run, cancelled) {
                    Some(error) => {
                        &&& r is Err
                        &&& r->Err_0.deep_view() == error
                        &&& final(task).deep_view() == t
                        &&& final(self).deep_view() == (RunModel {
                            agent: RuntimeModel {
                                state: if run.round >= run.max_steps {
                                    AgentState::Error
                                } else if cancelled || run.agent.state != AgentState::Running {
                                    run.agent.state
                                } else {
                                    AgentState::Finished
                                },
                                ..run.agent
                            },
                            ..run
                        })
                    },
                    None => {
                        &&& r is Ok
                        &&& final(task).deep_view() == round_begun(t, run.round, step_id@, at)
                        &&& final(self).deep_view() == (RunModel {
                            agent: RuntimeModel {
                                current_step: (run.agent.current_step + 1) as u32,
                                ..run.agent
                            },
                            step_id: if run.round == 0 {
                                run.step_id
                            } else {
                                step_id@
                            },
                            ..run
                        })
                    },
                }
            }),
    {
        if self.round >= self.max_steps {
            self.runtime.base.fail();
            return Err(
                AgentError::Message(
                    concat3(
                        "The agent reached the maximum of ",
                        &number_text(self.max_steps as u64),
                        " steps before a final answer.",
                    ),
                ),
            );
        }
        if cancelled {
            return Err(AgentError::Cancelled);
        }
        match self.runtime.base.next_step() {
            Ok(_) => {},
            Err(error) => {
                return Err(AgentError::Message(error));
            },
        }
        if self.round == 0 {
            task.set_status(AgentStatus::Planning, None, at);
        } else {
            task.set_status(AgentStatus::Verifying, None, at);
            task.add_step(
                step_id.to_owned(),
                StepPhase::Verify,
                "Verify",
                Some(
                    "Review tool evidence and decide whether more action is needed.".to_owned(),
                ),
                at,
            );
            self.step_id = step_id.to_owned();
        }
        Ok(())
    }
}

// ---- what a reply costs ----

/// What a reply costs, in tokens: what came in and what went out. What the provider counts is
/// taken, where it counts: `prompt` and `completion`. Else it is what was estimated of the request
/// and what was counted of the reply.
pub fn usage_numbers(
    prompt: Option<usize>,
    estimated: usize,
    completion: Option<usize>,
    counted: usize,
) -> (r: (usize, usize))
    ensures
        r.0 == match prompt {
            Some(tokens) => tokens,
            None => estimated,
        },
        r.1 == match completion {
            Some(tokens) => tokens,
            None => counted,
        },
{
    let input = match prompt {
        Some(tokens) => tokens,
        None => estimated,
    };
    let output = match completion {
        Some(tokens) => tokens,
        None => counted,
    };
    (input, output)
}

// ---- taking a reply ----

/// The identifiers that a reply needs: of the entry for it, of an entry and of a message that may
/// be added, and of the step in which its tools are called.
#[derive(Debug, PartialEq, Eq)]
pub struct ReplyIds {
    pub memory: String,
    pub extra_memory: String,
    pub message: String,
    pub act_step: String,
}

/// What comes after a reply.
#[derive(Debug, PartialEq, Eq)]
pub enum Turn {
    /// The run is over, and this is the answer.
    Answer(String),
    /// The tools are to be called.
    Act(Vec<MessageToolCall>),
}

pub enum TurnModel {
    Answer(Seq<char>),
    Act(Seq<ToolCallModel>),
    Stop(Seq<char>),
}

/// Whether a turn is what it should be.
pub open spec fn turn_is(r: Result<Turn, AgentError>, turn: TurnModel) -> bool {
    match turn {
        TurnModel::Answer(answer) => r is Ok && r->Ok_0 is Answer && r->Ok_0->Answer_0@ == answer,
        TurnModel::Act(calls) => r is Ok && r->Ok_0 is Act && deep(r->Ok_0->Act_0@) == calls,
        TurnModel::Stop(error) => r is Err && r->Err_0.deep_view() == ErrorModel::Message(error),
    }
}

/// Whether a reply asks for nothing that can be done, and says nothing.
pub open spec fn is_void(c: CompletionModel) -> bool {
    c.tool_calls.len() > 0 && callable(c.tool_calls).len() == 0 && is_blank(c.content)
}

/// How often a reply has come, this time included.
pub open spec fn repetitions(r: RunModel, c: CompletionModel) -> u32 {
    match value_of(r.signatures, signature_of(c.content, callable(c.tool_calls))) {
        Some(n) => if n == u32::MAX {
            n
        } else {
            (n + 1) as u32
        },
        None => 1,
    }
}

/// Whether the run repeats itself.
pub open spec fn is_repeated(r: RunModel, c: CompletionModel) -> bool {
    repetitions(r, c) >= MAX_REPETITIONS && callable(c.tool_calls).len() > 0
}

/// The latest text that the model said.
pub open spec fn latest(r: RunModel, c: CompletionModel) -> Seq<char> {
    if is_blank(c.content) {
        r.latest_answer
    } else {
        c.content
    }
}

/// The task when a reply has been recorded.
pub open spec fn reply_recorded(
    t: TaskModel,
    c: CompletionModel,
    ids: ReplyIds,
    at: i64,
) -> TaskModel {
    let calls = callable(c.tool_calls);
    with_memory(
        with_message_calls(t, c.message_id, calls, at),
        answer_entry(ids.memory@, c, calls, at),
        at,
    )
}

/// How many calls there are, in words.
pub open spec fn calls_text(n: nat) -> Seq<char> {
    decimal(n) + " tool call"@ + (if n == 1 {
        ""@
    } else {
        "s"@
    }) + " requested."@
}

/// The task when the run has stopped because it repeats itself.
pub open spec fn stopped_task(
    t: TaskModel,
    r: RunModel,
    ids: ReplyIds,
    at: i64,
) -> TaskModel {
    with_ended_step(
        with_memory(t, plain_entry(ids.extra_memory@, "system"@, REPEATED@, at), at),
        r.step_id,
        StepStatus::Failed,
        Some(REPEATED@),
        at,
    )
}

/// The task when the run has its answer.
pub open spec fn answered_task(
    t: TaskModel,
    r: RunModel,
    c: CompletionModel,
    ids: ReplyIds,
    at: i64,
) -> TaskModel {
    let ended = with_ended_step(
        t,
        r.step_id,
        StepStatus::Completed,
        Some("The response did not request another tool."@),
        at,
    );
    let told = if latest(r, c).len() == 0 {
        with_memory(
            with_message(
                ended,
                plain_task_message(
                    ids.message@,
                    t.id,
                    "assistant"@,
                    NO_ANSWER@,
                    at,
                    false,
                ),
                at,
            ),
            plain_entry(ids.extra_memory@, "assistant"@, NO_ANSWER@, at),
            at,
        )
    } else {
        ended
    };
    with_plan_step(
        with_plan_step(
            told,
            0,
            PlanStepStatus::Completed,
            Some("The model produced a plan and final response."@),
            at,
        ),
        2,
        PlanStepStatus::Completed,
        Some("No further tool call was requested."@),
        at,
    )
}

/// The task when tools are to be called.
pub open spec fn acting_task(
    t: TaskModel,
    r: RunModel,
    calls: Seq<ToolCallModel>,
    ids: ReplyIds,
    at: i64,
) -> TaskModel {
    let ended = with_ended_step(
        t,
        r.step_id,
        StepStatus::Completed,
        Some(calls_text(calls.len())),
        at,
    );
    let planned = if r.round == 0 {
        with_plan_step(
            ended,
            0,
            PlanStepStatus::Completed,
            Some("The model selected the first tool actions."@),
            at,
        )
    } else {
        ended
    };
    with_new_step(
        with_status(
            with_plan_step(
                planned,
                1,
                PlanStepStatus::InProgress,
                Some("Executing "@ + decimal(calls.len()) + " requested tool call(s)."@),
                at,
            ),
            AgentStatus::Executing,
            None,
            at,
        ),
        ids.act_step@,
        StepPhase::Act,
        "Act"@,
        Some("Execute requested tools with timeout and approval checks."@),
        at,
    )
}

/// The task after a reply.
pub open spec fn replied_task(
    t: TaskModel,
    r: RunModel,
    c: CompletionModel,
    ids: ReplyIds,
    at: i64,
) -> TaskModel {
    let calls = callable(c.tool_calls);
    let recorded = reply_recorded(t, c, ids, at);
    if is_void(c) {
        t
    } else if is_repeated(r, c) {
        stopped_task(recorded, r, ids, at)
    } else if !has_step(t, r.step_id) {
        recorded
    } else if calls.len() == 0 {
        answered_task(recorded, r, c, ids, at)
    } else {
        acting_task(recorded, r, calls, ids, at)
    }
}

/// The run after a reply has been heard.
pub open spec fn heard_run(r: RunModel, c: CompletionModel) -> RunModel {
    let calls = callable(c.tool_calls);
    RunModel {
        latest_answer: latest(r, c),
        agent: RuntimeModel {
            tool_calls: calls,
            ..recalling(
                r.agent,
                MessageModel {
                    tool_calls: Some(calls),
                    ..plain_message(Role::Assistant, some_text(c.content))
                },
            )
        },
        signatures: with_value(
            r.signatures,
            signature_of(c.content, calls),
            repetitions(r, c),
        ),
        failure: None,
        ending: None,
        ..r
    }
}

/// The run after a reply.
pub open spec fn replied_run(t: TaskModel, r: RunModel, c: CompletionModel) -> RunModel {
    let calls = callable(c.tool_calls);
    let heard = heard_run(r, c);
    if is_void(c) {
        r
    } else if is_repeated(r, c) {
        RunModel { messages: heard.messages.push(text_message("system"@, REPEATED@)), ..heard }
    } else if calls.len() == 0 && has_step(t, r.step_id) {
        RunModel {
            messages: heard.messages.push(answer_message(c, calls)),
            latest_answer: if latest(r, c).len() == 0 {
                NO_ANSWER@
            } else {
                latest(r, c)
            },
            agent: RuntimeModel { state: AgentState::Finished, ..heard.agent },
            ..heard
        }
    } else {
        RunModel { messages: heard.messages.push(answer_message(c, calls)), ..heard }
    }
}

/// What comes after a reply. Where the task does not have the step of the round the run stops.
pub open spec fn next_turn(t: TaskModel, r: RunModel, c: CompletionModel) -> TurnModel {
    let calls = callable(c.tool_calls);
    if is_void(c) {
        TurnModel::Stop(
            "The model returned a tool call without a valid id or function name."@,
        )
    } else if !has_step(t, r.step_id) {
        TurnModel::Stop("Step not found"@)
    } else if is_repeated(r, c) {
        TurnModel::Stop(REPEATED@)
    } else if calls.len() == 0 {
        TurnModel::Answer(
            if latest(r, c).len() == 0 {
                NO_ANSWER@
            } else {
                latest(r, c)
            },
        )
    } else {
        TurnModel::Act(calls)
    }
}

impl AgentRun {
    fn hear(&mut self, c: &Completion, calls: &Vec<MessageToolCall>) -> (r: u32)
        requires
            deep(calls@) == callable(c.deep_view().tool_calls),
        ensures
            final(self).deep_view() == heard_run(old(self).deep_view(), c.deep_view()),
            r == repetitions(old(self).deep_view(), c.deep_view()),
    {
        if !blank(&c.content) {
            self.latest_answer = c.content.clone();
        }
        self.runtime.set_response(optional_text(&c.content), copy_all(calls));
        let mark = signature(&c.content, calls);
        let i = find_name(&self.signatures, &mark);
        let count: u32 = if i < self.signatures.len() {
            proof {
                assert(deep(self.signatures@)[i as int]
                    == self.signatures@[i as int].deep_view());
            }
            let n = self.signatures[i].1;
            if n == u32::MAX {
                n
            } else {
                n + 1
            }
        } else {
            1
        };
        set_value(&mut self.signatures, &mark, count);
        self.failure = None;
        self.ending = None;
        count
    }

    /// Ends the run with its answer, if the step of the round is there.
    fn answer(&mut self, task: &mut Task, ids: &ReplyIds, at: i64) -> (r: Result<(), String>)
        ensures
            !has_step(old(task).deep_view(), old(self).step_id@) ==> {
                &&& r is Err && r->Err_0@ == "Step not found"@
                &&& final(task).deep_view() == old(task).deep_view()
                &&& final(self).deep_view() == old(self).deep_view()
            },
            has_step(old(task).deep_view(), old(self).step_id@) ==> r is Ok && final(self).deep_view() == (RunModel {
                latest_answer: if old(self).latest_answer@.len() == 0 {
                    NO_ANSWER@
                } else {
                    old(self).latest_answer@
                },
                agent: RuntimeModel {
                    state: AgentState::Finished,
                    ..old(self).deep_view().agent
                },
                ..old(self).deep_view()
            }),
            forall|r: RunModel, c: CompletionModel|
                has_step(old(task).deep_view(), old(self).step_id@) && r.step_id
                    == old(self).step_id@ && latest(r, c) == old(self).latest_answer@
                    ==> final(task).deep_view() == #[trigger] answered_task(
                    old(task).deep_view(),
                    r,
                    c,
                    *ids,
                    at,
                ),
    {
        match task.finish_step(
            &self.step_id,
            StepStatus::Completed,
            Some("The response did not request another tool.".to_owned()),
            at,
        ) {
            Ok(_) => {},
            Err(error) => {
                return Err(error);
            },
        }
        if self.latest_answer.as_str().is_empty() {
            self.latest_answer = NO_ANSWER.to_owned();
            let message = TaskMessage::plain(
                ids.message.clone(),
                &task.id,
                "assistant",
                NO_ANSWER.to_owned(),
                at,
                false,
            );
            task.add_message(message, at);
            let entry = AgentMemoryEntry::plain(
                ids.extra_memory.clone(),
                "assistant",
                NO_ANSWER.to_owned(),
                at,
            );
            task.record_memory(entry, at);
        }
        self.runtime.base.finish();
        task.set_plan_step_status(
            0,
            PlanStepStatus::Completed,
            Some("The model produced a plan and final response.".to_owned()),
            at,
        );
        task.set_plan_step_status(
            2,
            PlanStepStatus::Completed,
            Some("No further tool call was requested.".to_owned()),
            at,
        );
        Ok(())
    }

    fn act(&self, task: &mut Task, calls: &Vec<MessageToolCall>, ids: &ReplyIds, at: i64) -> (r:
        Result<(), String>)
        ensures
            !has_step(old(task).deep_view(), self.step_id@) ==> {
                &&& r is Err && r->Err_0@ == "Step not found"@
                &&& final(task).deep_view() == old(task).deep_view()
            },
            has_step(old(task).deep_view(), self.step_id@) ==> r is Ok,
            forall|r: RunModel|
                has_step(old(task).deep_view(), self.step_id@) && r.step_id == self.step_id@
                    && r.round == self.round ==> final(task).deep_view()
                    == #[trigger] acting_task(
                    old(task).deep_view(),
                    r,
                    deep(calls@),
                    *ids,
                    at,
                ),
    {
        proof {
            assert(deep(calls@).len() == calls@.len());
        }
        let n = calls.len();
        let mut count = concat2(&number_text(n as u64), " tool call");
        count.append(
            if n == 1 {
                ""
            } else {
                "s"
            },
        );
        count.append(" requested.");
        match task.finish_step(&self.step_id, StepStatus::Completed, Some(count), at) {
            Ok(_) => {},
            Err(error) => {
                return Err(error);
            },
        }
        if self.round == 0 {
            task.set_plan_step_status(
                0,
                PlanStepStatus::Completed,
                Some("The model selected the first tool actions.".to_owned()),
                at,
            );
        }
        task.set_plan_step_status(
            1,
            PlanStepStatus::InProgress,
            Some(concat3("Executing ", &number_text(n as u64), " requested tool call(s).")),
            at,
        );
        task.set_status(AgentStatus::Executing, None, at);
        task.add_step(
            ids.act_step.clone(),
            StepPhase::Act,
            "Act",
            Some("Execute requested tools with timeout and approval checks.".to_owned()),
            at,
        );
        Ok(())
    }

    /// Takes a reply of the model: it is recorded, and it is the answer, or its tools are to be
    /// called, or the run stops.
    pub fn take_reply(&mut self, task: &mut Task, c: &Completion, ids: &ReplyIds, at: i64) -> (r:
        Result<Turn, AgentError>)
        ensures
            final(task).deep_view() == replied_task(
                old(task).deep_view(),
                old(self).deep_view(),
                c.deep_view(),
                *ids,
                at,
            ),
            final(self).deep_view() == replied_run(
                old(task).deep_view(),
                old(self).deep_view(),
                c.deep_view(),
            ),
            turn_is(
                r,
                next_turn(old(task).deep_view(), old(self).deep_view(), c.deep_view()),
            ),
    {
        let ghost run = self.deep_view();
        let ghost t = task.deep_view();
        let ghost model = c.deep_view();
        let calls = keep_callable(&c.tool_calls);
        proof {
            assert(model.tool_calls.len() == c.tool_calls@.len());
            assert(deep(calls@).len() == calls@.len());
        }
        if c.tool_calls.len() > 0 && calls.len() == 0 && blank(&c.content) {
            return Err(
                AgentError::Message(
                    "The model returned a tool call without a valid id or function name.".to_owned(),
                ),
            );
        }
        task.attach_tool_calls_to_last_message(&c.message_id, &calls, at);
        let repeated = self.hear(c, &calls);
        let mut entry = AgentMemoryEntry::plain(
            ids.memory.clone(),
            "assistant",
            c.content.clone(),
            at,
        );
        entry.reasoning = c.reasoning.clone();
        entry.reasoning_opaque = copy_option(&c.reasoning_opaque);
        entry.tool_names = names_of_calls(&calls);
        entry.tool_calls = copy_all(&calls);
        task.record_memory(entry, at);
        proof {
            assert(task.deep_view() == reply_recorded(t, model, *ids, at));
        }
        if repeated >= MAX_REPETITIONS && calls.len() > 0 {
            self.messages.push(make_text_message("system", REPEATED));
            let note = AgentMemoryEntry::plain(
                ids.extra_memory.clone(),
                "system",
                REPEATED.to_owned(),
                at,
            );
            task.record_memory(note, at);
            return match task.finish_step(
                &self.step_id,
                StepStatus::Failed,
                Some(REPEATED.to_owned()),
                at,
            ) {
                Ok(_) => Err(AgentError::Message(REPEATED.to_owned())),
                Err(error) => Err(AgentError::Message(error)),
            };
        }
        self.messages.push(make_answer_message(c, &calls));
        if calls.len() == 0 {
            return match self.answer(task, ids, at) {
                Ok(_) => Ok(Turn::Answer(self.latest_answer.clone())),
                Err(error) => Err(AgentError::Message(error)),
            };
        }
        match self.act(task, &calls, ids, at) {
            Ok(_) => Ok(Turn::Act(calls)),
            Err(error) => Err(AgentError::Message(error)),
        }
    }
}

} // verus!
