//! What happens to the record of a task. The time of a change is handed in, and so are the
//! identifiers of what is new.

use vstd::prelude::*;

use crate::agent::{MessageToolCall, ToolCallModel};
use crate::deep::{copy_all, deep, group_deep};
use crate::json::{group_json, Json, JsonModel};
use crate::memory::{trim_memory_to_budget, within_budget, MAX_MEMORY_ENTRIES};
use crate::models::{AgentMemoryEntry, EntryModel};
use crate::plan::{AgentPlan, AgentPlanStep, PlanModel, PlanStepStatus, StepModel};
use crate::tasks::parts::{
    attach_tool_calls, rebuild_assistant_parts, rebuilt, stream_event, streamed, with_calls,
    StreamEvent,
};
use crate::tasks::records::{
    AgentStatus, AgentStep, ApprovalModel, ApprovalRequest, CallModel, ResultModel, RunStepModel,
    StepPhase, StepStatus, SummaryModel, Task, TaskMessage, TaskMessageModel, TaskModel,
    TaskSummary, ToolCall, ToolCallStatus, ToolResult,
};
use crate::text::{concat2, copy_option, same};

verus! {

broadcast use {group_deep, group_json};

// ---- finding by identifier ----

/// What has an identifier.
pub trait Identified: Sized {
    spec fn key(&self) -> Seq<char>;

    fn is_named(&self, id: &str) -> (r: bool)
        ensures
            r == (self.key() == id@),
    ;
}

impl Identified for TaskMessage {
    open spec fn key(&self) -> Seq<char> {
        self.id@
    }

    fn is_named(&self, id: &str) -> (r: bool) {
        same(&self.id, id)
    }
}

impl Identified for AgentStep {
    open spec fn key(&self) -> Seq<char> {
        self.id@
    }

    fn is_named(&self, id: &str) -> (r: bool) {
        same(&self.id, id)
    }
}

impl Identified for ToolCall {
    open spec fn key(&self) -> Seq<char> {
        self.id@
    }

    fn is_named(&self, id: &str) -> (r: bool) {
        same(&self.id, id)
    }
}

impl Identified for ApprovalRequest {
    open spec fn key(&self) -> Seq<char> {
        self.id@
    }

    fn is_named(&self, id: &str) -> (r: bool) {
        same(&self.id, id)
    }
}

impl Identified for AgentPlan {
    open spec fn key(&self) -> Seq<char> {
        self.id@
    }

    fn is_named(&self, id: &str) -> (r: bool) {
        same(&self.id, id)
    }
}

/// The place of the first identifier that is the one sought; the count where there is none.
pub open spec fn position(ids: Seq<Seq<char>>, id: Seq<char>) -> int
    decreases ids.len(),
{
    if ids.len() == 0 || ids.first() == id {
        0
    } else {
        1 + position(ids.drop_first(), id)
    }
}

pub proof fn lemma_position(ids: Seq<Seq<char>>, id: Seq<char>)
    ensures
        0 <= position(ids, id) <= ids.len(),
        position(ids, id) < ids.len() ==> ids[position(ids, id)] == id,
        forall|j: int| 0 <= j < position(ids, id) ==> (#[trigger] ids[j]) != id,
    decreases ids.len(),
{
    if ids.len() > 0 && ids.first() != id {
        lemma_position(ids.drop_first(), id);
        let k = position(ids.drop_first(), id);
        assert forall|j: int| 0 <= j < k + 1 implies (#[trigger] ids[j]) != id by {
            if j > 0 {
                assert(ids.drop_first()[j - 1] == ids[j]);
            }
        }
    }
}

/// The identifiers of the items.
pub open spec fn keys_of<T: Identified>(items: Seq<T>) -> Seq<Seq<char>> {
    Seq::new(items.len(), |i: int| items[i].key())
}

/// The place of the first item with the identifier.
pub fn find_by_id<T: Identified>(items: &Vec<T>, id: &str) -> (r: usize)
    ensures
        r == position(keys_of(items@), id@),
        r <= items@.len(),
{
    let ghost ids = keys_of(items@);
    let mut i: usize = 0;
    proof {
        assert(ids.skip(0) =~= ids);
    }
    while i < items.len() && !items[i].is_named(id)
        invariant
            ids == keys_of(items@),
            i <= items@.len(),
            position(ids, id@) == i + position(ids.skip(i as int), id@),
        decreases items@.len() - i,
    {
        proof {
            assert(ids.skip(i as int).first() == items@[i as int].key());
            assert(ids.skip(i as int).drop_first() =~= ids.skip(i + 1));
        }
        i += 1;
    }
    proof {
        if i < items@.len() {
            assert(ids.skip(i as int).first() == items@[i as int].key());
        }
    }
    i
}

pub open spec fn message_place(messages: Seq<TaskMessageModel>, id: Seq<char>) -> int {
    position(messages.map_values(|m: TaskMessageModel| m.id), id)
}

pub open spec fn step_place(steps: Seq<RunStepModel>, id: Seq<char>) -> int {
    position(steps.map_values(|s: RunStepModel| s.id), id)
}

/// Whether the task has the step.
pub open spec fn has_step(t: TaskModel, id: Seq<char>) -> bool {
    step_place(t.steps, id) < t.steps.len()
}

pub proof fn lemma_newest_step(t: TaskModel, id: Seq<char>)
    requires
        t.steps.len() > 0,
        t.steps.last().id == id,
    ensures
        has_step(t, id),
{
    let ids = t.steps.map_values(|s: RunStepModel| s.id);
    lemma_position(ids, id);
    assert(ids[t.steps.len() - 1] == id);
}

pub open spec fn call_place(calls: Seq<CallModel>, id: Seq<char>) -> int {
    position(calls.map_values(|c: CallModel| c.id), id)
}

pub open spec fn approval_place(requests: Seq<ApprovalModel>, id: Seq<char>) -> int {
    position(requests.map_values(|r: ApprovalModel| r.id), id)
}

pub open spec fn plan_place(plans: Seq<PlanModel>, id: Seq<char>) -> int {
    position(plans.map_values(|p: PlanModel| p.id), id)
}

fn find_message(messages: &Vec<TaskMessage>, id: &str) -> (r: usize)
    ensures
        r == message_place(deep(messages@), id@),
        r <= messages@.len(),
{
    proof {
        assert(keys_of(messages@) =~= deep(messages@).map_values(|m: TaskMessageModel| m.id));
    }
    find_by_id(messages, id)
}

fn find_step(steps: &Vec<AgentStep>, id: &str) -> (r: usize)
    ensures
        r == step_place(deep(steps@), id@),
        r <= steps@.len(),
{
    proof {
        assert(keys_of(steps@) =~= deep(steps@).map_values(|s: RunStepModel| s.id));
    }
    find_by_id(steps, id)
}

fn find_call(calls: &Vec<ToolCall>, id: &str) -> (r: usize)
    ensures
        r == call_place(deep(calls@), id@),
        r <= calls@.len(),
{
    proof {
        assert(keys_of(calls@) =~= deep(calls@).map_values(|c: CallModel| c.id));
    }
    find_by_id(calls, id)
}

fn find_approval(requests: &Vec<ApprovalRequest>, id: &str) -> (r: usize)
    ensures
        r == approval_place(deep(requests@), id@),
        r <= requests@.len(),
{
    proof {
        assert(keys_of(requests@) =~= deep(requests@).map_values(|r: ApprovalModel| r.id));
    }
    find_by_id(requests, id)
}

pub fn find_plan(plans: &Vec<AgentPlan>, id: &str) -> (r: usize)
    ensures
        r == plan_place(deep(plans@), id@),
        r <= plans@.len(),
{
    proof {
        assert(keys_of(plans@) =~= deep(plans@).map_values(|p: PlanModel| p.id));
    }
    find_by_id(plans, id)
}

// ---- revisions ----

/// One more; no more than can be counted.
pub open spec fn next_revision(revision: u64) -> u64 {
    if revision == u64::MAX {
        revision
    } else {
        (revision + 1) as u64
    }
}

/// The task after a change that counts as a revision.
pub open spec fn revised(t: TaskModel) -> TaskModel {
    TaskModel { persistence_revision: next_revision(t.persistence_revision), ..t }
}

/// The task after a change at the time.
pub open spec fn touched(t: TaskModel, at: i64) -> TaskModel {
    TaskModel { updated_at: at, ..revised(t) }
}

/// How long something took, in milliseconds; not less than no time.
pub open spec fn duration(from: i64, to: i64) -> u64 {
    if to < from {
        0
    } else {
        (to - from) as u64
    }
}

fn elapsed(from: i64, to: i64) -> (r: u64)
    ensures
        r == duration(from, to),
{
    if to < from {
        0
    } else {
        (to as i128 - from as i128) as u64
    }
}

/// A message with a text and nothing else.
pub open spec fn plain_task_message(
    id: Seq<char>,
    task_id: Seq<char>,
    role: Seq<char>,
    content: Seq<char>,
    at: i64,
    streaming: bool,
) -> TaskMessageModel {
    TaskMessageModel {
        id,
        task_id,
        role,
        content,
        reasoning: Seq::empty(),
        reasoning_opaque: None,
        created_at: at,
        streaming,
        parts: Seq::empty(),
        tool_calls: Seq::empty(),
        tool_call_id: None,
        name: None,
        base64_image: None,
        attachments: Seq::empty(),
    }
}

/// A message with the result of a tool.
pub open spec fn tool_task_message(
    id: Seq<char>,
    task_id: Seq<char>,
    name: Seq<char>,
    call_id: Seq<char>,
    content: Seq<char>,
    at: i64,
) -> TaskMessageModel {
    TaskMessageModel {
        tool_call_id: Some(call_id),
        name: Some(name),
        ..plain_task_message(id, task_id, "tool"@, content, at, false)
    }
}

impl TaskMessage {
    /// A message with a text and nothing else.
    pub fn plain(
        id: String,
        task_id: &str,
        role: &str,
        content: String,
        at: i64,
        streaming: bool,
    ) -> (r: Self)
        ensures
            r.deep_view() == plain_task_message(id@, task_id@, role@, content@, at, streaming),
    {
        TaskMessage {
            id,
            task_id: task_id.to_owned(),
            role: role.to_owned(),
            content,
            reasoning: String::new(),
            reasoning_opaque: None,
            created_at: at,
            streaming,
            parts: Vec::new(),
            tool_calls: Vec::new(),
            tool_call_id: None,
            name: None,
            base64_image: None,
            attachments: Vec::new(),
        }
    }

    /// A message with the result of a tool.
    pub fn tool_result(
        id: String,
        task_id: &str,
        name: &str,
        call_id: &str,
        content: String,
        at: i64,
    ) -> (r: Self)
        ensures
            r.deep_view() == tool_task_message(id@, task_id@, name@, call_id@, content@, at),
    {
        let mut r = TaskMessage::plain(id, task_id, "tool", content, at, false);
        r.tool_call_id = Some(call_id.to_owned());
        r.name = Some(name.to_owned());
        r
    }
}

// ---- changes ----

pub open spec fn with_status(
    t: TaskModel,
    status: AgentStatus,
    error: Option<Seq<char>>,
    at: i64,
) -> TaskModel {
    TaskModel { status, error, ..touched(t, at) }
}

pub open spec fn with_answer(t: TaskModel, answer: Seq<char>, at: i64) -> TaskModel {
    TaskModel { final_answer: Some(answer), ..touched(t, at) }
}

pub open spec fn with_message(t: TaskModel, message: TaskMessageModel, at: i64) -> TaskModel {
    TaskModel { messages: t.messages.push(message), ..touched(t, at) }
}

pub open spec fn with_memory(t: TaskModel, entry: EntryModel, at: i64) -> TaskModel {
    TaskModel {
        memory: within_budget(t.memory.push(entry), MAX_MEMORY_ENTRIES as int),
        ..touched(t, at)
    }
}

/// Whether an event brings nothing.
pub open spec fn is_empty_event(event: StreamEvent) -> bool {
    match event {
        StreamEvent::TextDelta(delta) => delta@.len() == 0,
        _ => false,
    }
}

/// The task after an event of the stream of a message. A message that is not there yet begins.
pub open spec fn with_stream_event(
    t: TaskModel,
    message_id: Seq<char>,
    event: StreamEvent,
    part_id: Seq<char>,
    at: i64,
) -> TaskModel {
    if is_empty_event(event) {
        t
    } else {
        let i = message_place(t.messages, message_id);
        revised(
            TaskModel {
                messages: if i < t.messages.len() {
                    t.messages.update(
                        i,
                        streamed(
                            TaskMessageModel { streaming: true, ..t.messages[i] },
                            event,
                            part_id,
                        ),
                    )
                } else {
                    t.messages.push(
                        streamed(
                            plain_task_message(
                                message_id,
                                t.id,
                                "assistant"@,
                                Seq::empty(),
                                at,
                                true,
                            ),
                            event,
                            part_id,
                        ),
                    )
                },
                ..t
            },
        )
    }
}

/// The task when a message is complete.
pub open spec fn with_finished_stream(t: TaskModel, message_id: Seq<char>) -> TaskModel {
    let i = message_place(t.messages, message_id);
    if i < t.messages.len() {
        revised(
            TaskModel {
                messages: t.messages.update(
                    i,
                    TaskMessageModel { streaming: false, ..t.messages[i] },
                ),
                ..t
            },
        )
    } else {
        t
    }
}

/// The task with the calls of a message.
pub open spec fn with_message_calls(
    t: TaskModel,
    message_id: Seq<char>,
    calls: Seq<ToolCallModel>,
    at: i64,
) -> TaskModel {
    if calls.len() == 0 {
        t
    } else {
        let i = message_place(t.messages, message_id);
        revised(
            TaskModel {
                messages: if i < t.messages.len() {
                    t.messages.update(i, with_calls(t.messages[i], calls))
                } else {
                    t.messages.push(
                        rebuilt(
                            TaskMessageModel {
                                tool_calls: calls,
                                ..plain_task_message(
                                    message_id,
                                    t.id,
                                    "assistant"@,
                                    Seq::empty(),
                                    at,
                                    false,
                                )
                            },
                        ),
                    )
                },
                ..t
            },
        )
    }
}

/// A step that begins.
pub open spec fn running_step(
    id: Seq<char>,
    task_id: Seq<char>,
    phase: StepPhase,
    title: Seq<char>,
    detail: Option<Seq<char>>,
    at: i64,
) -> RunStepModel {
    RunStepModel {
        id,
        task_id,
        phase,
        title,
        detail,
        status: StepStatus::Running,
        started_at: at,
        ended_at: None,
        duration_ms: None,
    }
}

/// A step that ends.
pub open spec fn ended_step(
    step: RunStepModel,
    status: StepStatus,
    detail: Option<Seq<char>>,
    at: i64,
) -> RunStepModel {
    RunStepModel {
        status,
        ended_at: Some(at),
        duration_ms: Some(duration(step.started_at, at)),
        detail: if detail is Some {
            detail
        } else {
            step.detail
        },
        ..step
    }
}

pub open spec fn with_new_step(
    t: TaskModel,
    id: Seq<char>,
    phase: StepPhase,
    title: Seq<char>,
    detail: Option<Seq<char>>,
    at: i64,
) -> TaskModel {
    TaskModel {
        steps: t.steps.push(running_step(id, t.id, phase, title, detail, at)),
        ..touched(t, at)
    }
}

pub open spec fn with_ended_step(
    t: TaskModel,
    id: Seq<char>,
    status: StepStatus,
    detail: Option<Seq<char>>,
    at: i64,
) -> TaskModel {
    let i = step_place(t.steps, id);
    if i < t.steps.len() {
        TaskModel {
            steps: t.steps.update(i, ended_step(t.steps[i], status, detail, at)),
            ..touched(t, at)
        }
    } else {
        t
    }
}

/// A call of a tool that begins.
pub open spec fn running_call(
    id: Seq<char>,
    task_id: Seq<char>,
    name: Seq<char>,
    arguments: JsonModel,
    model_tool_call_id: Option<Seq<char>>,
    at: i64,
) -> CallModel {
    CallModel {
        id,
        task_id,
        name,
        arguments,
        model_tool_call_id,
        status: ToolCallStatus::Running,
        started_at: at,
        ended_at: None,
        duration_ms: None,
        result: None,
        error: None,
    }
}

/// A call of a tool that ends.
pub open spec fn ended_call(
    call: CallModel,
    status: ToolCallStatus,
    output: Option<Seq<char>>,
    error: Option<Seq<char>>,
    at: i64,
) -> CallModel {
    CallModel {
        status,
        ended_at: Some(at),
        duration_ms: Some(duration(call.started_at, at)),
        result: output,
        error,
        ..call
    }
}

pub open spec fn with_new_call(t: TaskModel, call: CallModel, at: i64) -> TaskModel {
    TaskModel { tool_calls: t.tool_calls.push(call), ..touched(t, at) }
}

pub open spec fn with_ended_call(
    t: TaskModel,
    id: Seq<char>,
    status: ToolCallStatus,
    output: Option<Seq<char>>,
    error: Option<Seq<char>>,
    at: i64,
) -> TaskModel {
    let i = call_place(t.tool_calls, id);
    if i < t.tool_calls.len() {
        TaskModel {
            tool_calls: t.tool_calls.update(
                i,
                ended_call(t.tool_calls[i], status, output, error, at),
            ),
            ..touched(t, at)
        }
    } else {
        t
    }
}

pub open spec fn with_approval(t: TaskModel, request: ApprovalModel, at: i64) -> TaskModel {
    TaskModel { approval_requests: t.approval_requests.push(request), ..touched(t, at) }
}

pub open spec fn with_approval_status(
    t: TaskModel,
    id: Seq<char>,
    status: Seq<char>,
    at: i64,
) -> TaskModel {
    let i = approval_place(t.approval_requests, id);
    if i < t.approval_requests.len() {
        TaskModel {
            approval_requests: t.approval_requests.update(
                i,
                ApprovalModel { status, ..t.approval_requests[i] },
            ),
            ..touched(t, at)
        }
    } else {
        t
    }
}

impl Task {
    /// Counts a revision.
    fn revise(&mut self)
        ensures
            final(self).deep_view() == revised(old(self).deep_view()),
    {
        if self.persistence_revision < u64::MAX {
            self.persistence_revision = self.persistence_revision + 1;
        }
    }

    /// Counts a revision at the time.
    pub fn touch(&mut self, at: i64)
        ensures
            final(self).deep_view() == touched(old(self).deep_view(), at),
    {
        self.revise();
        self.updated_at = at;
    }

    pub fn set_status(&mut self, status: AgentStatus, error: Option<String>, at: i64)
        ensures
            final(self).deep_view() == with_status(
                old(self).deep_view(),
                status,
                error.deep_view(),
                at,
            ),
    {
        self.status = status;
        self.touch(at);
        self.error = error;
    }

    pub fn set_final_answer(&mut self, answer: String, at: i64)
        ensures
            final(self).deep_view() == with_answer(old(self).deep_view(), answer@, at),
    {
        self.final_answer = Some(answer);
        self.touch(at);
    }

    pub fn add_message(&mut self, message: TaskMessage, at: i64)
        ensures
            final(self).deep_view() == with_message(
                old(self).deep_view(),
                message.deep_view(),
                at,
            ),
    {
        self.messages.push(message);
        self.touch(at);
    }

    /// Adds an entry to what the agent remembers, which stays within its limit.
    pub fn record_memory(&mut self, entry: AgentMemoryEntry, at: i64)
        ensures
            final(self).deep_view() == with_memory(old(self).deep_view(), entry.deep_view(), at),
    {
        self.memory.push(entry);
        trim_memory_to_budget(&mut self.memory, MAX_MEMORY_ENTRIES);
        self.touch(at);
    }

    /// Takes an event of the stream of a message.
    pub fn append_stream_event(
        &mut self,
        message_id: &str,
        event: &StreamEvent,
        part_id: &str,
        at: i64,
    )
        ensures
            final(self).deep_view() == with_stream_event(
                old(self).deep_view(),
                message_id@,
                *event,
                part_id@,
                at,
            ),
    {
        if let StreamEvent::TextDelta(delta) = event {
            if delta.as_str().is_empty() {
                return;
            }
        }
        let i = find_message(&self.messages, message_id);
        if i < self.messages.len() {
            proof {
                assert(deep(self.messages@)[i as int] == self.messages@[i as int].deep_view());
            }
            let mut message = self.messages[i].clone();
            message.streaming = true;
            stream_event(&mut message, event, part_id);
            self.messages.set(i, message);
        } else {
            let mut message = TaskMessage::plain(
                message_id.to_owned(),
                &self.id,
                "assistant",
                String::new(),
                at,
                true,
            );
            stream_event(&mut message, event, part_id);
            self.messages.push(message);
        }
        self.revise();
    }

    /// Ends the stream of a message, and gives the message.
    pub fn finish_stream_message(&mut self, message_id: &str) -> (r: Option<TaskMessage>)
        ensures
            final(self).deep_view() == with_finished_stream(old(self).deep_view(), message_id@),
            ({
                let messages = old(self).deep_view().messages;
                let i = message_place(messages, message_id@);
                r.deep_view() == if i < messages.len() {
                    Some(TaskMessageModel { streaming: false, ..messages[i] })
                } else {
                    None
                }
            }),
    {
        let i = find_message(&self.messages, message_id);
        if i < self.messages.len() {
            proof {
                assert(deep(self.messages@)[i as int] == self.messages@[i as int].deep_view());
            }
            let mut message = self.messages[i].clone();
            message.streaming = false;
            let shown = message.clone();
            self.messages.set(i, message);
            self.revise();
            Some(shown)
        } else {
            None
        }
    }

    /// Sets the calls of a message. A message that is not there yet is added.
    pub fn attach_tool_calls_to_last_message(
        &mut self,
        message_id: &str,
        calls: &Vec<MessageToolCall>,
        at: i64,
    )
        ensures
            final(self).deep_view() == with_message_calls(
                old(self).deep_view(),
                message_id@,
                deep(calls@),
                at,
            ),
    {
        proof {
            assert(deep(calls@).len() == calls@.len());
        }
        if calls.len() == 0 {
            return;
        }
        let i = find_message(&self.messages, message_id);
        if i < self.messages.len() {
            proof {
                assert(deep(self.messages@)[i as int] == self.messages@[i as int].deep_view());
            }
            let mut message = self.messages[i].clone();
            attach_tool_calls(&mut message, calls);
            self.messages.set(i, message);
        } else {
            let mut message = TaskMessage::plain(
                message_id.to_owned(),
                &self.id,
                "assistant",
                String::new(),
                at,
                false,
            );
            message.tool_calls = copy_all(calls);
            rebuild_assistant_parts(&mut message);
            self.messages.push(message);
        }
        self.revise();
    }

    /// Begins a step.
    pub fn add_step(
        &mut self,
        id: String,
        phase: StepPhase,
        title: &str,
        detail: Option<String>,
        at: i64,
    )
        ensures
            final(self).deep_view() == with_new_step(
                old(self).deep_view(),
                id@,
                phase,
                title@,
                detail.deep_view(),
                at,
            ),
    {
        let step = AgentStep {
            id,
            task_id: self.id.clone(),
            phase,
            title: title.to_owned(),
            detail,
            status: StepStatus::Running,
            started_at: at,
            ended_at: None,
            duration_ms: None,
        };
        self.steps.push(step);
        self.touch(at);
    }

    /// Ends a step.
    pub fn finish_step(
        &mut self,
        step_id: &str,
        status: StepStatus,
        detail: Option<String>,
        at: i64,
    ) -> (r: Result<AgentStep, String>)
        ensures
            final(self).deep_view() == with_ended_step(
                old(self).deep_view(),
                step_id@,
                status,
                detail.deep_view(),
                at,
            ),
            ({
                let steps = old(self).deep_view().steps;
                let i = step_place(steps, step_id@);
                if i < steps.len() {
                    r is Ok && r->Ok_0.deep_view() == ended_step(
                        steps[i],
                        status,
                        detail.deep_view(),
                        at,
                    )
                } else {
                    r is Err && r->Err_0@ == "Step not found"@
                }
            }),
    {
        let i = find_step(&self.steps, step_id);
        if i >= self.steps.len() {
            return Err("Step not found".to_owned());
        }
        proof {
            assert(deep(self.steps@)[i as int] == self.steps@[i as int].deep_view());
        }
        let mut step = self.steps[i].clone();
        step.status = status;
        step.ended_at = Some(at);
        step.duration_ms = Some(elapsed(step.started_at, at));
        if detail.is_some() {
            step.detail = detail;
        }
        let shown = step.clone();
        self.steps.set(i, step);
        self.touch(at);
        Ok(shown)
    }

    /// Begins a call of a tool.
    pub fn add_tool_call(
        &mut self,
        id: String,
        name: &str,
        arguments: Json,
        model_tool_call_id: Option<String>,
        at: i64,
    )
        ensures
            final(self).deep_view() == with_new_call(
                old(self).deep_view(),
                running_call(
                    id@,
                    old(self).id@,
                    name@,
                    arguments.deep_view(),
                    model_tool_call_id.deep_view(),
                    at,
                ),
                at,
            ),
    {
        let call = ToolCall {
            id,
            task_id: self.id.clone(),
            name: name.to_owned(),
            arguments,
            model_tool_call_id,
            status: ToolCallStatus::Running,
            started_at: at,
            ended_at: None,
            duration_ms: None,
            result: None,
            error: None,
        };
        self.tool_calls.push(call);
        self.touch(at);
    }

    /// Ends a call of a tool, and gives what it came to.
    pub fn finish_tool_call(
        &mut self,
        result_id: String,
        tool_call_id: &str,
        status: ToolCallStatus,
        output: Option<String>,
        error: Option<String>,
        at: i64,
    ) -> (r: Result<ToolResult, String>)
        ensures
            final(self).deep_view() == with_ended_call(
                old(self).deep_view(),
                tool_call_id@,
                status,
                output.deep_view(),
                error.deep_view(),
                at,
            ),
            ({
                let calls = old(self).deep_view().tool_calls;
                let i = call_place(calls, tool_call_id@);
                if i < calls.len() {
                    r is Ok && r->Ok_0.deep_view() == (ResultModel {
                        id: result_id@,
                        task_id: old(self).id@,
                        tool_call_id: tool_call_id@,
                        status,
                        output: output.deep_view(),
                        error: error.deep_view(),
                        duration_ms: Some(duration(calls[i].started_at, at)),
                    })
                } else {
                    r is Err && r->Err_0@ == "Tool call not found"@
                }
            }),
    {
        let i = find_call(&self.tool_calls, tool_call_id);
        if i >= self.tool_calls.len() {
            return Err("Tool call not found".to_owned());
        }
        proof {
            assert(deep(self.tool_calls@)[i as int] == self.tool_calls@[i as int].deep_view());
        }
        let mut call = self.tool_calls[i].clone();
        let duration_ms = Some(elapsed(call.started_at, at));
        call.status = status;
        call.ended_at = Some(at);
        call.duration_ms = duration_ms;
        call.result = copy_option(&output);
        call.error = copy_option(&error);
        self.tool_calls.set(i, call);
        self.touch(at);
        Ok(
            ToolResult {
                id: result_id,
                task_id: self.id.clone(),
                tool_call_id: tool_call_id.to_owned(),
                status,
                output,
                error,
                duration_ms,
            },
        )
    }

    pub fn add_approval_request(&mut self, request: ApprovalRequest, at: i64)
        ensures
            final(self).deep_view() == with_approval(
                old(self).deep_view(),
                request.deep_view(),
                at,
            ),
    {
        self.approval_requests.push(request);
        self.touch(at);
    }

    /// Sets the status of a request for approval, and gives the request where it is there.
    pub fn update_approval_status(&mut self, approval_id: &str, status: &str, at: i64) -> (r:
        Option<ApprovalRequest>)
        ensures
            final(self).deep_view() == with_approval_status(
                old(self).deep_view(),
                approval_id@,
                status@,
                at,
            ),
            ({
                let requests = old(self).deep_view().approval_requests;
                let i = approval_place(requests, approval_id@);
                r.deep_view() == if i < requests.len() {
                    Some(ApprovalModel { status: status@, ..requests[i] })
                } else {
                    None
                }
            }),
    {
        let i = find_approval(&self.approval_requests, approval_id);
        if i >= self.approval_requests.len() {
            return None;
        }
        proof {
            assert(deep(self.approval_requests@)[i as int]
                == self.approval_requests@[i as int].deep_view());
        }
        let mut request = self.approval_requests[i].clone();
        request.status = status.to_owned();
        let shown = request.clone();
        self.approval_requests.set(i, request);
        self.touch(at);
        Some(shown)
    }
}

// ---- steps that are left ----

/// The steps with those that run ended.
pub open spec fn all_ended(
    steps: Seq<RunStepModel>,
    status: StepStatus,
    detail: Seq<char>,
    at: i64,
) -> Seq<RunStepModel> {
    steps.map_values(
        |step: RunStepModel|
            if step.status == StepStatus::Running {
                ended_step(step, status, Some(detail), at)
            } else {
                step
            },
    )
}

/// How many steps run.
pub open spec fn running_count(steps: Seq<RunStepModel>) -> nat
    decreases steps.len(),
{
    if steps.len() == 0 {
        0
    } else {
        running_count(steps.drop_last()) + (if steps.last().status == StepStatus::Running {
            1nat
        } else {
            0nat
        })
    }
}

/// The task after so many changes at the time.
pub open spec fn touched_times(t: TaskModel, times: nat, at: i64) -> TaskModel
    decreases times,
{
    if times == 0 {
        t
    } else {
        touched(touched_times(t, (times - 1) as nat, at), at)
    }
}

pub proof fn lemma_touched_times(t: TaskModel, times: nat, at: i64)
    ensures
        touched_times(t, times, at) == (TaskModel {
            persistence_revision: touched_times(t, times, at).persistence_revision,
            updated_at: touched_times(t, times, at).updated_at,
            ..t
        }),
    decreases times,
{
    if times > 0 {
        lemma_touched_times(t, (times - 1) as nat, at);
    }
}

impl Task {
    /// Ends the steps that run, one after the other.
    pub fn finish_active_steps(&mut self, status: StepStatus, detail: &str, at: i64)
        ensures
            final(self).deep_view() == ({
                let t = old(self).deep_view();
                TaskModel {
                    steps: all_ended(t.steps, status, detail@, at),
                    ..touched_times(t, running_count(t.steps), at)
                }
            }),
    {
        let ghost first = self.deep_view();
        let mut ended: Vec<AgentStep> = Vec::new();
        let mut i: usize = 0;
        proof {
            assert(first.steps.take(0) =~= Seq::<RunStepModel>::empty());
        }
        while i < self.steps.len()
            invariant
                deep(self.steps@) == first.steps,
                self.deep_view() == touched_times(
                    first,
                    running_count(first.steps.take(i as int)),
                    at,
                ),
                self.steps@.len() == first.steps.len(),
                i <= self.steps@.len(),
                ended@.len() == i,
                forall|k: int|
                    0 <= k < i ==> #[trigger] deep(ended@)[k] == all_ended(
                        first.steps,
                        status,
                        detail@,
                        at,
                    )[k],
            decreases first.steps.len() - i,
        {
            proof {
                assert(first.steps[i as int] == self.steps@[i as int].deep_view());
                assert(first.steps.take(i + 1).drop_last() =~= first.steps.take(i as int));
            }
            let mut step = self.steps[i].clone();
            if step.status == StepStatus::Running {
                self.touch(at);
                proof {
                    assert(deep(self.steps@).len() == self.steps@.len());
                }
                step.status = status;
                step.ended_at = Some(at);
                step.duration_ms = Some(elapsed(step.started_at, at));
                step.detail = Some(detail.to_owned());
            }
            let ghost before = deep(ended@);
            ended.push(step);
            proof {
                assert(deep(ended@) == before.push(step.deep_view()));
            }
            i += 1;
        }
        proof {
            assert(deep(ended@) =~= all_ended(first.steps, status, detail@, at));
            assert(first.steps.len() == self.steps@.len());
            assert(first.steps.take(first.steps.len() as int) =~= first.steps);
            lemma_touched_times(first, running_count(first.steps), at);
        }
        self.steps = ended;
    }
}

// ---- plans ----

/// The titles of the steps that a kind of agent takes.
pub open spec fn default_titles(kind: Seq<char>) -> Seq<Seq<char>> {
    if kind == "data_analysis"@ {
        seq![
            "Inspect the dataset and define the analysis"@,
            "Compute summaries and prepare a visualization"@,
            "Verify the evidence and report limitations"@,
        ]
    } else if kind == "swe"@ {
        seq![
            "Inspect the repository and reproduce the issue"@,
            "Implement the smallest verified change"@,
            "Run checks and report the result"@,
        ]
    } else if kind == "browser"@ {
        seq![
            "Open the relevant pages and gather evidence"@,
            "Act on the selected page state"@,
            "Verify sources and summarize findings"@,
        ]
    } else {
        seq![
            "Understand the request and choose an execution path"@,
            "Use the smallest useful tools to gather evidence"@,
            "Verify tool results and compose the answer"@,
        ]
    }
}

pub open spec fn default_step(id: Seq<char>, title: Seq<char>) -> StepModel {
    StepModel {
        id,
        title,
        description: title,
        status: PlanStepStatus::NotStarted,
        notes: Seq::empty(),
    }
}

/// The identifiers of a plan and of its three steps.
#[derive(Debug, PartialEq, Eq)]
pub struct PlanIds {
    pub plan: String,
    pub first: String,
    pub second: String,
    pub third: String,
}

/// The plan that a task begins with.
pub open spec fn default_plan(t: TaskModel, ids: PlanIds, at: i64) -> PlanModel {
    let titles = default_titles(t.agent_kind);
    PlanModel {
        id: ids.plan@,
        title: t.agent_name + " execution plan"@,
        steps: seq![
            default_step(ids.first@, titles[0]),
            default_step(ids.second@, titles[1]),
            default_step(ids.third@, titles[2]),
        ],
        created_at: at,
        updated_at: at,
    }
}

/// The place of the plan that is worked off; the count of the plans where there is none.
pub open spec fn active_plan(t: TaskModel) -> int {
    match t.active_plan_id {
        Some(id) => plan_place(t.plans, id),
        None => t.plans.len() as int,
    }
}

/// The task with a plan.
pub open spec fn with_plan(t: TaskModel, ids: PlanIds, at: i64) -> TaskModel {
    if active_plan(t) < t.plans.len() {
        t
    } else {
        let plan = default_plan(t, ids, at);
        TaskModel {
            active_plan_id: Some(plan.id),
            plans: t.plans.push(plan),
            ..touched(t, at)
        }
    }
}

/// A step of a plan with another status, and with other notes where some are given.
pub open spec fn noted_step(
    step: StepModel,
    status: PlanStepStatus,
    note: Option<Seq<char>>,
) -> StepModel {
    StepModel {
        status,
        notes: match note {
            Some(note) => note,
            None => step.notes,
        },
        ..step
    }
}

/// The task with the status of a step of its plan set.
pub open spec fn with_plan_step(
    t: TaskModel,
    index: int,
    status: PlanStepStatus,
    note: Option<Seq<char>>,
    at: i64,
) -> TaskModel {
    let i = active_plan(t);
    if i < t.plans.len() && 0 <= index < t.plans[i].steps.len() {
        let plan = t.plans[i];
        TaskModel {
            plans: t.plans.update(
                i,
                PlanModel {
                    steps: plan.steps.update(index, noted_step(plan.steps[index], status, note)),
                    updated_at: at,
                    ..plan
                },
            ),
            ..touched(t, at)
        }
    } else {
        t
    }
}

fn make_default_step(id: &str, title: &str) -> (r: AgentPlanStep)
    ensures
        r.deep_view() == default_step(id@, title@),
{
    AgentPlanStep {
        id: id.to_owned(),
        title: title.to_owned(),
        description: title.to_owned(),
        status: PlanStepStatus::NotStarted,
        notes: String::new(),
    }
}

fn title_texts(kind: &str) -> (r: (&'static str, &'static str, &'static str))
    ensures
        default_titles(kind@) == seq![r.0@, r.1@, r.2@],
{
    if same(kind, "data_analysis") {
        (
            "Inspect the dataset and define the analysis",
            "Compute summaries and prepare a visualization",
            "Verify the evidence and report limitations",
        )
    } else if same(kind, "swe") {
        (
            "Inspect the repository and reproduce the issue",
            "Implement the smallest verified change",
            "Run checks and report the result",
        )
    } else if same(kind, "browser") {
        (
            "Open the relevant pages and gather evidence",
            "Act on the selected page state",
            "Verify sources and summarize findings",
        )
    } else {
        (
            "Understand the request and choose an execution path",
            "Use the smallest useful tools to gather evidence",
            "Verify tool results and compose the answer",
        )
    }
}

impl Task {
    fn find_active_plan(&self) -> (r: usize)
        ensures
            r == active_plan(self.deep_view()),
            r <= self.plans@.len(),
    {
        match &self.active_plan_id {
            Some(id) => find_plan(&self.plans, id),
            None => self.plans.len(),
        }
    }

    /// Sees to it that the task has a plan, and gives it.
    pub fn ensure_default_plan(&mut self, ids: &PlanIds, at: i64) -> (r: AgentPlan)
        ensures
            final(self).deep_view() == with_plan(old(self).deep_view(), *ids, at),
            ({
                let t = old(self).deep_view();
                r.deep_view() == if active_plan(t) < t.plans.len() {
                    t.plans[active_plan(t)]
                } else {
                    default_plan(t, *ids, at)
                }
            }),
    {
        let ghost first = self.deep_view();
        let i = self.find_active_plan();
        if i < self.plans.len() {
            proof {
                assert(deep(self.plans@)[i as int] == self.plans@[i as int].deep_view());
            }
            return self.plans[i].clone();
        }
        let (one, two, three) = title_texts(&self.agent_kind);
        let mut steps: Vec<AgentPlanStep> = Vec::new();
        steps.push(make_default_step(&ids.first, one));
        steps.push(make_default_step(&ids.second, two));
        steps.push(make_default_step(&ids.third, three));
        let ghost wanted = default_plan(first, *ids, at);
        proof {
            assert(deep(steps@) =~= wanted.steps);
        }
        let plan = AgentPlan {
            id: ids.plan.clone(),
            title: concat2(&self.agent_name, " execution plan"),
            steps,
            created_at: at,
            updated_at: at,
        };
        let shown = plan.clone();
        self.active_plan_id = Some(plan.id.clone());
        self.plans.push(plan);
        self.touch(at);
        shown
    }

    /// Sets the status of a step of the plan. Where there is no such step nothing happens.
    pub fn set_plan_step_status(
        &mut self,
        index: usize,
        status: PlanStepStatus,
        note: Option<String>,
        at: i64,
    )
        ensures
            final(self).deep_view() == with_plan_step(
                old(self).deep_view(),
                index as int,
                status,
                note.deep_view(),
                at,
            ),
    {
        let i = self.find_active_plan();
        if i >= self.plans.len() {
            return;
        }
        let ghost t = self.deep_view();
        proof {
            assert(t.plans[i as int] == self.plans@[i as int].deep_view());
        }
        let mut plan = self.plans[i].clone();
        proof {
            assert(deep(plan.steps@).len() == plan.steps@.len());
        }
        if index >= plan.steps.len() {
            return;
        }
        proof {
            assert(deep(plan.steps@)[index as int] == plan.steps@[index as int].deep_view());
        }
        let notes = match note {
            Some(note) => note,
            None => plan.steps[index].notes.clone(),
        };
        let step = plan.steps[index].marked(status, notes);
        plan.steps.set(index, step);
        plan.updated_at = at;
        self.plans.set(i, plan);
        self.touch(at);
    }
}

// ---- summaries ----

pub open spec fn summary_of(t: TaskModel) -> SummaryModel {
    SummaryModel {
        id: t.id,
        title: t.title,
        workspace: t.workspace,
        status: t.status,
        updated_at: t.updated_at,
        demo_mode: t.demo_mode,
        archived: t.archived,
        error: t.error,
    }
}

/// What a list of tasks shows of a task.
pub fn task_summary(task: &Task) -> (r: TaskSummary)
    ensures
        r.deep_view() == summary_of(task.deep_view()),
{
    TaskSummary {
        id: task.id.clone(),
        title: task.title.clone(),
        workspace: task.workspace.clone(),
        status: task.status,
        updated_at: task.updated_at,
        demo_mode: task.demo_mode,
        archived: task.archived,
        error: copy_option(&task.error),
    }
}

/// The summaries with one more: the later ones first, and behind those of the same time.
pub open spec fn inserted_summary(
    list: Seq<SummaryModel>,
    summary: SummaryModel,
) -> Seq<SummaryModel>
    decreases list.len(),
{
    if list.len() > 0 && list.last().updated_at < summary.updated_at {
        inserted_summary(list.drop_last(), summary).push(list.last())
    } else {
        list.push(summary)
    }
}

/// The summaries of the tasks that are archived, or of those that are not, the latest first.
pub open spec fn summaries_of(tasks: Seq<TaskModel>, archived: bool) -> Seq<SummaryModel>
    decreases tasks.len(),
{
    if tasks.len() == 0 {
        Seq::empty()
    } else {
        let head = summaries_of(tasks.drop_last(), archived);
        if tasks.last().archived == archived {
            inserted_summary(head, summary_of(tasks.last()))
        } else {
            head
        }
    }
}

pub fn insert_summary(list: &mut Vec<TaskSummary>, summary: TaskSummary)
    ensures
        deep(final(list)@) == inserted_summary(deep(old(list)@), summary.deep_view()),
{
    let ghost before = list@;
    let ghost models = deep(before);
    let mut place: usize = list.len();
    proof {
        assert(models.take(place as int) =~= models);
        assert(inserted_summary(models, summary.deep_view()) =~= inserted_summary(
            models.take(place as int),
            summary.deep_view(),
        ) + models.skip(place as int));
    }
    while place > 0 && list[place - 1].updated_at < summary.updated_at
        invariant
            list@ == before,
            models == deep(before),
            place <= list@.len(),
            inserted_summary(models, summary.deep_view()) == inserted_summary(
                models.take(place as int),
                summary.deep_view(),
            ) + models.skip(place as int),
        decreases place,
    {
        proof {
            let head = models.take(place as int);
            assert(head.last() == before[place - 1].deep_view());
            assert(head.drop_last() =~= models.take(place - 1));
            assert(inserted_summary(models.take(place - 1), summary.deep_view()).push(head.last())
                + models.skip(place as int) =~= inserted_summary(
                models.take(place - 1),
                summary.deep_view(),
            ) + models.skip(place - 1));
        }
        place -= 1;
    }
    proof {
        if place > 0 {
            assert(models.take(place as int).last() == before[place - 1].deep_view());
        }
    }
    list.insert(place, summary);
    proof {
        assert(deep(list@) =~= models.take(place as int).push(summary.deep_view())
            + models.skip(place as int));
    }
}

/// The summaries of the tasks that are archived, or of those that are not, the latest first.
pub fn task_summaries(tasks: &Vec<Task>, archived: bool) -> (r: Vec<TaskSummary>)
    ensures
        deep(r@) == summaries_of(deep(tasks@), archived),
{
    let ghost models = deep(tasks@);
    let mut r: Vec<TaskSummary> = Vec::new();
    let mut i: usize = 0;
    proof {
        assert(models.take(0) =~= Seq::<TaskModel>::empty());
        assert(deep(r@) =~= Seq::<SummaryModel>::empty());
    }
    while i < tasks.len()
        invariant
            models == deep(tasks@),
            i <= tasks@.len(),
            deep(r@) == summaries_of(models.take(i as int), archived),
        decreases tasks@.len() - i,
    {
        proof {
            assert(models.take(i + 1).drop_last() =~= models.take(i as int));
            assert(models.take(i + 1).last() == tasks@[i as int].deep_view());
        }
        if tasks[i].archived == archived {
            insert_summary(&mut r, task_summary(&tasks[i]));
        }
        i += 1;
    }
    proof {
        assert(models.take(models.len() as int) =~= models);
    }
    r
}

/// Whether the summaries stand with the latest first.
pub open spec fn latest_first(list: Seq<SummaryModel>) -> bool {
    forall|i: int, j: int|
        0 <= i < j < list.len() ==> (#[trigger] list[i]).updated_at >= (
        #[trigger] list[j]).updated_at
}

proof fn lemma_inserted_latest_first(list: Seq<SummaryModel>, summary: SummaryModel)
    requires
        latest_first(list),
    ensures
        latest_first(inserted_summary(list, summary)),
        inserted_summary(list, summary).len() == list.len() + 1,
        forall|k: int|
            0 <= k < inserted_summary(list, summary).len() ==> {
                let s = #[trigger] inserted_summary(list, summary)[k];
                s == summary || list.contains(s)
            },
    decreases list.len(),
{
    let all = inserted_summary(list, summary);
    if list.len() > 0 && list.last().updated_at < summary.updated_at {
        let head = list.drop_last();
        assert forall|i: int, j: int| 0 <= i < j < head.len() implies (
        #[trigger] head[i]).updated_at >= (#[trigger] head[j]).updated_at by {
            assert(head[i] == list[i] && head[j] == list[j]);
        }
        lemma_inserted_latest_first(head, summary);
        let front = inserted_summary(head, summary);
        assert forall|k: int| 0 <= k < front.len() implies (#[trigger] front[k]).updated_at
            >= list.last().updated_at && (front[k] == summary || list.contains(front[k])) by {
            if front[k] != summary {
                let m = choose|m: int| 0 <= m < head.len() && head[m] == front[k];
                assert(list[m] == front[k]);
                assert(list[m].updated_at >= list[list.len() - 1].updated_at);
            }
        }
        assert forall|i: int, j: int| 0 <= i < j < all.len() implies (
        #[trigger] all[i]).updated_at >= (#[trigger] all[j]).updated_at by {
            if j < front.len() {
                assert(all[i] == front[i] && all[j] == front[j]);
            } else {
                assert(all[i] == front[i]);
            }
        }
        assert forall|k: int| 0 <= k < all.len() implies ({
            let s = #[trigger] all[k];
            s == summary || list.contains(s)
        }) by {
            if k < front.len() {
                assert(all[k] == front[k]);
            } else {
                assert(list[list.len() - 1] == all[k]);
            }
        }
    } else {
        assert forall|i: int, j: int| 0 <= i < j < all.len() implies (
        #[trigger] all[i]).updated_at >= (#[trigger] all[j]).updated_at by {
            if j < list.len() {
                assert(all[i] == list[i] && all[j] == list[j]);
            } else {
                assert(all[i] == list[i]);
                if i < list.len() - 1 {
                    assert(list[i].updated_at >= list[list.len() - 1].updated_at);
                }
            }
        }
        assert forall|k: int| 0 <= k < all.len() implies ({
            let s = #[trigger] all[k];
            s == summary || list.contains(s)
        }) by {
            if k < list.len() {
                assert(list[k] == all[k]);
            }
        }
    }
}

/// A list of tasks shows the latest first, and only those that are archived, or only those that
/// are not.
pub proof fn law_lists_show_the_latest_first(tasks: Seq<TaskModel>, archived: bool)
    ensures
        latest_first(summaries_of(tasks, archived)),
        forall|i: int|
            0 <= i < summaries_of(tasks, archived).len() ==> (#[trigger] summaries_of(
                tasks,
                archived,
            )[i]).archived == archived,
    decreases tasks.len(),
{
    if tasks.len() > 0 {
        law_lists_show_the_latest_first(tasks.drop_last(), archived);
        let head = summaries_of(tasks.drop_last(), archived);
        if tasks.last().archived == archived {
            lemma_inserted_latest_first(head, summary_of(tasks.last()));
            let all = summaries_of(tasks, archived);
            assert forall|i: int| 0 <= i < all.len() implies (#[trigger] all[i]).archived
                == archived by {
                if all[i] != summary_of(tasks.last()) {
                    let m = choose|m: int| 0 <= m < head.len() && head[m] == all[i];
                    assert(head[m].archived == archived);
                }
            }
        }
    }
}

} // verus!
