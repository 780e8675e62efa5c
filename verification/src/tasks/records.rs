//! The records of a task: its messages, steps, tool calls and requests for approval.

use vstd::prelude::*;

use crate::agent::{MessageToolCall, ToolCallModel};
use crate::deep::{copy_all, deep, group_deep};
use crate::json::{group_json, Json, JsonModel};
use crate::models::{AgentMemoryEntry, AttachmentModel, AttachmentRef, EntryModel};
use crate::plan::{AgentPlan, PlanModel};
use crate::text::copy_option;

verus! {

broadcast use {group_deep, group_json};

/// How far a task is.
#[derive(Debug, Clone, Copy, PartialEq, Eq, Structural)]
pub enum AgentStatus {
    Idle,
    Planning,
    Executing,
    Verifying,
    WaitingApproval,
    Completed,
    Failed,
    Cancelled,
}

/// How a status is written.
pub open spec fn status_name(status: AgentStatus) -> Seq<char> {
    match status {
        AgentStatus::Idle => "idle"@,
        AgentStatus::Planning => "planning"@,
        AgentStatus::Executing => "executing"@,
        AgentStatus::Verifying => "verifying"@,
        AgentStatus::WaitingApproval => "waiting_approval"@,
        AgentStatus::Completed => "completed"@,
        AgentStatus::Failed => "failed"@,
        AgentStatus::Cancelled => "cancelled"@,
    }
}

impl AgentStatus {
    /// How the status is written.
    pub fn as_str(self) -> (r: &'static str)
        ensures
            r@ == status_name(self),
    {
        match self {
            AgentStatus::Idle => "idle",
            AgentStatus::Planning => "planning",
            AgentStatus::Executing => "executing",
            AgentStatus::Verifying => "verifying",
            AgentStatus::WaitingApproval => "waiting_approval",
            AgentStatus::Completed => "completed",
            AgentStatus::Failed => "failed",
            AgentStatus::Cancelled => "cancelled",
        }
    }
}

/// What a step of a run is for.
#[derive(Debug, Clone, Copy, PartialEq, Eq, Structural)]
pub enum StepPhase {
    Plan,
    Act,
    Verify,
}

/// How far a step of a run is.
#[derive(Debug, Clone, Copy, PartialEq, Eq, Structural)]
pub enum StepStatus {
    Running,
    Completed,
    Failed,
    Cancelled,
}

/// How far a call of a tool is.
#[derive(Debug, Clone, Copy, PartialEq, Eq, Structural)]
pub enum ToolCallStatus {
    Running,
    Completed,
    Failed,
    Cancelled,
}

/// A part of an answer: thoughts, text or a call of a tool, in the order in which they came. The
/// places are counted in units of UTF-16.
#[derive(Debug, PartialEq, Eq)]
pub enum AssistantPart {
    Reasoning { id: String, start: usize, end: usize },
    Text { id: String, start: usize, end: usize },
    Tool { id: String, index: usize, call_id: String, name: String },
}

pub enum PartModel {
    Reasoning { id: Seq<char>, start: usize, end: usize },
    Text { id: Seq<char>, start: usize, end: usize },
    Tool { id: Seq<char>, index: usize, call_id: Seq<char>, name: Seq<char> },
}

impl DeepView for AssistantPart {
    type V = PartModel;

    open spec fn deep_view(&self) -> PartModel {
        match self {
            AssistantPart::Reasoning { id, start, end } => PartModel::Reasoning {
                id: id@,
                start: *start,
                end: *end,
            },
            AssistantPart::Text { id, start, end } => PartModel::Text {
                id: id@,
                start: *start,
                end: *end,
            },
            AssistantPart::Tool { id, index, call_id, name } => PartModel::Tool {
                id: id@,
                index: *index,
                call_id: call_id@,
                name: name@,
            },
        }
    }
}

impl Clone for AssistantPart {
    fn clone(&self) -> (r: Self)
        ensures
            r.deep_view() == self.deep_view(),
    {
        match self {
            AssistantPart::Reasoning { id, start, end } => AssistantPart::Reasoning {
                id: id.clone(),
                start: *start,
                end: *end,
            },
            AssistantPart::Text { id, start, end } => AssistantPart::Text {
                id: id.clone(),
                start: *start,
                end: *end,
            },
            AssistantPart::Tool { id, index, call_id, name } => AssistantPart::Tool {
                id: id.clone(),
                index: *index,
                call_id: call_id.clone(),
                name: name.clone(),
            },
        }
    }
}

/// A message of a task, as it is shown.
#[derive(Debug, PartialEq, Eq)]
pub struct TaskMessage {
    pub id: String,
    pub task_id: String,
    pub role: String,
    pub content: String,
    pub reasoning: String,
    pub reasoning_opaque: Option<String>,
    pub created_at: i64,
    pub streaming: bool,
    pub parts: Vec<AssistantPart>,
    pub tool_calls: Vec<MessageToolCall>,
    pub tool_call_id: Option<String>,
    pub name: Option<String>,
    pub base64_image: Option<String>,
    pub attachments: Vec<AttachmentRef>,
}

pub struct TaskMessageModel {
    pub id: Seq<char>,
    pub task_id: Seq<char>,
    pub role: Seq<char>,
    pub content: Seq<char>,
    pub reasoning: Seq<char>,
    pub reasoning_opaque: Option<Seq<char>>,
    pub created_at: i64,
    pub streaming: bool,
    pub parts: Seq<PartModel>,
    pub tool_calls: Seq<ToolCallModel>,
    pub tool_call_id: Option<Seq<char>>,
    pub name: Option<Seq<char>>,
    pub base64_image: Option<Seq<char>>,
    pub attachments: Seq<AttachmentModel>,
}

impl DeepView for TaskMessage {
    type V = TaskMessageModel;

    open spec fn deep_view(&self) -> TaskMessageModel {
        TaskMessageModel {
            id: self.id@,
            task_id: self.task_id@,
            role: self.role@,
            content: self.content@,
            reasoning: self.reasoning@,
            reasoning_opaque: self.reasoning_opaque.deep_view(),
            created_at: self.created_at,
            streaming: self.streaming,
            parts: deep(self.parts@),
            tool_calls: deep(self.tool_calls@),
            tool_call_id: self.tool_call_id.deep_view(),
            name: self.name.deep_view(),
            base64_image: self.base64_image.deep_view(),
            attachments: deep(self.attachments@),
        }
    }
}

impl Clone for TaskMessage {
    fn clone(&self) -> (r: Self)
        ensures
            r.deep_view() == self.deep_view(),
    {
        TaskMessage {
            id: self.id.clone(),
            task_id: self.task_id.clone(),
            role: self.role.clone(),
            content: self.content.clone(),
            reasoning: self.reasoning.clone(),
            reasoning_opaque: copy_option(&self.reasoning_opaque),
            created_at: self.created_at,
            streaming: self.streaming,
            parts: copy_all(&self.parts),
            tool_calls: copy_all(&self.tool_calls),
            tool_call_id: copy_option(&self.tool_call_id),
            name: copy_option(&self.name),
            base64_image: copy_option(&self.base64_image),
            attachments: copy_all(&self.attachments),
        }
    }
}

/// A step of a run.
#[derive(Debug, PartialEq, Eq)]
pub struct AgentStep {
    pub id: String,
    pub task_id: String,
    pub phase: StepPhase,
    pub title: String,
    pub detail: Option<String>,
    pub status: StepStatus,
    pub started_at: i64,
    pub ended_at: Option<i64>,
    pub duration_ms: Option<u64>,
}

pub struct RunStepModel {
    pub id: Seq<char>,
    pub task_id: Seq<char>,
    pub phase: StepPhase,
    pub title: Seq<char>,
    pub detail: Option<Seq<char>>,
    pub status: StepStatus,
    pub started_at: i64,
    pub ended_at: Option<i64>,
    pub duration_ms: Option<u64>,
}

impl DeepView for AgentStep {
    type V = RunStepModel;

    open spec fn deep_view(&self) -> RunStepModel {
        RunStepModel {
            id: self.id@,
            task_id: self.task_id@,
            phase: self.phase,
            title: self.title@,
            detail: self.detail.deep_view(),
            status: self.status,
            started_at: self.started_at,
            ended_at: self.ended_at,
            duration_ms: self.duration_ms,
        }
    }
}

impl Clone for AgentStep {
    fn clone(&self) -> (r: Self)
        ensures
            r.deep_view() == self.deep_view(),
    {
        AgentStep {
            id: self.id.clone(),
            task_id: self.task_id.clone(),
            phase: self.phase,
            title: self.title.clone(),
            detail: copy_option(&self.detail),
            status: self.status,
            started_at: self.started_at,
            ended_at: self.ended_at,
            duration_ms: self.duration_ms,
        }
    }
}

/// A call of a tool.
#[derive(Debug, PartialEq, Eq)]
pub struct ToolCall {
    pub id: String,
    pub task_id: String,
    pub name: String,
    pub arguments: Json,
    pub model_tool_call_id: Option<String>,
    pub status: ToolCallStatus,
    pub started_at: i64,
    pub ended_at: Option<i64>,
    pub duration_ms: Option<u64>,
    pub result: Option<String>,
    pub error: Option<String>,
}

pub struct CallModel {
    pub id: Seq<char>,
    pub task_id: Seq<char>,
    pub name: Seq<char>,
    pub arguments: JsonModel,
    pub model_tool_call_id: Option<Seq<char>>,
    pub status: ToolCallStatus,
    pub started_at: i64,
    pub ended_at: Option<i64>,
    pub duration_ms: Option<u64>,
    pub result: Option<Seq<char>>,
    pub error: Option<Seq<char>>,
}

impl DeepView for ToolCall {
    type V = CallModel;

    open spec fn deep_view(&self) -> CallModel {
        CallModel {
            id: self.id@,
            task_id: self.task_id@,
            name: self.name@,
            arguments: self.arguments.deep_view(),
            model_tool_call_id: self.model_tool_call_id.deep_view(),
            status: self.status,
            started_at: self.started_at,
            ended_at: self.ended_at,
            duration_ms: self.duration_ms,
            result: self.result.deep_view(),
            error: self.error.deep_view(),
        }
    }
}

impl Clone for ToolCall {
    fn clone(&self) -> (r: Self)
        ensures
            r.deep_view() == self.deep_view(),
    {
        ToolCall {
            id: self.id.clone(),
            task_id: self.task_id.clone(),
            name: self.name.clone(),
            arguments: self.arguments.clone(),
            model_tool_call_id: copy_option(&self.model_tool_call_id),
            status: self.status,
            started_at: self.started_at,
            ended_at: self.ended_at,
            duration_ms: self.duration_ms,
            result: copy_option(&self.result),
            error: copy_option(&self.error),
        }
    }
}

/// What a call of a tool came to.
#[derive(Debug, PartialEq, Eq)]
pub struct ToolResult {
    pub id: String,
    pub task_id: String,
    pub tool_call_id: String,
    pub status: ToolCallStatus,
    pub output: Option<String>,
    pub error: Option<String>,
    pub duration_ms: Option<u64>,
}

pub struct ResultModel {
    pub id: Seq<char>,
    pub task_id: Seq<char>,
    pub tool_call_id: Seq<char>,
    pub status: ToolCallStatus,
    pub output: Option<Seq<char>>,
    pub error: Option<Seq<char>>,
    pub duration_ms: Option<u64>,
}

impl DeepView for ToolResult {
    type V = ResultModel;

    open spec fn deep_view(&self) -> ResultModel {
        ResultModel {
            id: self.id@,
            task_id: self.task_id@,
            tool_call_id: self.tool_call_id@,
            status: self.status,
            output: self.output.deep_view(),
            error: self.error.deep_view(),
            duration_ms: self.duration_ms,
        }
    }
}

impl Clone for ToolResult {
    fn clone(&self) -> (r: Self)
        ensures
            r.deep_view() == self.deep_view(),
    {
        ToolResult {
            id: self.id.clone(),
            task_id: self.task_id.clone(),
            tool_call_id: self.tool_call_id.clone(),
            status: self.status,
            output: copy_option(&self.output),
            error: copy_option(&self.error),
            duration_ms: self.duration_ms,
        }
    }
}

/// A question to the user whether a tool may run.
#[derive(Debug, PartialEq, Eq)]
pub struct ApprovalRequest {
    pub id: String,
    pub task_id: String,
    pub tool_name: String,
    pub reason: String,
    pub details: String,
    pub created_at: i64,
    pub status: String,
    pub rememberable: bool,
    pub remember_action: Option<String>,
    pub remember_pattern: Option<String>,
}

pub struct ApprovalModel {
    pub id: Seq<char>,
    pub task_id: Seq<char>,
    pub tool_name: Seq<char>,
    pub reason: Seq<char>,
    pub details: Seq<char>,
    pub created_at: i64,
    pub status: Seq<char>,
    pub rememberable: bool,
    pub remember_action: Option<Seq<char>>,
    pub remember_pattern: Option<Seq<char>>,
}

impl DeepView for ApprovalRequest {
    type V = ApprovalModel;

    open spec fn deep_view(&self) -> ApprovalModel {
        ApprovalModel {
            id: self.id@,
            task_id: self.task_id@,
            tool_name: self.tool_name@,
            reason: self.reason@,
            details: self.details@,
            created_at: self.created_at,
            status: self.status@,
            rememberable: self.rememberable,
            remember_action: self.remember_action.deep_view(),
            remember_pattern: self.remember_pattern.deep_view(),
        }
    }
}

impl Clone for ApprovalRequest {
    fn clone(&self) -> (r: Self)
        ensures
            r.deep_view() == self.deep_view(),
    {
        ApprovalRequest {
            id: self.id.clone(),
            task_id: self.task_id.clone(),
            tool_name: self.tool_name.clone(),
            reason: self.reason.clone(),
            details: self.details.clone(),
            created_at: self.created_at,
            status: self.status.clone(),
            rememberable: self.rememberable,
            remember_action: copy_option(&self.remember_action),
            remember_pattern: copy_option(&self.remember_pattern),
        }
    }
}

/// A task: what was asked, and all that came of it.
#[derive(Debug, PartialEq, Eq)]
pub struct Task {
    pub id: String,
    pub title: String,
    pub prompt: String,
    pub workspace: String,
    pub status: AgentStatus,
    pub created_at: i64,
    pub updated_at: i64,
    pub demo_mode: bool,
    pub archived: bool,
    pub agent_name: String,
    pub agent_kind: String,
    pub messages: Vec<TaskMessage>,
    pub memory: Vec<AgentMemoryEntry>,
    pub plans: Vec<AgentPlan>,
    pub active_plan_id: Option<String>,
    pub steps: Vec<AgentStep>,
    pub tool_calls: Vec<ToolCall>,
    pub approval_requests: Vec<ApprovalRequest>,
    pub final_answer: Option<String>,
    pub error: Option<String>,
    pub event_seq: i64,
    pub persistence_revision: u64,
}

pub struct TaskModel {
    pub id: Seq<char>,
    pub title: Seq<char>,
    pub prompt: Seq<char>,
    pub workspace: Seq<char>,
    pub status: AgentStatus,
    pub created_at: i64,
    pub updated_at: i64,
    pub demo_mode: bool,
    pub archived: bool,
    pub agent_name: Seq<char>,
    pub agent_kind: Seq<char>,
    pub messages: Seq<TaskMessageModel>,
    pub memory: Seq<EntryModel>,
    pub plans: Seq<PlanModel>,
    pub active_plan_id: Option<Seq<char>>,
    pub steps: Seq<RunStepModel>,
    pub tool_calls: Seq<CallModel>,
    pub approval_requests: Seq<ApprovalModel>,
    pub final_answer: Option<Seq<char>>,
    pub error: Option<Seq<char>>,
    pub event_seq: i64,
    pub persistence_revision: u64,
}

impl DeepView for Task {
    type V = TaskModel;

    open spec fn deep_view(&self) -> TaskModel {
        TaskModel {
            id: self.id@,
            title: self.title@,
            prompt: self.prompt@,
            workspace: self.workspace@,
            status: self.status,
            created_at: self.created_at,
            updated_at: self.updated_at,
            demo_mode: self.demo_mode,
            archived: self.archived,
            agent_name: self.agent_name@,
            agent_kind: self.agent_kind@,
            messages: deep(self.messages@),
            memory: deep(self.memory@),
            plans: deep(self.plans@),
            active_plan_id: self.active_plan_id.deep_view(),
            steps: deep(self.steps@),
            tool_calls: deep(self.tool_calls@),
            approval_requests: deep(self.approval_requests@),
            final_answer: self.final_answer.deep_view(),
            error: self.error.deep_view(),
            event_seq: self.event_seq,
            persistence_revision: self.persistence_revision,
        }
    }
}

impl Clone for Task {
    fn clone(&self) -> (r: Self)
        ensures
            r.deep_view() == self.deep_view(),
    {
        Task {
            id: self.id.clone(),
            title: self.title.clone(),
            prompt: self.prompt.clone(),
            workspace: self.workspace.clone(),
            status: self.status,
            created_at: self.created_at,
            updated_at: self.updated_at,
            demo_mode: self.demo_mode,
            archived: self.archived,
            agent_name: self.agent_name.clone(),
            agent_kind: self.agent_kind.clone(),
            messages: copy_all(&self.messages),
            memory: copy_all(&self.memory),
            plans: copy_all(&self.plans),
            active_plan_id: copy_option(&self.active_plan_id),
            steps: copy_all(&self.steps),
            tool_calls: copy_all(&self.tool_calls),
            approval_requests: copy_all(&self.approval_requests),
            final_answer: copy_option(&self.final_answer),
            error: copy_option(&self.error),
            event_seq: self.event_seq,
            persistence_revision: self.persistence_revision,
        }
    }
}

/// What a list of tasks shows of a task.
#[derive(Debug, PartialEq, Eq)]
pub struct TaskSummary {
    pub id: String,
    pub title: String,
    pub workspace: String,
    pub status: AgentStatus,
    pub updated_at: i64,
    pub demo_mode: bool,
    pub archived: bool,
    pub error: Option<String>,
}

pub struct SummaryModel {
    pub id: Seq<char>,
    pub title: Seq<char>,
    pub workspace: Seq<char>,
    pub status: AgentStatus,
    pub updated_at: i64,
    pub demo_mode: bool,
    pub archived: bool,
    pub error: Option<Seq<char>>,
}

impl DeepView for TaskSummary {
    type V = SummaryModel;

    open spec fn deep_view(&self) -> SummaryModel {
        SummaryModel {
            id: self.id@,
            title: self.title@,
            workspace: self.workspace@,
            status: self.status,
            updated_at: self.updated_at,
            demo_mode: self.demo_mode,
            archived: self.archived,
            error: self.error.deep_view(),
        }
    }
}

impl Clone for TaskSummary {
    fn clone(&self) -> (r: Self)
        ensures
            r.deep_view() == self.deep_view(),
    {
        TaskSummary {
            id: self.id.clone(),
            title: self.title.clone(),
            workspace: self.workspace.clone(),
            status: self.status,
            updated_at: self.updated_at,
            demo_mode: self.demo_mode,
            archived: self.archived,
            error: copy_option(&self.error),
        }
    }
}

} // verus!
