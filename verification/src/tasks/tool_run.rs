//! A call of a tool from its beginning to its result.
//!
//! Tools run outside the library, and so does the question to the user. What is recorded before
//! and behind them, and what the run goes on with, is decided here.

use vstd::prelude::*;

use crate::agent::{calls_json, calls_to_json, MessageToolCall};
use crate::agents::is_own_tool;
use crate::coding::limits::truncate_output;
use crate::deep::{copy_all, deep, group_deep, one};
use crate::json::{group_json, Json, JsonModel};
use crate::json_text::compact_json;
use crate::models::{AgentMemoryEntry, EntryModel};
use crate::number::{decimal, number_text};
use crate::tasks::prompt::{task_arguments, with_task_workspace};
use crate::tasks::records::{
    AgentStatus, ApprovalModel, ApprovalRequest, ResultModel, Task, TaskMessage, TaskModel,
    ToolCallStatus, ToolResult,
};
use crate::tasks::task::{
    call_place, duration, lemma_position, running_call, tool_task_message, with_approval,
    with_approval_status, with_ended_call, with_memory, with_message, with_new_call, with_status,
};
use crate::text::{
    blank, concat2, concat3, concat4, copy_option, is_blank, same, starts_with,
};
use crate::tools::websearch::shown;

verus! {

broadcast use {group_deep, group_json};

/// Why a run ends before its answer.
#[derive(Debug, PartialEq, Eq)]
pub enum AgentError {
    Cancelled,
    Message(String),
}

pub enum ErrorModel {
    Cancelled,
    Message(Seq<char>),
}

impl DeepView for AgentError {
    type V = ErrorModel;

    open spec fn deep_view(&self) -> ErrorModel {
        match self {
            AgentError::Cancelled => ErrorModel::Cancelled,
            AgentError::Message(message) => ErrorModel::Message(message@),
        }
    }
}

/// A tool that is to be called.
#[derive(Debug, PartialEq, Eq)]
pub struct ToolInvocation {
    pub model_tool_call_id: Option<String>,
    pub name: String,
    pub arguments: Json,
}

/// How a call of a tool came out.
#[derive(Debug, PartialEq, Eq)]
pub enum ToolOutcome {
    /// The run was cancelled while the user was asked.
    ApprovalCancelled,
    /// The user could not be asked.
    ApprovalFailed(String),
    /// The user said no.
    Declined,
    /// The user did not answer in time.
    Expired,
    /// The tool ran.
    Done(String),
    /// The run was cancelled while the tool ran.
    Cancelled,
    /// The tool failed.
    Failed(String),
}

/// The status of a call that came out so.
pub open spec fn outcome_status(outcome: ToolOutcome) -> ToolCallStatus {
    match outcome {
        ToolOutcome::Done(_) => ToolCallStatus::Completed,
        ToolOutcome::ApprovalCancelled | ToolOutcome::Cancelled => ToolCallStatus::Cancelled,
        _ => ToolCallStatus::Failed,
    }
}

/// What the tool put out.
pub open spec fn outcome_output(outcome: ToolOutcome) -> Option<Seq<char>> {
    match outcome {
        ToolOutcome::Done(output) => Some(output@),
        _ => None,
    }
}

/// What went wrong.
pub open spec fn outcome_error(outcome: ToolOutcome) -> Option<Seq<char>> {
    match outcome {
        ToolOutcome::ApprovalCancelled => Some(
            "Tool execution cancelled while waiting for approval."@,
        ),
        ToolOutcome::ApprovalFailed(message) => Some("Approval failed: "@ + message@),
        ToolOutcome::Declined => Some("Operation was declined by the user."@),
        ToolOutcome::Expired => Some("Approval request expired."@),
        ToolOutcome::Done(_) => None,
        ToolOutcome::Cancelled => Some("Tool execution cancelled."@),
        ToolOutcome::Failed(error) => Some(error@),
    }
}

/// What the user sees of the call.
pub open spec fn outcome_message(name: Seq<char>, outcome: ToolOutcome) -> Seq<char> {
    match outcome {
        ToolOutcome::Declined => name + ": operation declined"@,
        ToolOutcome::Expired => name + ": approval expired"@,
        ToolOutcome::Done(output) => name + " completed:\n"@ + shown(output@),
        ToolOutcome::Cancelled => name + " cancelled."@,
        _ => name + " failed:\n"@ + outcome_error(outcome)->0,
    }
}

/// What the agent remembers of the call.
pub open spec fn outcome_memory(outcome: ToolOutcome) -> Seq<char> {
    match outcome {
        ToolOutcome::Done(output) => shown(output@),
        _ => outcome_error(outcome)->0,
    }
}

/// Why the run ends with the call, if it does.
pub open spec fn outcome_end(outcome: ToolOutcome) -> Option<ErrorModel> {
    match outcome {
        ToolOutcome::ApprovalCancelled | ToolOutcome::Cancelled => Some(ErrorModel::Cancelled),
        ToolOutcome::ApprovalFailed(message) => Some(ErrorModel::Message(message@)),
        _ => None,
    }
}

/// The result of a tool as the agent remembers it.
pub open spec fn result_entry(
    id: Seq<char>,
    name: Seq<char>,
    call_id: Seq<char>,
    content: Seq<char>,
    at: i64,
) -> EntryModel {
    EntryModel {
        id,
        role: "tool"@,
        content,
        reasoning: Seq::empty(),
        reasoning_opaque: None,
        created_at: at,
        tool_call_id: Some(call_id),
        tool_names: seq![name],
        tool_calls: Seq::empty(),
        name: None,
        base64_image: None,
        attachments: Seq::empty(),
    }
}

/// The identifiers that a call needs.
#[derive(Debug, PartialEq, Eq)]
pub struct CallIds {
    pub call: String,
    pub result: String,
    pub message: String,
    pub memory: String,
}

/// The identifier under which the model asked for the call. The agent remembers it, and not the
/// one that the call has here.
pub open spec fn model_call_id(model: Option<Seq<char>>, call_id: Seq<char>) -> Seq<char> {
    match model {
        Some(id) if !is_blank(id) => id,
        _ => call_id,
    }
}

/// The identifier under which the model asked for the call.
pub fn memory_call_id(invocation: &ToolInvocation, ids: &CallIds) -> (r: String)
    ensures
        r@ == model_call_id(invocation.model_tool_call_id.deep_view(), ids.call@),
{
    match &invocation.model_tool_call_id {
        Some(id) => if blank(id) {
            ids.call.clone()
        } else {
            id.clone()
        },
        None => ids.call.clone(),
    }
}

/// The task when the call has begun.
pub open spec fn begun_call(
    t: TaskModel,
    invocation: ToolInvocation,
    ids: CallIds,
    at: i64,
) -> TaskModel {
    with_new_call(
        t,
        running_call(
            ids.call@,
            t.id,
            invocation.name@,
            invocation.arguments.deep_view(),
            invocation.model_tool_call_id.deep_view(),
            at,
        ),
        at,
    )
}

/// The task when the call has come out.
pub open spec fn concluded_call(
    t: TaskModel,
    invocation: ToolInvocation,
    ids: CallIds,
    outcome: ToolOutcome,
    at: i64,
) -> TaskModel {
    let name = invocation.name@;
    let call_id = model_call_id(invocation.model_tool_call_id.deep_view(), ids.call@);
    let ended = with_ended_call(
        t,
        ids.call@,
        outcome_status(outcome),
        outcome_output(outcome),
        outcome_error(outcome),
        at,
    );
    let told = with_message(
        ended,
        tool_task_message(
            ids.message@,
            t.id,
            name,
            call_id,
            outcome_message(name, outcome),
            at,
        ),
        at,
    );
    with_memory(
        told,
        result_entry(ids.memory@, name, call_id, outcome_memory(outcome), at),
        at,
    )
}

fn error_text(outcome: &ToolOutcome) -> (r: Option<String>)
    ensures
        r.deep_view() == outcome_error(*outcome),
{
    match outcome {
        ToolOutcome::ApprovalCancelled => Some(
            "Tool execution cancelled while waiting for approval.".to_owned(),
        ),
        ToolOutcome::ApprovalFailed(message) => Some(concat2("Approval failed: ", message)),
        ToolOutcome::Declined => Some("Operation was declined by the user.".to_owned()),
        ToolOutcome::Expired => Some("Approval request expired.".to_owned()),
        ToolOutcome::Done(_) => None,
        ToolOutcome::Cancelled => Some("Tool execution cancelled.".to_owned()),
        ToolOutcome::Failed(error) => Some(error.clone()),
    }
}

fn error_or_empty(outcome: &ToolOutcome) -> (r: String)
    ensures
        outcome_error(*outcome) is Some ==> r@ == outcome_error(*outcome)->0,
{
    match error_text(outcome) {
        Some(error) => error,
        None => String::new(),
    }
}

fn message_text(name: &str, outcome: &ToolOutcome) -> (r: String)
    ensures
        r@ == outcome_message(name@, *outcome),
{
    match outcome {
        ToolOutcome::Declined => concat2(name, ": operation declined"),
        ToolOutcome::Expired => concat2(name, ": approval expired"),
        ToolOutcome::Done(output) => concat3(name, " completed:\n", &truncate_output(output)),
        ToolOutcome::Cancelled => concat2(name, " cancelled."),
        _ => concat3(name, " failed:\n", &error_or_empty(outcome)),
    }
}

fn memory_text(outcome: &ToolOutcome) -> (r: String)
    ensures
        r@ == outcome_memory(*outcome),
{
    match outcome {
        ToolOutcome::Done(output) => truncate_output(output),
        _ => error_or_empty(outcome),
    }
}

fn status_of(outcome: &ToolOutcome) -> (r: ToolCallStatus)
    ensures
        r == outcome_status(*outcome),
{
    match outcome {
        ToolOutcome::Done(_) => ToolCallStatus::Completed,
        ToolOutcome::ApprovalCancelled | ToolOutcome::Cancelled => ToolCallStatus::Cancelled,
        _ => ToolCallStatus::Failed,
    }
}

/// The result of a tool as the agent remembers it.
pub fn make_result_entry(id: String, name: &str, call_id: &str, content: String, at: i64) -> (r:
    AgentMemoryEntry)
    ensures
        r.deep_view() == result_entry(id@, name@, call_id@, content@, at),
{
    let mut entry = AgentMemoryEntry::plain(id, "tool", content, at);
    entry.tool_call_id = Some(call_id.to_owned());
    entry.tool_names = one(name.to_owned());
    entry
}

impl Task {
    /// Records that a call begins. The tool gets its arguments with the directory of the task and
    /// the files that it may read.
    pub fn begin_tool(
        &mut self,
        invocation: &ToolInvocation,
        ids: &CallIds,
        read_paths: &Vec<String>,
        at: i64,
    ) -> (r: Json)
        ensures
            final(self).deep_view() == begun_call(old(self).deep_view(), *invocation, *ids, at),
            r.deep_view() == task_arguments(
                invocation.arguments.deep_view(),
                old(self).workspace@,
                deep(read_paths@),
            ),
    {
        let arguments = with_task_workspace(&invocation.arguments, &self.workspace, read_paths);
        self.add_tool_call(
            ids.call.clone(),
            &invocation.name,
            invocation.arguments.clone(),
            copy_option(&invocation.model_tool_call_id),
            at,
        );
        arguments
    }

    /// Records how a call came out: in the call itself, in a message to the user, and in what the
    /// agent remembers. Gives the result, or why the run ends.
    pub fn conclude_tool(
        &mut self,
        invocation: &ToolInvocation,
        ids: &CallIds,
        outcome: &ToolOutcome,
        at: i64,
    ) -> (r: Result<ToolResult, AgentError>)
        ensures
            ({
                let t = old(self).deep_view();
                let i = call_place(t.tool_calls, ids.call@);
                if i >= t.tool_calls.len() {
                    &&& final(self).deep_view() == t
                    &&& r is Err
                    &&& r->Err_0.deep_view() == ErrorModel::Message("Tool call not found"@)
                } else {
                    &&& final(self).deep_view() == concluded_call(
                        t,
                        *invocation,
                        *ids,
                        *outcome,
                        at,
                    )
                    &&& match outcome_end(*outcome) {
                        Some(error) => r is Err && r->Err_0.deep_view() == error,
                        None => r is Ok && r->Ok_0.deep_view() == (ResultModel {
                            id: ids.result@,
                            task_id: t.id,
                            tool_call_id: ids.call@,
                            status: outcome_status(*outcome),
                            output: outcome_output(*outcome),
                            error: outcome_error(*outcome),
                            duration_ms: Some(duration(t.tool_calls[i].started_at, at)),
                        }),
                    }
                }
            }),
    {
        let output = match outcome {
            ToolOutcome::Done(output) => Some(output.clone()),
            _ => None,
        };
        let result = match self.finish_tool_call(
            ids.result.clone(),
            &ids.call,
            status_of(outcome),
            output,
            error_text(outcome),
            at,
        ) {
            Ok(result) => result,
            Err(error) => {
                return Err(AgentError::Message(error));
            },
        };
        let call_id = memory_call_id(invocation, ids);
        let message = TaskMessage::tool_result(
            ids.message.clone(),
            &self.id,
            &invocation.name,
            &call_id,
            message_text(&invocation.name, outcome),
            at,
        );
        self.add_message(message, at);
        let entry = make_result_entry(
            ids.memory.clone(),
            &invocation.name,
            &call_id,
            memory_text(outcome),
            at,
        );
        self.record_memory(entry, at);
        match outcome {
            ToolOutcome::ApprovalCancelled | ToolOutcome::Cancelled => Err(AgentError::Cancelled),
            ToolOutcome::ApprovalFailed(message) => Err(AgentError::Message(message.clone())),
            _ => Ok(result),
        }
    }
}

// ---- approval ----

/// How the user answered.
#[derive(Debug, Clone, Copy, PartialEq, Eq, Structural)]
pub enum ApprovalOutcome {
    Approved,
    Rejected,
    Expired,
}

pub open spec fn approval_text(outcome: ApprovalOutcome) -> Seq<char> {
    match outcome {
        ApprovalOutcome::Approved => "approved"@,
        ApprovalOutcome::Rejected => "rejected"@,
        ApprovalOutcome::Expired => "expired"@,
    }
}

/// The answer: nothing came in time, or who was asked went away, or a yes or a no.
pub fn approval_outcome(in_time: bool, answer: Option<bool>) -> (r: ApprovalOutcome)
    ensures
        r == if !in_time {
            ApprovalOutcome::Expired
        } else if answer == Some(true) {
            ApprovalOutcome::Approved
        } else {
            ApprovalOutcome::Rejected
        },
{
    if !in_time {
        return ApprovalOutcome::Expired;
    }
    match answer {
        Some(approved) => if approved {
            ApprovalOutcome::Approved
        } else {
            ApprovalOutcome::Rejected
        },
        None => ApprovalOutcome::Rejected,
    }
}

/// How the call goes on when the user has answered: it runs, or it has come out.
pub fn after_approval(outcome: ApprovalOutcome) -> (r: Option<ToolOutcome>)
    ensures
        r == match outcome {
            ApprovalOutcome::Approved => None::<ToolOutcome>,
            ApprovalOutcome::Rejected => Some(ToolOutcome::Declined),
            ApprovalOutcome::Expired => Some(ToolOutcome::Expired),
        },
{
    match outcome {
        ApprovalOutcome::Approved => None,
        ApprovalOutcome::Rejected => Some(ToolOutcome::Declined),
        ApprovalOutcome::Expired => Some(ToolOutcome::Expired),
    }
}

/// Whether a tool may leave the directory: it wants to, and the user was asked, or need not be.
pub fn external_path_approved(requested: bool, asked: bool, outcome: ApprovalOutcome) -> (r: bool)
    ensures
        r == (requested && (!asked || outcome == ApprovalOutcome::Approved)),
{
    match outcome {
        ApprovalOutcome::Approved => requested,
        _ => requested && !asked,
    }
}

/// A question to the user.
pub open spec fn pending_request(
    id: Seq<char>,
    task_id: Seq<char>,
    tool_name: Seq<char>,
    reason: Seq<char>,
    details: Seq<char>,
    rule: Option<(Seq<char>, Seq<char>)>,
    at: i64,
) -> ApprovalModel {
    ApprovalModel {
        id,
        task_id,
        tool_name,
        reason,
        details,
        created_at: at,
        status: "pending"@,
        rememberable: rule is Some,
        remember_action: match rule {
            Some((action, _)) => Some(action),
            None => None,
        },
        remember_pattern: match rule {
            Some((_, pattern)) => Some(pattern),
            None => None,
        },
    }
}

impl Task {
    /// Asks the user whether a tool may run. `rule` is what can be remembered of the answer: the
    /// action, and what it is done to.
    pub fn ask_approval(
        &mut self,
        approval_id: String,
        tool_name: &str,
        reason: String,
        details: String,
        rule: Option<(String, String)>,
        at: i64,
    )
        ensures
            final(self).deep_view() == with_approval(
                with_status(
                    old(self).deep_view(),
                    AgentStatus::WaitingApproval,
                    None,
                    at,
                ),
                pending_request(
                    approval_id@,
                    old(self).id@,
                    tool_name@,
                    reason@,
                    details@,
                    rule.deep_view(),
                    at,
                ),
                at,
            ),
    {
        self.set_status(AgentStatus::WaitingApproval, None, at);
        let (action, pattern) = match rule {
            Some((action, pattern)) => (Some(action), Some(pattern)),
            None => (None, None),
        };
        let request = ApprovalRequest {
            id: approval_id,
            task_id: self.id.clone(),
            tool_name: tool_name.to_owned(),
            reason,
            details,
            created_at: at,
            status: "pending".to_owned(),
            rememberable: action.is_some(),
            remember_action: action,
            remember_pattern: pattern,
        };
        self.add_approval_request(request, at);
    }

    /// Records the answer of the user, and goes on.
    pub fn answer_approval(&mut self, approval_id: &str, outcome: ApprovalOutcome, at: i64)
        ensures
            final(self).deep_view() == with_status(
                with_approval_status(
                    old(self).deep_view(),
                    approval_id@,
                    approval_text(outcome),
                    at,
                ),
                AgentStatus::Executing,
                None,
                at,
            ),
    {
        let status = match outcome {
            ApprovalOutcome::Approved => "approved",
            ApprovalOutcome::Rejected => "rejected",
            ApprovalOutcome::Expired => "expired",
        };
        self.update_approval_status(approval_id, status, at);
        self.set_status(AgentStatus::Executing, None, at);
    }
}

// ---- running ----

/// How long a tool may run: from 5 to 120 seconds.
pub open spec fn tool_seconds(timeout_secs: u64) -> u64 {
    if timeout_secs < 5 {
        5
    } else if timeout_secs > 120 {
        120
    } else {
        timeout_secs
    }
}

/// How long a tool may run.
pub fn tool_timeout(timeout_secs: u64) -> (r: u64)
    ensures
        r == tool_seconds(timeout_secs),
{
    if timeout_secs < 5 {
        5
    } else if timeout_secs > 120 {
        120
    } else {
        timeout_secs
    }
}

/// Whether a tool can be run: its name has the prefix.
pub fn check_tool_name(name: &str) -> (r: Result<(), String>)
    ensures
        r is Ok <==> is_own_tool(name@),
        r is Err ==> r->Err_0@ == "Tool names must use the rust_ prefix."@,
{
    if starts_with(name, "rust_") {
        Ok(())
    } else {
        Err("Tool names must use the rust_ prefix.".to_owned())
    }
}

/// How a tool that was run came out: it was cancelled, it took too long, it failed, or it is done.
/// `result` is nothing where it took too long.
pub fn run_outcome(
    name: &str,
    cancelled: bool,
    result: Option<Result<String, String>>,
    timeout_secs: u64,
) -> (r: ToolOutcome)
    ensures
        cancelled ==> r == ToolOutcome::Cancelled,
        !cancelled ==> match result {
            Some(Ok(output)) => r == ToolOutcome::Done(output),
            Some(Err(error)) => r == ToolOutcome::Failed(error),
            None => r is Failed && r->Failed_0@ == name@ + " timed out after "@ + decimal(
                tool_seconds(timeout_secs) as nat,
            ) + "s"@,
        },
{
    if cancelled {
        return ToolOutcome::Cancelled;
    }
    match result {
        Some(Ok(output)) => ToolOutcome::Done(output),
        Some(Err(error)) => ToolOutcome::Failed(error),
        None => ToolOutcome::Failed(
            concat4(
                name,
                " timed out after ",
                &number_text(tool_timeout(timeout_secs)),
                "s",
            ),
        ),
    }
}

/// Whether a tool keeps a shell that is to be ended when the tool is stopped.
pub fn keeps_a_shell(name: &str) -> (r: bool)
    ensures
        r == (name@ == "rust_bash"@ || name@ == "rust_sandbox_shell"@),
{
    same(name, "rust_bash") || same(name, "rust_sandbox_shell")
}

/// The arguments as the rules on tools see them: those of a shell with the directory in which it
/// really stands.
pub open spec fn judged_arguments(
    name: Seq<char>,
    arguments: JsonModel,
    cwd: Option<Seq<char>>,
) -> JsonModel {
    match cwd {
        Some(cwd) if name == "rust_bash"@ || name == "rust_sandbox_shell"@ => arguments.with(
            "cwd"@,
            JsonModel::Str(cwd),
        ),
        _ => arguments,
    }
}

/// The arguments as the rules on tools see them.
pub fn policy_arguments(name: &str, arguments: &Json, cwd: &Option<String>) -> (r: Json)
    ensures
        r.deep_view() == judged_arguments(name@, arguments.deep_view(), cwd.deep_view()),
{
    let mut r = arguments.clone();
    if keeps_a_shell(name) {
        if let Some(cwd) = cwd {
            r.set("cwd", Json::string(cwd));
        }
    }
    r
}

// ---- asking a model ----

/// What a call of the tool that asks a model asks for: the messages, and the form of the answer.
pub fn completion_request(arguments: &Json) -> (r: Result<(Vec<Json>, Option<Json>), String>)
    ensures
        match arguments.deep_view().items("messages"@) {
            Some(messages) => {
                &&& r is Ok
                &&& deep(r->Ok_0.0@) == messages
                &&& r->Ok_0.1.deep_view() == arguments.deep_view().get("response_format"@)
            },
            None => r is Err && r->Err_0@
                == "messages is required for rust_create_chat_completion"@,
        },
{
    match arguments.items("messages") {
        Some(messages) => {
            let format = match arguments.get("response_format") {
                Some(format) => Some(format.clone()),
                None => None,
            };
            Ok((copy_all(messages), format))
        },
        None => Err("messages is required for rust_create_chat_completion".to_owned()),
    }
}

/// What the tool that asks a model gives back: the answer, or the calls where nothing is said.
pub fn completion_text(content: &str, tool_calls: &Vec<MessageToolCall>) -> (r: String)
    ensures
        r@ == if is_blank(content@) {
            compact_json(calls_json(deep(tool_calls@)))
        } else {
            content@
        },
{
    if blank(content) {
        calls_to_json(tool_calls).to_text()
    } else {
        content.to_owned()
    }
}

// ---- laws ----

/// However a call comes out, the agent remembers a result for the very call that the model asked
/// for, and the call is no longer running.
pub proof fn law_every_call_is_answered(
    t: TaskModel,
    invocation: ToolInvocation,
    ids: CallIds,
    outcome: ToolOutcome,
    begun_at: i64,
    at: i64,
)
    requires
        call_place(t.tool_calls, ids.call@) == t.tool_calls.len(),
    ensures
        ({
            let begun = begun_call(t, invocation, ids, begun_at);
            let after = concluded_call(begun, invocation, ids, outcome, at);
            let n = t.tool_calls.len() as int;
            &&& call_place(begun.tool_calls, ids.call@) == n
            &&& after.tool_calls.len() == n + 1
            &&& after.tool_calls[n].status == outcome_status(outcome)
            &&& after.tool_calls[n].status != ToolCallStatus::Running
            &&& after.messages.len() == t.messages.len() + 1
            &&& after.messages.last().tool_call_id == Some(
                model_call_id(invocation.model_tool_call_id.deep_view(), ids.call@),
            )
        }),
{
    let begun = begun_call(t, invocation, ids, begun_at);
    let n = t.tool_calls.len() as int;
    let names = t.tool_calls.map_values(|c: crate::tasks::records::CallModel| c.id);
    let all = begun.tool_calls.map_values(|c: crate::tasks::records::CallModel| c.id);
    lemma_position(names, ids.call@);
    lemma_position(all, ids.call@);
    let i = call_place(begun.tool_calls, ids.call@);
    assert(all[n] == ids.call@);
    if i < n {
        assert(all[i] == names[i]);
    }
}

/// A call that failed or was declined leaves a message that says so, and the run goes on; only a
/// cancelled run and a question that could not be asked end it.
pub proof fn law_only_cancellation_ends_a_run(outcome: ToolOutcome)
    ensures
        outcome_end(outcome) is Some <==> outcome is ApprovalCancelled || outcome is Cancelled
            || outcome is ApprovalFailed,
        outcome_error(outcome) is None <==> outcome is Done,
{
}

} // verus!
