//! The life of a task: it is made, continued, tried again, archived and restored.

use vstd::prelude::*;

use crate::attachments::{is_image, is_image_type};
use crate::chat::{chat, chat_of, utterance, utterances};
use crate::deep::{copy_all, deep, group_deep, one};
use crate::memory::{
    fit_all, fits, normalized_from, normalizing_changes, recovered_count, trim_memory_to_budget,
    within_budget, MAX_MEMORY_ENTRIES,
};
use crate::memory_laws::{
    kept_all, law_memory_fits_its_budget, law_shortening_keeps_a_memory_replayable,
    law_shortening_keeps_what_the_user_said_last, replayable,
};
use crate::models::{
    plain_entry, AgentMemoryEntry, AttachmentModel, AttachmentRef, EntryModel,
};
use crate::plan::{AgentPlan, PlanModel};
use crate::tasks::prompt::{data_address, data_url, infer_agent_kind, kind_for, task_title, title_of};
use crate::tasks::records::{
    AgentStatus, ApprovalModel, CallModel, RunStepModel, Task, TaskMessage, TaskMessageModel,
    TaskModel, TaskSummary,
};
use crate::tasks::repair::{
    all_finished, any_streaming, is_better_of, is_context, is_repaired_memory, is_repaired_task,
    is_source, law_repaired_tasks_can_go_on, repair_task,
};
use crate::tasks::task::{
    active_plan, approval_place, find_by_id, find_plan, keys_of, next_revision,
    plain_task_message, position, summary_of, task_summary, touched, Identified,
};
use crate::text::{blank, concat2, is_blank, lowercase, same, trim, trimmed};

verus! {

broadcast use group_deep;

pub const API_KEY_REQUIRED_MESSAGE: &'static str =
    "Configure an API key in Settings before sending a task.";

/// The agent that a new task is given to.
pub const DEFAULT_AGENT_NAME: &'static str = "RustPilot";

// ---- requests ----

/// Why a request is not taken, if it is not: it has to say something or bring a file, and a model
/// has to be reachable.
pub open spec fn request_fault(prompt: Seq<char>, files: nat, api_key: bool) -> Option<Seq<char>> {
    if is_blank(prompt) && files == 0 {
        Some("Add a prompt or attach at least one file."@)
    } else if !api_key {
        Some(API_KEY_REQUIRED_MESSAGE@)
    } else {
        None
    }
}

/// The request without the white space around it, or why it is not taken. `files` is how many
/// files come with it.
pub fn check_request(prompt: &str, files: usize, api_key: bool) -> (r: Result<String, String>)
    ensures
        match request_fault(prompt@, files as nat, api_key) {
            Some(error) => r is Err && r->Err_0@ == error,
            None => r is Ok && r->Ok_0@ == trimmed(prompt@),
        },
{
    if blank(prompt) && files == 0 {
        return Err("Add a prompt or attach at least one file.".to_owned());
    }
    if !api_key {
        return Err(API_KEY_REQUIRED_MESSAGE.to_owned());
    }
    Ok(trim(prompt))
}

/// Whether a run can begin: a model has to be reachable.
pub fn check_run(api_key: bool) -> (r: Result<(), String>)
    ensures
        r is Ok <==> api_key,
        r is Err ==> r->Err_0@ == API_KEY_REQUIRED_MESSAGE@,
{
    if api_key {
        Ok(())
    } else {
        Err(API_KEY_REQUIRED_MESSAGE.to_owned())
    }
}

/// Why a task cannot be continued, if it cannot.
pub open spec fn continue_fault(running: bool, archived: bool) -> Option<Seq<char>> {
    if running {
        Some("Wait for the current task to finish before sending another message."@)
    } else if archived {
        Some("Restore the archived task before continuing the conversation."@)
    } else {
        None
    }
}

/// Whether a task can be continued.
pub fn check_continue(running: bool, archived: bool) -> (r: Result<(), String>)
    ensures
        match continue_fault(running, archived) {
            Some(error) => r is Err && r->Err_0@ == error,
            None => r is Ok,
        },
{
    if running {
        return Err("Wait for the current task to finish before sending another message.".to_owned());
    }
    if archived {
        return Err("Restore the archived task before continuing the conversation.".to_owned());
    }
    Ok(())
}

/// Whether a task can be tried again.
pub fn check_retry(running: bool, api_key: bool) -> (r: Result<(), String>)
    ensures
        r is Ok <==> !running && api_key,
        r is Err ==> r->Err_0@ == if running {
            "Stop the running task before retrying."@
        } else {
            API_KEY_REQUIRED_MESSAGE@
        },
{
    if running {
        return Err("Stop the running task before retrying.".to_owned());
    }
    if !api_key {
        return Err(API_KEY_REQUIRED_MESSAGE.to_owned());
    }
    Ok(())
}

/// Whether a task can be put away: it must not be running. `action` is what is to be done to it.
pub fn check_idle(running: bool, action: &str) -> (r: Result<(), String>)
    ensures
        r is Ok <==> !running,
        r is Err ==> r->Err_0@ == "Stop the running task before "@ + action@ + " it."@,
{
    if running {
        Err(crate::text::concat3("Stop the running task before ", action, " it."))
    } else {
        Ok(())
    }
}

/// Whether a picture is among the files.
pub open spec fn any_image(files: Seq<AttachmentModel>) -> bool {
    exists|i: int| 0 <= i < files.len() && is_image_type((#[trigger] files[i]).mime)
}

/// Whether the files can be sent to the model.
pub fn check_images(references: &Vec<AttachmentRef>, model: &str, supports_images: bool) -> (r:
    Result<(), String>)
    ensures
        r is Ok <==> supports_images || !any_image(deep(references@)),
        r is Err ==> r->Err_0@
            == "The configured model does not support image attachments. Remove the images or choose a vision model. Current model: "@
            + model@,
{
    let ghost models = deep(references@);
    let mut i: usize = 0;
    while i < references.len()
        invariant
            models == deep(references@),
            i <= references@.len(),
            !supports_images ==> forall|k: int|
                0 <= k < i ==> !is_image_type((#[trigger] models[k]).mime),
        decreases references@.len() - i,
    {
        proof {
            assert(models[i as int] == references@[i as int].deep_view());
        }
        if !supports_images && is_image(&references[i].mime) {
            return Err(
                concat2(
                    "The configured model does not support image attachments. Remove the images or choose a vision model. Current model: ",
                    model,
                ),
            );
        }
        i += 1;
    }
    Ok(())
}

// ---- new tasks ----

/// The identifiers of a new task, of its first message and of the entry for it.
#[derive(Debug, PartialEq, Eq)]
pub struct TaskIds {
    pub task: String,
    pub message: String,
    pub memory: String,
}

/// What the user says, as a message.
pub open spec fn user_message(
    id: Seq<char>,
    task_id: Seq<char>,
    prompt: Seq<char>,
    files: Seq<AttachmentModel>,
    at: i64,
) -> TaskMessageModel {
    TaskMessageModel {
        attachments: files,
        ..plain_task_message(id, task_id, "user"@, prompt, at, false)
    }
}

/// What the user says, as the agent remembers it.
pub open spec fn user_entry(
    id: Seq<char>,
    prompt: Seq<char>,
    files: Seq<AttachmentModel>,
    at: i64,
) -> EntryModel {
    EntryModel { attachments: files, ..plain_entry(id, "user"@, prompt, at) }
}

/// A new task.
pub open spec fn new_task_model(
    ids: TaskIds,
    prompt: Seq<char>,
    workspace: Seq<char>,
    agent_name: Seq<char>,
    files: Seq<AttachmentModel>,
    at: i64,
) -> TaskModel {
    TaskModel {
        id: ids.task@,
        title: if !is_blank(prompt) {
            title_of(prompt)
        } else if files.len() == 1 {
            "Attached file"@
        } else {
            crate::number::decimal(files.len()) + " attached files"@
        },
        prompt,
        workspace,
        status: AgentStatus::Idle,
        created_at: at,
        updated_at: at,
        demo_mode: false,
        archived: false,
        agent_name,
        agent_kind: kind_for(lowercase(prompt)),
        messages: seq![user_message(ids.message@, ids.task@, prompt, files, at)],
        memory: seq![user_entry(ids.memory@, prompt, files, at)],
        plans: Seq::empty(),
        active_plan_id: None,
        steps: Seq::empty(),
        tool_calls: Seq::empty(),
        approval_requests: Seq::empty(),
        final_answer: None,
        error: None,
        event_seq: 0,
        persistence_revision: 1,
    }
}

fn make_user_message(
    id: &str,
    task_id: &str,
    prompt: &str,
    files: &Vec<AttachmentRef>,
    at: i64,
) -> (r: TaskMessage)
    ensures
        r.deep_view() == user_message(id@, task_id@, prompt@, deep(files@), at),
{
    let mut message = TaskMessage::plain(
        id.to_owned(),
        task_id,
        "user",
        prompt.to_owned(),
        at,
        false,
    );
    message.attachments = copy_all(files);
    message
}

fn make_user_entry(id: &str, prompt: &str, files: &Vec<AttachmentRef>, at: i64) -> (r:
    AgentMemoryEntry)
    ensures
        r.deep_view() == user_entry(id@, prompt@, deep(files@), at),
{
    let mut entry = AgentMemoryEntry::plain(id.to_owned(), "user", prompt.to_owned(), at);
    entry.attachments = copy_all(files);
    entry
}

/// A new task for a request.
pub fn new_task(
    ids: &TaskIds,
    prompt: &str,
    workspace: &str,
    agent_name: &str,
    files: &Vec<AttachmentRef>,
    at: i64,
) -> (r: Task)
    ensures
        r.deep_view() == new_task_model(
            *ids,
            prompt@,
            workspace@,
            agent_name@,
            deep(files@),
            at,
        ),
{
    proof {
        assert(deep(files@).len() == files@.len());
    }
    let task = Task {
        id: ids.task.clone(),
        title: task_title(prompt, files.len()),
        prompt: prompt.to_owned(),
        workspace: workspace.to_owned(),
        status: AgentStatus::Idle,
        created_at: at,
        updated_at: at,
        demo_mode: false,
        archived: false,
        agent_name: agent_name.to_owned(),
        agent_kind: infer_agent_kind(prompt),
        messages: one(make_user_message(&ids.message, &ids.task, prompt, files, at)),
        memory: one(make_user_entry(&ids.memory, prompt, files, at)),
        plans: Vec::new(),
        active_plan_id: None,
        steps: Vec::new(),
        tool_calls: Vec::new(),
        approval_requests: Vec::new(),
        final_answer: None,
        error: None,
        event_seq: 0,
        persistence_revision: 1,
    };
    proof {
        assert(deep(task.plans@) =~= Seq::<PlanModel>::empty());
        assert(deep(task.steps@) =~= Seq::<RunStepModel>::empty());
        assert(deep(task.tool_calls@) =~= Seq::<CallModel>::empty());
        assert(deep(task.approval_requests@) =~= Seq::<ApprovalModel>::empty());
    }
    task
}

// ---- going on ----

/// The task when the user has said more. The task was repaired before, so that what the user says
/// does not stand between a call and its result.
pub open spec fn continued_task(
    t: TaskModel,
    ids: TaskIds,
    prompt: Seq<char>,
    files: Seq<AttachmentModel>,
    at: i64,
) -> TaskModel {
    touched(
        TaskModel {
            status: AgentStatus::Idle,
            error: None,
            final_answer: None,
            demo_mode: false,
            plans: Seq::empty(),
            active_plan_id: None,
            messages: t.messages.push(user_message(ids.message@, t.id, prompt, files, at)),
            memory: within_budget(
                t.memory.push(user_entry(ids.memory@, prompt, files, at)),
                MAX_MEMORY_ENTRIES as int,
            ),
            ..t
        },
        at,
    )
}

/// The task when it is tried again from the beginning.
pub open spec fn retried_task(
    t: TaskModel,
    ids: TaskIds,
    note: Seq<char>,
    at: i64,
) -> TaskModel {
    touched(
        TaskModel {
            status: AgentStatus::Idle,
            error: None,
            final_answer: None,
            demo_mode: false,
            archived: false,
            memory: seq![user_entry(ids.memory@, t.prompt, first_files(t.messages), at)],
            plans: Seq::empty(),
            active_plan_id: None,
            steps: Seq::empty(),
            tool_calls: Seq::empty(),
            approval_requests: Seq::empty(),
            messages: t.messages.push(
                plain_task_message(
                    ids.message@,
                    t.id,
                    "system"@,
                    note,
                    at,
                    false,
                ),
            ),
            ..t
        },
        at,
    )
}

/// The files that came with the first message of the user.
pub open spec fn first_files(messages: Seq<TaskMessageModel>) -> Seq<AttachmentModel>
    decreases messages.len(),
{
    if messages.len() == 0 {
        Seq::empty()
    } else if messages.first().role == "user"@ {
        messages.first().attachments
    } else {
        first_files(messages.drop_first())
    }
}

fn files_of_first(messages: &Vec<TaskMessage>) -> (r: Vec<AttachmentRef>)
    ensures
        deep(r@) == first_files(deep(messages@)),
{
    let ghost models = deep(messages@);
    let mut i: usize = 0;
    proof {
        assert(models.skip(0) =~= models);
    }
    while i < messages.len()
        invariant
            models == deep(messages@),
            i <= messages@.len(),
            first_files(models) == first_files(models.skip(i as int)),
        decreases messages@.len() - i,
    {
        proof {
            assert(models.skip(i as int).first() == messages@[i as int].deep_view());
            assert(models.skip(i as int).drop_first() =~= models.skip(i + 1));
        }
        if same(&messages[i].role, "user") {
            return copy_all(&messages[i].attachments);
        }
        i += 1;
    }
    let none: Vec<AttachmentRef> = Vec::new();
    proof {
        assert(deep(none@) =~= Seq::<AttachmentModel>::empty());
    }
    none
}

/// Whether the task was brought in order and continued.
pub open spec fn is_continued(
    before: TaskModel,
    workspace: Seq<char>,
    ids: TaskIds,
    prompt: Seq<char>,
    files: Seq<AttachmentModel>,
    at: i64,
    after: TaskModel,
) -> bool {
    exists|repaired: TaskModel, changed: bool|
        #[trigger] is_repaired_task(before, workspace, at, repaired, changed) && after
            == continued_task(repaired, ids, prompt, files, at)
}

impl Task {
    /// Continues the task with what the user says.
    pub fn continue_with(
        &mut self,
        workspace: &str,
        ids: &TaskIds,
        prompt: &str,
        files: &Vec<AttachmentRef>,
        at: i64,
    )
        ensures
            is_continued(
                old(self).deep_view(),
                workspace@,
                *ids,
                prompt@,
                deep(files@),
                at,
                final(self).deep_view(),
            ),
    {
        let ghost before = self.deep_view();
        let changed = repair_task(self, workspace, at);
        let ghost repaired = self.deep_view();
        self.status = AgentStatus::Idle;
        self.error = None;
        self.final_answer = None;
        self.demo_mode = false;
        self.plans = Vec::new();
        self.active_plan_id = None;
        let message = make_user_message(&ids.message, &self.id, prompt, files, at);
        self.messages.push(message);
        self.memory.push(make_user_entry(&ids.memory, prompt, files, at));
        trim_memory_to_budget(&mut self.memory, MAX_MEMORY_ENTRIES);
        proof {
            assert(deep(self.plans@) =~= Seq::<PlanModel>::empty());
        }
        self.touch(at);
        proof {
            assert(is_repaired_task(before, workspace@, at, repaired, changed));
            assert(self.deep_view() == continued_task(repaired, *ids, prompt@, deep(files@), at));
        }
    }

    /// Makes the task ready to be tried again, and gives the message that says so. `note` is what
    /// it says.
    pub fn retry(&mut self, ids: &TaskIds, note: &str, at: i64) -> (r: TaskMessage)
        ensures
            final(self).deep_view() == retried_task(old(self).deep_view(), *ids, note@, at),
            r.deep_view() == final(self).deep_view().messages.last(),
            r.content@ == note@,
    {
        self.status = AgentStatus::Idle;
        self.error = None;
        self.final_answer = None;
        self.demo_mode = false;
        self.archived = false;
        let files = files_of_first(&self.messages);
        self.memory = one(make_user_entry(&ids.memory, &self.prompt, &files, at));
        self.plans = Vec::new();
        self.active_plan_id = None;
        self.steps = Vec::new();
        self.tool_calls = Vec::new();
        self.approval_requests = Vec::new();
        let message = TaskMessage::plain(
            ids.message.clone(),
            &self.id,
            "system",
            note.to_owned(),
            at,
            false,
        );
        let shown = message.clone();
        self.messages.push(message);
        proof {
            assert(deep(self.plans@) =~= Seq::<PlanModel>::empty());
            assert(deep(self.steps@) =~= Seq::<RunStepModel>::empty());
            assert(deep(self.tool_calls@) =~= Seq::<CallModel>::empty());
            assert(deep(self.approval_requests@) =~= Seq::<ApprovalModel>::empty());
        }
        self.touch(at);
        shown
    }

    /// Puts the task away, or takes it back, and gives its summary.
    pub fn set_archived(&mut self, archived: bool, at: i64) -> (r: TaskSummary)
        ensures
            final(self).deep_view() == touched(
                TaskModel { archived, ..old(self).deep_view() },
                at,
            ),
            r.deep_view() == summary_of(final(self).deep_view()),
    {
        self.archived = archived;
        self.touch(at);
        task_summary(self)
    }

    /// The revision under which the task is deleted.
    pub fn delete_revision(&self) -> (r: u64)
        ensures
            r == next_revision(self.persistence_revision),
    {
        if self.persistence_revision < u64::MAX {
            self.persistence_revision + 1
        } else {
            self.persistence_revision
        }
    }

    /// A copy of the task with the latest event that is known.
    pub fn snapshot(&self, cursor: Option<i64>) -> (r: Task)
        ensures
            r.deep_view() == (TaskModel {
                event_seq: match cursor {
                    Some(c) => if c > self.event_seq {
                        c
                    } else {
                        self.event_seq
                    },
                    None => self.event_seq,
                },
                ..self.deep_view()
            }),
    {
        let mut copy = self.clone();
        if let Some(cursor) = cursor {
            if cursor > copy.event_seq {
                copy.event_seq = cursor;
            }
        }
        copy
    }

    /// The plan that is worked off.
    pub fn current_plan(&self) -> (r: Option<AgentPlan>)
        ensures
            ({
                let t = self.deep_view();
                r.deep_view() == if active_plan(t) < t.plans.len() {
                    Some(t.plans[active_plan(t)])
                } else {
                    None
                }
            }),
    {
        match &self.active_plan_id {
            Some(id) => {
                let i = find_plan(&self.plans, id);
                if i < self.plans.len() {
                    proof {
                        assert(deep(self.plans@)[i as int] == self.plans@[i as int].deep_view());
                    }
                    Some(self.plans[i].clone())
                } else {
                    None
                }
            },
            None => None,
        }
    }
}

// ---- previews ----

/// A picture that can be shown.
#[derive(Debug, PartialEq, Eq)]
pub struct AttachmentPreview {
    pub mime: String,
    pub data_url: String,
}

/// The files of the messages, one after the other.
pub open spec fn all_files(messages: Seq<TaskMessageModel>) -> Seq<AttachmentModel>
    decreases messages.len(),
{
    if messages.len() == 0 {
        Seq::empty()
    } else {
        all_files(messages.drop_last()) + messages.last().attachments
    }
}

/// The files of the messages, one after the other.
pub fn task_files(messages: &Vec<TaskMessage>) -> (r: Vec<AttachmentRef>)
    ensures
        deep(r@) == all_files(deep(messages@)),
{
    let ghost models = deep(messages@);
    let mut r: Vec<AttachmentRef> = Vec::new();
    let mut i: usize = 0;
    proof {
        assert(models.take(0) =~= Seq::<TaskMessageModel>::empty());
        assert(deep(r@) =~= Seq::<AttachmentModel>::empty());
    }
    while i < messages.len()
        invariant
            models == deep(messages@),
            i <= messages@.len(),
            deep(r@) == all_files(models.take(i as int)),
        decreases messages@.len() - i,
    {
        proof {
            assert(models.take(i + 1).drop_last() =~= models.take(i as int));
            assert(models.take(i + 1).last() == messages@[i as int].deep_view());
        }
        let mut files = copy_all(&messages[i].attachments);
        r.append(&mut files);
        i += 1;
    }
    proof {
        assert(models.take(models.len() as int) =~= models);
    }
    r
}

impl Identified for AttachmentRef {
    open spec fn key(&self) -> Seq<char> {
        self.id@
    }

    fn is_named(&self, id: &str) -> (r: bool) {
        same(&self.id, id)
    }
}

/// The place of the file with the identifier.
pub open spec fn file_place(files: Seq<AttachmentModel>, id: Seq<char>) -> int {
    position(files.map_values(|f: AttachmentModel| f.id), id)
}

/// The file that is to be shown: it is there, and it is a picture.
pub fn preview_file(messages: &Vec<TaskMessage>, attachment_id: &str) -> (r: Result<
    AttachmentRef,
    String,
>)
    ensures
        ({
            let files = all_files(deep(messages@));
            let i = file_place(files, attachment_id@);
            if i >= files.len() {
                r is Err && r->Err_0@ == "Attachment not found."@
            } else if !is_image_type(files[i].mime) {
                r is Err && r->Err_0@ == "Only image attachments can be previewed."@
            } else {
                r is Ok && r->Ok_0.deep_view() == files[i]
            }
        }),
{
    let files = task_files(messages);
    proof {
        assert(keys_of(files@) =~= deep(files@).map_values(|f: AttachmentModel| f.id));
        assert(deep(files@).len() == files@.len());
    }
    let i = find_by_id(&files, attachment_id);
    if i >= files.len() {
        return Err("Attachment not found.".to_owned());
    }
    proof {
        assert(deep(files@)[i as int] == files@[i as int].deep_view());
    }
    if !is_image(&files[i].mime) {
        return Err("Only image attachments can be previewed.".to_owned());
    }
    Ok(files[i].clone())
}

/// A picture that can be shown.
pub fn preview(attachment: &AttachmentRef, bytes: &[u8]) -> (r: AttachmentPreview)
    ensures
        r.mime@ == attachment.mime@,
        r.data_url@ == data_address(attachment.mime@, bytes@),
{
    AttachmentPreview {
        mime: attachment.mime.clone(),
        data_url: data_url(&attachment.mime, bytes),
    }
}

// ---- requests of other agents ----

/// What another agent that asked for the task is told; nothing while the task is not at its end.
pub open spec fn reply_to_agent(t: TaskModel) -> Option<Result<Seq<char>, Seq<char>>> {
    match t.status {
        AgentStatus::Completed => Some(
            Ok(
                match t.final_answer {
                    Some(answer) => answer,
                    None => Seq::empty(),
                },
            ),
        ),
        AgentStatus::Failed => Some(
            Err(
                match t.error {
                    Some(error) => error,
                    None => "A2A task failed."@,
                },
            ),
        ),
        AgentStatus::Cancelled => Some(Err("A2A task cancelled."@)),
        _ => None,
    }
}

/// What another agent that asked for the task is told; nothing while the task is not at its end.
pub fn agent_reply(task: &Task) -> (r: Option<Result<String, String>>)
    ensures
        match reply_to_agent(task.deep_view()) {
            Some(Ok(answer)) => r is Some && r->0 is Ok && r->0->Ok_0@ == answer,
            Some(Err(error)) => r is Some && r->0 is Err && r->0->Err_0@ == error,
            None => r is None,
        },
{
    match task.status {
        AgentStatus::Completed => match &task.final_answer {
            Some(answer) => Some(Ok(answer.clone())),
            None => Some(Ok(String::new())),
        },
        AgentStatus::Failed => match &task.error {
            Some(error) => Some(Err(error.clone())),
            None => Some(Err("A2A task failed.".to_owned())),
        },
        AgentStatus::Cancelled => Some(Err("A2A task cancelled.".to_owned())),
        _ => None,
    }
}

// ---- remembered answers ----

/// What the user allows from now on: an action on something in a directory.
#[derive(Debug, PartialEq, Eq)]
pub struct ApprovalRule {
    pub workspace: String,
    pub action: String,
    pub resource: String,
}

pub struct RuleModel {
    pub workspace: Seq<char>,
    pub action: Seq<char>,
    pub resource: Seq<char>,
}

impl DeepView for ApprovalRule {
    type V = RuleModel;

    open spec fn deep_view(&self) -> RuleModel {
        RuleModel { workspace: self.workspace@, action: self.action@, resource: self.resource@ }
    }
}

impl Clone for ApprovalRule {
    fn clone(&self) -> (r: Self)
        ensures
            r.deep_view() == self.deep_view(),
    {
        ApprovalRule {
            workspace: self.workspace.clone(),
            action: self.action.clone(),
            resource: self.resource.clone(),
        }
    }
}

/// The rule that is remembered when the user says yes to the request for good.
pub fn remembered_rule(task: &Task, approval_id: &str) -> (r: Option<ApprovalRule>)
    ensures
        ({
            let requests = task.deep_view().approval_requests;
            let i = approval_place(requests, approval_id@);
            if i < requests.len() && requests[i].remember_action is Some
                && requests[i].remember_pattern is Some {
                &&& r is Some
                &&& r->0.workspace@ == task.workspace@
                &&& r->0.action@ == requests[i].remember_action->0
                &&& r->0.resource@ == requests[i].remember_pattern->0
            } else {
                r is None
            }
        }),
{
    proof {
        assert(keys_of(task.approval_requests@) =~= deep(task.approval_requests@).map_values(
            |r: ApprovalModel| r.id,
        ));
        assert(deep(task.approval_requests@).len() == task.approval_requests@.len());
    }
    let i = find_by_id(&task.approval_requests, approval_id);
    if i >= task.approval_requests.len() {
        return None;
    }
    proof {
        assert(deep(task.approval_requests@)[i as int]
            == task.approval_requests@[i as int].deep_view());
    }
    let request = &task.approval_requests[i];
    match (&request.remember_action, &request.remember_pattern) {
        (Some(action), Some(pattern)) => Some(
            ApprovalRule {
                workspace: task.workspace.clone(),
                action: action.clone(),
                resource: pattern.clone(),
            },
        ),
        _ => None,
    }
}

// ---- laws ----

/// Archiving and restoring a task changes nothing of it but its revision and its time.
pub proof fn law_restoring_undoes_archiving(t: TaskModel, first: i64, second: i64)
    requires
        !t.archived,
    ensures
        ({
            let away = touched(TaskModel { archived: true, ..t }, first);
            let back = touched(TaskModel { archived: false, ..away }, second);
            back == (TaskModel {
                updated_at: second,
                persistence_revision: back.persistence_revision,
                ..t
            })
        }),
{
}

/// A task that is tried again begins like a new one: it has the request, its first files and
/// nothing of what came of them but the messages.
pub proof fn law_retrying_begins_anew(t: TaskModel, ids: TaskIds, note: Seq<char>, at: i64)
    ensures
        ({
            let after = retried_task(t, ids, note, at);
            &&& after.memory.len() == 1
            &&& after.memory[0].content == t.prompt
            &&& after.steps.len() == 0 && after.tool_calls.len() == 0 && after.plans.len() == 0
            &&& after.final_answer is None && after.error is None && !after.archived
            &&& after.messages.drop_last() == t.messages
            &&& after.messages.last().content == note
        }),
{
    assert(retried_task(t, ids, note, at).messages.drop_last() =~= t.messages);
}

/// What the user says can follow whatever the agent remembers, as long as that is in order.
proof fn lemma_user_may_speak(memory: Seq<EntryModel>, entry: EntryModel)
    requires
        replayable(memory),
        entry.role == "user"@,
    ensures
        replayable(memory.push(entry)),
{
    reveal_strlit("user");
    reveal_strlit("assistant");
    reveal_strlit("tool");
    assert("user"@[0] == 'u' && "tool"@[0] == 't' && "assistant"@[0] == 'a');
    let all = memory.push(entry);
    assert(all.drop_last() =~= memory);
    assert(chat(all) == chat(memory).push(chat_of(entry)));
    let said = utterances(chat(all));
    assert(said.drop_last() =~= utterances(chat(memory)));
    assert(said.last() == utterance(chat_of(entry)));
}

/// A task that was continued can be sent to a model: what the user says comes last, and never
/// stands between a call and its result. The messages stay, and the plan is a new one.
pub proof fn law_continued_tasks_can_go_on(
    before: TaskModel,
    workspace: Seq<char>,
    ids: TaskIds,
    prompt: Seq<char>,
    files: Seq<AttachmentModel>,
    at: i64,
    after: TaskModel,
)
    requires
        is_continued(before, workspace, ids, prompt, files, at, after),
    ensures
        replayable(after.memory),
        0 < after.memory.len() <= MAX_MEMORY_ENTRIES,
        after.memory.last() == user_entry(ids.memory@, prompt, files, at),
        after.messages.len() == before.messages.len() + 1,
        after.messages.last() == user_message(ids.message@, before.id, prompt, files, at),
        after.plans.len() == 0 && after.active_plan_id is None,
{
    let (repaired, changed) = choose|repaired: TaskModel, changed: bool|
        #[trigger] is_repaired_task(before, workspace, at, repaired, changed) && after
            == continued_task(repaired, ids, prompt, files, at);
    law_repaired_tasks_can_go_on(before, workspace, at, repaired, changed);
    let entry = user_entry(ids.memory@, prompt, files, at);
    lemma_user_may_speak(repaired.memory, entry);
    law_shortening_keeps_a_memory_replayable(
        repaired.memory.push(entry),
        MAX_MEMORY_ENTRIES as int,
    );
    law_memory_fits_its_budget(repaired.memory.push(entry), MAX_MEMORY_ENTRIES as int);
    law_shortening_keeps_what_the_user_said_last(
        repaired.memory.push(entry),
        MAX_MEMORY_ENTRIES as int,
    );
}

/// A conversation that is in order is continued with all that was said before, as long as it is
/// not too long.
pub proof fn law_conversations_are_continued_whole(
    before: TaskModel,
    workspace: Seq<char>,
    ids: TaskIds,
    prompt: Seq<char>,
    files: Seq<AttachmentModel>,
    at: i64,
    after: TaskModel,
)
    requires
        is_continued(before, workspace, ids, prompt, files, at, after),
        0 < before.memory.len() < MAX_MEMORY_ENTRIES,
        normalized_from(before.memory, 0) == kept_all(before.memory),
        recovered_count(before.memory) == 0,
    ensures
        after.memory == before.memory.push(user_entry(ids.memory@, prompt, files, at)),
{
    let (repaired, changed) = choose|repaired: TaskModel, changed: bool|
        #[trigger] is_repaired_task(before, workspace, at, repaired, changed) && after
            == continued_task(repaired, ids, prompt, files, at);
    let t = TaskModel { messages: all_finished(before.messages), workspace, ..before };
    let (memory, new) = choose|memory: Seq<EntryModel>, new: bool|
        {
            &&& #[trigger] is_repaired_memory(t, memory, new)
            &&& changed == (any_streaming(before.messages) || before.workspace != workspace || new
                || memory != before.memory)
            &&& repaired == if changed {
                touched(TaskModel { memory, ..t }, at)
            } else {
                t
            }
        };
    let (source, first, first_new) = choose|
        source: Seq<EntryModel>,
        first: Seq<EntryModel>,
        first_new: bool,
    |
        {
            &&& #[trigger] is_source(t, source)
            &&& #[trigger] is_context(source, first, first_new)
            &&& is_better_of(t, first, first_new, memory, new)
        };
    let kept = choose|kept: Seq<EntryModel>|
        {
            &&& #[trigger] fit_all(kept, normalized_from(source, 0))
            &&& first == within_budget(kept, MAX_MEMORY_ENTRIES as int)
            &&& first_new == (normalizing_changes(source, 0) || first != kept)
        };
    assert forall|i: int| 0 <= i < kept.len() implies #[trigger] kept[i] == before.memory[i] by {
        assert(fits(kept[i], kept_all(before.memory)[i]));
    }
    assert(kept =~= before.memory);
}

} // verus!
