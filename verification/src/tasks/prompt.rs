//! What a request is turned into: its title, the kind of agent that takes it, and the messages
//! that are sent to the model.

use vstd::prelude::*;

use crate::agent::{
    calls_json, calls_to_json, kind_text, law_kinds_have_names_of_their_own, parse_agent_kind, set_text,
    with_text, AgentKind,
};
use crate::agents::{spec_of, AgentSpec};
use crate::attachments::{
    extension_of, is_image, is_image_type, is_text, is_text_ending, is_text_type,
    MAX_TEXT_CONTEXT_BYTES,
};
use crate::base64::{base64_encode, encoded};
use crate::chat::{chat, memory_to_chat_messages, ChatMessage, ChatModel};
use crate::deep::{deep, group_deep};
use crate::json::{group_json, Json, JsonModel, Members};
use crate::models::{AgentMemoryEntry, AttachmentModel, AttachmentRef, EntryModel};
use crate::number::{decimal, number_text};
use crate::text::{
    blank, concat2, concat3, concat4, concat5, contains, has_part, is_blank, lossy_text, lowercase, noted,
    read_lossy, same, squeeze, squeezed, take_noted, to_lowercase,
};
use crate::tools::data::{array_of_texts, text_array};

verus! {

broadcast use {group_deep, group_json};

// ---- titles and kinds ----

/// The title of a request: its words, no more than 56 characters of them.
pub open spec fn title_of(prompt: Seq<char>) -> Seq<char> {
    let title = noted(squeezed(prompt), 56, "..."@);
    if title.len() == 0 {
        "New task"@
    } else {
        title
    }
}

/// The title of a request.
pub fn make_title(prompt: &str) -> (r: String)
    ensures
        r@ == title_of(prompt@),
{
    let title = take_noted(&squeeze(prompt), 56, "...");
    if title.as_str().is_empty() {
        "New task".to_owned()
    } else {
        title
    }
}

/// The title of a request that may have no text, only files.
pub fn task_title(prompt: &str, attachment_count: usize) -> (r: String)
    ensures
        r@ == if !is_blank(prompt@) {
            title_of(prompt@)
        } else if attachment_count == 1 {
            "Attached file"@
        } else {
            decimal(attachment_count as nat) + " attached files"@
        },
{
    if !blank(prompt) {
        make_title(prompt)
    } else if attachment_count == 1 {
        "Attached file".to_owned()
    } else {
        concat2(&number_text(attachment_count as u64), " attached files")
    }
}

/// The kind of agent for a request in lower case. Chinese words come first, and among them those
/// of data before those of code and of the web.
pub open spec fn kind_for(lower: Seq<char>) -> Seq<char> {
    if has_part(lower, "\u{6570}\u{636e}"@) || has_part(lower, "\u{5206}\u{6790}"@) || has_part(
        lower,
        "\u{56fe}\u{8868}"@,
    ) || has_part(lower, "\u{7edf}\u{8ba1}"@) {
        "data_analysis"@
    } else if has_part(lower, "\u{4ee3}\u{7801}"@) || has_part(lower, "\u{4fee}\u{590d}"@)
        || has_part(lower, "\u{6d4b}\u{8bd5}"@) || has_part(lower, "\u{9519}\u{8bef}"@) {
        "swe"@
    } else if has_part(lower, "\u{6d4f}\u{89c8}\u{5668}"@) || has_part(
        lower,
        "\u{7f51}\u{9875}"@,
    ) || has_part(lower, "\u{7f51}\u{7ad9}"@) {
        "browser"@
    } else if has_part(lower, "csv"@) || has_part(lower, "data"@) || has_part(lower, "chart"@) {
        "data_analysis"@
    } else if has_part(lower, "code"@) || has_part(lower, "bug"@) {
        "swe"@
    } else if has_part(lower, "browser"@) || has_part(lower, "website"@) {
        "browser"@
    } else if has_part(lower, "mcp"@) {
        "mcp"@
    } else {
        "manus"@
    }
}

/// The kind of agent for a request in lower case.
pub fn kind_for_lower(lower: &str) -> (r: String)
    ensures
        r@ == kind_for(lower@),
{
    if contains(lower, "\u{6570}\u{636e}") || contains(lower, "\u{5206}\u{6790}") || contains(
        lower,
        "\u{56fe}\u{8868}",
    ) || contains(lower, "\u{7edf}\u{8ba1}") {
        "data_analysis".to_owned()
    } else if contains(lower, "\u{4ee3}\u{7801}") || contains(lower, "\u{4fee}\u{590d}")
        || contains(lower, "\u{6d4b}\u{8bd5}") || contains(lower, "\u{9519}\u{8bef}") {
        "swe".to_owned()
    } else if contains(lower, "\u{6d4f}\u{89c8}\u{5668}") || contains(lower, "\u{7f51}\u{9875}")
        || contains(lower, "\u{7f51}\u{7ad9}") {
        "browser".to_owned()
    } else if contains(lower, "csv") || contains(lower, "data") || contains(lower, "chart") {
        "data_analysis".to_owned()
    } else if contains(lower, "code") || contains(lower, "bug") {
        "swe".to_owned()
    } else if contains(lower, "browser") || contains(lower, "website") {
        "browser".to_owned()
    } else if contains(lower, "mcp") {
        "mcp".to_owned()
    } else {
        "manus".to_owned()
    }
}

/// The kind of agent for a request.
pub fn infer_agent_kind(prompt: &str) -> (r: String)
    ensures
        r@ == kind_for(lowercase(prompt@)),
{
    kind_for_lower(&to_lowercase(prompt))
}

/// Every request gets a kind of agent that there is.
pub proof fn law_inferred_kinds_exist(lower: Seq<char>)
    ensures
        exists|kind: AgentKind| kind_text(kind) == kind_for(lower),
{
    assert(kind_text(AgentKind::DataAnalysis) == "data_analysis"@);
    assert(kind_text(AgentKind::Swe) == "swe"@);
    assert(kind_text(AgentKind::Browser) == "browser"@);
    assert(kind_text(AgentKind::Mcp) == "mcp"@);
    assert(kind_text(AgentKind::Manus) == "manus"@);
}

// ---- system prompt ----

/// What every agent is told of how to work.
pub const POLICY: &'static str =
    "\n\nThe desktop runtime handles high-risk approvals. Keep every argument valid JSON, bound observations, recover from tool errors, and never claim a tool ran unless its result is present. Before each non-trivial tool call, give the user one concise factual progress sentence; after the result, state the useful implication before choosing the next action. Do not reveal chain-of-thought or invent progress that the tool result cannot support. The persisted conversation history is authoritative: treat the newest user message as a continuation of the prior exchange unless the user explicitly asks to restart, and use prior messages and tool results instead of reintroducing yourself or resetting the task. Write the final response for the user, not for the execution log: answer in the user's language, lead with the conclusion, and keep it concise. Never paste raw JSON, full directory listings, timestamps, stack traces, or tool logs unless the user explicitly asks for them. Summarize evidence and mention only the paths or values that matter. For capability questions, answer directly without calling unrelated tools. Internal planning and tool-call messages are not user-facing.";

/// The kind of agent with the name; the general one where no kind has the name.
pub open spec fn kind_of(name: Seq<char>) -> AgentKind {
    if name == kind_text(AgentKind::Browser) {
        AgentKind::Browser
    } else if name == kind_text(AgentKind::DataAnalysis) {
        AgentKind::DataAnalysis
    } else if name == kind_text(AgentKind::Swe) {
        AgentKind::Swe
    } else if name == kind_text(AgentKind::Mcp) {
        AgentKind::Mcp
    } else if name == kind_text(AgentKind::SandboxManus) {
        AgentKind::SandboxManus
    } else {
        AgentKind::Manus
    }
}

/// The kind of agent with the name.
pub fn kind_named(name: &str) -> (r: AgentKind)
    ensures
        r == kind_of(name@),
{
    match parse_agent_kind(name) {
        Some(kind) => {
            proof {
                if kind_text(kind_of(name@)) == name@ {
                    law_kinds_have_names_of_their_own(kind, kind_of(name@));
                }
            }
            kind
        },
        None => AgentKind::Manus,
    }
}

/// The two parts of what the system says.
pub open spec fn prompt_parts(
    agent_kind: Seq<char>,
    workspace: Seq<char>,
) -> (Seq<char>, Seq<char>) {
    let spec = spec_of(kind_of(agent_kind), workspace);
    (spec.system_prompt, spec.next_step_prompt + POLICY@)
}

/// What the system says: what the agent is, and how it works. The two parts stay the same from
/// request to request.
pub fn system_prompt_parts(agent_kind: &str, workspace: &str) -> (r: (String, String))
    ensures
        (r.0@, r.1@) == prompt_parts(agent_kind@, workspace@),
{
    let spec = AgentSpec::for_kind(kind_named(agent_kind), workspace);
    let policy = concat2(&spec.next_step_prompt, POLICY);
    (spec.system_prompt, policy)
}

// ---- the conversation ----

/// A message with a text and nothing else.
pub open spec fn text_message(role: Seq<char>, content: Seq<char>) -> ChatModel {
    ChatModel {
        role,
        content: Some(content),
        reasoning_content: None,
        reasoning_opaque: None,
        tool_calls: None,
        tool_call_id: None,
        name: None,
        attachments: Seq::empty(),
    }
}

/// A message with a text and nothing else.
pub fn make_text_message(role: &str, content: &str) -> (r: ChatMessage)
    ensures
        r.deep_view() == text_message(role@, content@),
{
    ChatMessage {
        role: role.to_owned(),
        content: Some(content.to_owned()),
        reasoning_content: None,
        reasoning_opaque: None,
        tool_calls: None,
        tool_call_id: None,
        name: None,
        attachments: Vec::new(),
    }
}

/// The conversation that is sent: what the system says, and what the agent remembers, or the
/// request where it remembers nothing.
pub open spec fn conversation(
    header: Seq<char>,
    policy: Seq<char>,
    memory: Seq<EntryModel>,
    prompt: Seq<char>,
) -> Seq<ChatModel> {
    seq![text_message("system"@, header), text_message("system"@, policy)] + (
    if memory.len() == 0 {
        seq![text_message("user"@, prompt)]
    } else {
        chat(memory)
    })
}

/// The conversation that is sent.
pub fn build_conversation(
    header: &str,
    policy: &str,
    memory: &Vec<AgentMemoryEntry>,
    prompt: &str,
) -> (r: Vec<ChatMessage>)
    ensures
        deep(r@) == conversation(header@, policy@, deep(memory@), prompt@),
{
    let mut r: Vec<ChatMessage> = Vec::new();
    r.push(make_text_message("system", header));
    r.push(make_text_message("system", policy));
    let ghost head = deep(r@);
    proof {
        assert(head =~= seq![text_message("system"@, header@), text_message("system"@, policy@)]);
        assert(deep(memory@).len() == memory@.len());
    }
    if memory.len() == 0 {
        let message = make_text_message("user", prompt);
        r.push(message);
        proof {
            assert(deep(r@) =~= head + seq![message.deep_view()]);
        }
    } else {
        let mut history = memory_to_chat_messages(memory);
        r.append(&mut history);
    }
    r
}

// ---- arguments ----

/// The argument under which a tool finds the directory of the task.
pub const INTERNAL_WORKSPACE_ARGUMENT: &'static str = "_rustpilot_workspace";

/// The argument under which a tool finds the files that it may read beside that directory.
pub const INTERNAL_ATTACHMENT_READ_PATHS_ARGUMENT: &'static str =
    "_rustpilot_attachment_read_paths";

/// The arguments of a tool with the directory of the task, and with the files that it may read.
/// What a call says itself of these is replaced.
pub open spec fn task_arguments(
    arguments: JsonModel,
    workspace: Seq<char>,
    paths: Seq<Seq<char>>,
) -> JsonModel {
    match arguments {
        JsonModel::Object(_) => {
            let placed = arguments.with(
                INTERNAL_WORKSPACE_ARGUMENT@,
                JsonModel::Str(workspace),
            ).without(INTERNAL_ATTACHMENT_READ_PATHS_ARGUMENT@);
            if paths.len() == 0 {
                placed
            } else {
                placed.with(INTERNAL_ATTACHMENT_READ_PATHS_ARGUMENT@, text_array(paths))
            }
        },
        _ => arguments,
    }
}

/// The arguments of a tool with the directory of the task, and with the files that it may read.
pub fn with_task_workspace(
    arguments: &Json,
    workspace: &str,
    attachment_read_paths: &Vec<String>,
) -> (r: Json)
    ensures
        r.deep_view() == task_arguments(
            arguments.deep_view(),
            workspace@,
            deep(attachment_read_paths@),
        ),
{
    let mut r = arguments.clone();
    if let Json::Object(_) = arguments {
        proof {
            assert(arguments.deep_view() is Object);
            assert(deep(attachment_read_paths@).len() == attachment_read_paths@.len());
        }
        r.set(INTERNAL_WORKSPACE_ARGUMENT, Json::string(workspace));
        r.remove(INTERNAL_ATTACHMENT_READ_PATHS_ARGUMENT);
        if attachment_read_paths.len() > 0 {
            r.set(
                INTERNAL_ATTACHMENT_READ_PATHS_ARGUMENT,
                array_of_texts(attachment_read_paths),
            );
        }
    } else {
        proof {
            assert(!(arguments.deep_view() is Object));
        }
    }
    r
}

/// The directory that the arguments name; nothing where they name none.
pub fn workspace_for_arguments(arguments: &Json) -> (r: Option<String>)
    ensures
        r.deep_view() == match arguments.deep_view().text(INTERNAL_WORKSPACE_ARGUMENT@) {
            Some(path) if !is_blank(path) => Some(path),
            _ => None,
        },
{
    match arguments.text(INTERNAL_WORKSPACE_ARGUMENT) {
        Some(path) => if blank(path) {
            None
        } else {
            Some(path.clone())
        },
        None => None,
    }
}

/// A tool always finds the directory of the task, whatever its call says.
pub proof fn law_tools_work_in_the_directory_of_the_task(
    arguments: JsonModel,
    workspace: Seq<char>,
    paths: Seq<Seq<char>>,
)
    requires
        arguments is Object,
    ensures
        task_arguments(arguments, workspace, paths).text(INTERNAL_WORKSPACE_ARGUMENT@) == Some(
            workspace,
        ),
{
    reveal_strlit("_rustpilot_workspace");
    reveal_strlit("_rustpilot_attachment_read_paths");
    let a = INTERNAL_WORKSPACE_ARGUMENT@;
    let b = INTERNAL_ATTACHMENT_READ_PATHS_ARGUMENT@;
    assert(a.len() != b.len());
    let value = JsonModel::Str(workspace);
    let placed = arguments.with(a, value);
    crate::json_model::lemma_with_get(arguments, a, value);
    crate::json_model::lemma_without_get_other(placed, b, a);
    if paths.len() > 0 {
        crate::json_model::lemma_with_get_other(placed.without(b), b, text_array(paths), a);
    }
}

// ---- messages with files ----

/// The bytes of a text that are shown.
pub open spec fn shown_bytes(bytes: Seq<u8>) -> Seq<u8> {
    if bytes.len() <= MAX_TEXT_CONTEXT_BYTES {
        bytes
    } else {
        bytes.take(MAX_TEXT_CONTEXT_BYTES as int)
    }
}

/// The line that stands before what is said of a file.
pub open spec fn file_line(attachment: AttachmentModel) -> Seq<char> {
    "[Attached file: "@ + attachment.name + " | "@ + attachment.mime + " | "@ + decimal(
        attachment.size as nat,
    ) + " bytes]\n"@
}

/// Whether a file holds text.
pub open spec fn holds_text(attachment: AttachmentModel) -> bool {
    is_text_type(attachment.mime) || is_text_ending(extension_of(attachment.name))
}

/// What a model is told of a file: its text, or where it lies. `text` is what the first bytes of
/// the file read as.
pub open spec fn file_text(
    attachment: AttachmentModel,
    size: nat,
    text: Seq<char>,
    path: Seq<char>,
) -> Seq<char> {
    if holds_text(attachment) {
        file_line(attachment) + text + (if size > MAX_TEXT_CONTEXT_BYTES {
            "\n[attachment text truncated]"@
        } else {
            Seq::empty()
        }) + "\n[Full attachment path: "@ + path + "]"@
    } else {
        file_line(attachment) + "This file is stored locally at "@ + path
            + ". Use the file tools if you need to inspect its raw contents."@
    }
}

fn write_file_line(attachment: &AttachmentRef) -> (r: String)
    ensures
        r@ == file_line(attachment.deep_view()),
{
    let mut line = concat5(
        "[Attached file: ",
        &attachment.name,
        " | ",
        &attachment.mime,
        " | ",
    );
    line.append(&number_text(attachment.size));
    line.append(" bytes]\n");
    line
}

/// What a model is told of a file that has `size` bytes, the first of which read as `text`.
pub fn file_prompt_text(attachment: &AttachmentRef, size: usize, text: &str, path: &str) -> (r:
    String)
    ensures
        r@ == file_text(attachment.deep_view(), size as nat, text@, path@),
{
    let mut r = write_file_line(attachment);
    if is_text(&attachment.mime, &attachment.name) {
        r.append(text);
        let note = if size > MAX_TEXT_CONTEXT_BYTES {
            "\n[attachment text truncated]".to_owned()
        } else {
            String::new()
        };
        r.append(&note);
        r.append("\n[Full attachment path: ");
        r.append(path);
        r.append("]");
    } else {
        r.append("This file is stored locally at ");
        r.append(path);
        r.append(". Use the file tools if you need to inspect its raw contents.");
    }
    r
}

/// What a model is told of a file. `path` is where it lies.
pub fn attachment_prompt_text(attachment: &AttachmentRef, bytes: &[u8], path: &str) -> (r: String)
    ensures
        r@ == file_text(
            attachment.deep_view(),
            bytes@.len(),
            lossy_text(shown_bytes(bytes@)),
            path@,
        ),
{
    let n = bytes.len();
    let text = if n <= MAX_TEXT_CONTEXT_BYTES {
        read_lossy(bytes)
    } else {
        let first = vstd::slice::slice_subrange(bytes, 0, MAX_TEXT_CONTEXT_BYTES);
        proof {
            assert(first@ =~= bytes@.take(MAX_TEXT_CONTEXT_BYTES as int));
        }
        read_lossy(first)
    };
    file_prompt_text(attachment, n, &text, path)
}

/// A file as it is read: its bytes, and where it lies.
#[derive(Debug, PartialEq, Eq)]
pub struct ReadFile {
    pub bytes: Vec<u8>,
    pub path: String,
}

pub struct ReadModel {
    pub bytes: Seq<u8>,
    pub path: Seq<char>,
}

impl DeepView for ReadFile {
    type V = ReadModel;

    open spec fn deep_view(&self) -> ReadModel {
        ReadModel { bytes: self.bytes@, path: self.path@ }
    }
}

/// A message of the chat protocol as JSON, without its files.
pub open spec fn chat_json(message: ChatModel) -> JsonModel {
    let role = JsonModel::Object(seq![("role"@, JsonModel::Str(message.role))]);
    let content = with_text(role, "content"@, message.content);
    let thoughts = with_text(content, "reasoning_content"@, message.reasoning_content);
    let opaque = with_text(thoughts, "reasoning_opaque"@, message.reasoning_opaque);
    let calls = match message.tool_calls {
        Some(calls) => opaque.with("tool_calls"@, calls_json(calls)),
        None => opaque,
    };
    with_text(with_text(calls, "tool_call_id"@, message.tool_call_id), "name"@, message.name)
}

/// A message of the chat protocol as JSON, without its files.
pub fn chat_to_json(message: &ChatMessage) -> (r: Json)
    ensures
        r.deep_view() == chat_json(message.deep_view()),
{
    let mut r = Json::object1("role", Json::string(&message.role));
    set_text(&mut r, "content", &message.content);
    set_text(&mut r, "reasoning_content", &message.reasoning_content);
    set_text(&mut r, "reasoning_opaque", &message.reasoning_opaque);
    match &message.tool_calls {
        Some(calls) => {
            r.set("tool_calls", calls_to_json(calls));
        },
        None => {},
    }
    set_text(&mut r, "tool_call_id", &message.tool_call_id);
    set_text(&mut r, "name", &message.name);
    r
}

/// The place of the first picture among the files; their count where there is none.
pub open spec fn first_image(attachments: Seq<AttachmentModel>) -> int
    decreases attachments.len(),
{
    if attachments.len() == 0 || is_image_type(attachments.first().mime) {
        0
    } else {
        1 + first_image(attachments.drop_first())
    }
}

fn find_image(attachments: &Vec<AttachmentRef>) -> (r: usize)
    ensures
        r == first_image(deep(attachments@)),
        r <= attachments@.len(),
{
    let ghost models = deep(attachments@);
    let mut i: usize = 0;
    proof {
        assert(models.skip(0) =~= models);
    }
    while i < attachments.len() && !is_image(&attachments[i].mime)
        invariant
            models == deep(attachments@),
            i <= attachments@.len(),
            first_image(models) == i + first_image(models.skip(i as int)),
        decreases attachments@.len() - i,
    {
        proof {
            assert(models.skip(i as int).first() == attachments@[i as int].deep_view());
            assert(models.skip(i as int).drop_first() =~= models.skip(i + 1));
        }
        i += 1;
    }
    proof {
        if i < attachments@.len() {
            assert(models.skip(i as int).first() == attachments@[i as int].deep_view());
        }
    }
    i
}

/// Why a message with files cannot be sent, if it cannot.
pub open spec fn files_fault(message: ChatModel, supports_images: bool) -> Option<Seq<char>> {
    let files = message.attachments;
    if files.len() == 0 {
        None
    } else if message.role != "user"@ {
        Some("Only user messages can contain attachments."@)
    } else if first_image(files) < files.len() && !supports_images {
        Some(
            "The configured model does not support image attachments. Remove "@
                + files[first_image(files)].name + " or choose a vision model."@,
        )
    } else {
        None
    }
}

/// Whether a message with files can be sent.
pub fn check_message_files(message: &ChatMessage, supports_images: bool) -> (r: Result<(), String>)
    ensures
        match files_fault(message.deep_view(), supports_images) {
            Some(error) => r is Err && r->Err_0@ == error,
            None => r is Ok,
        },
{
    proof {
        assert(message.deep_view().attachments.len() == message.attachments@.len());
    }
    if message.attachments.len() == 0 {
        return Ok(());
    }
    if !same(&message.role, "user") {
        return Err("Only user messages can contain attachments.".to_owned());
    }
    let i = find_image(&message.attachments);
    if i < message.attachments.len() && !supports_images {
        proof {
            assert(deep(message.attachments@)[i as int]
                == message.attachments@[i as int].deep_view());
        }
        return Err(
            concat3(
                "The configured model does not support image attachments. Remove ",
                &message.attachments[i].name,
                " or choose a vision model.",
            ),
        );
    }
    Ok(())
}

/// What a model is told of the file at `i`.
pub open spec fn told_of(files: Seq<AttachmentModel>, reads: Seq<ReadModel>, i: int) -> Seq<char> {
    file_text(
        files[i],
        reads[i].bytes.len(),
        lossy_text(shown_bytes(reads[i].bytes)),
        reads[i].path,
    )
}

/// The text of a message with what is told of its first `n` files.
pub open spec fn joined_text(
    text: Seq<char>,
    files: Seq<AttachmentModel>,
    reads: Seq<ReadModel>,
    n: int,
) -> Seq<char>
    decreases n,
{
    if n <= 0 {
        text
    } else {
        let head = joined_text(text, files, reads, n - 1);
        (if head.len() == 0 {
            head
        } else {
            head + "\n\n"@
        }) + told_of(files, reads, n - 1)
    }
}

/// A part of the content of a message that is text.
pub open spec fn text_part(text: Seq<char>) -> JsonModel {
    JsonModel::Object(
        seq![("type"@, JsonModel::Str("text"@)), ("text"@, JsonModel::Str(text))],
    )
}

/// The address that holds a file itself.
pub open spec fn data_address(mime: Seq<char>, bytes: Seq<u8>) -> Seq<char> {
    "data:"@ + mime + ";base64,"@ + encoded(bytes)
}

/// A part of the content of a message that is a picture.
pub open spec fn image_part(mime: Seq<char>, bytes: Seq<u8>) -> JsonModel {
    JsonModel::Object(
        seq![
            ("type"@, JsonModel::Str("image_url"@)),
            (
                "image_url"@,
                JsonModel::Object(seq![("url"@, JsonModel::Str(data_address(mime, bytes)))]),
            ),
        ],
    )
}

/// A file as a part of the content of a message.
pub open spec fn file_part(
    files: Seq<AttachmentModel>,
    reads: Seq<ReadModel>,
    i: int,
) -> JsonModel {
    if is_image_type(files[i].mime) {
        image_part(files[i].mime, reads[i].bytes)
    } else {
        text_part(told_of(files, reads, i))
    }
}

/// The content of a message with a picture among its files.
pub open spec fn mixed_content(message: ChatModel, reads: Seq<ReadModel>) -> Seq<JsonModel> {
    (match message.content {
        Some(text) if text.len() > 0 => seq![text_part(text)],
        _ => Seq::empty(),
    }) + Seq::new(
        message.attachments.len(),
        |i: int| file_part(message.attachments, reads, i),
    )
}

/// A message of the chat protocol as JSON, with its files: where there is no picture among them
/// the text tells of them, and otherwise each is a part of the content.
pub open spec fn message_with_files(message: ChatModel, reads: Seq<ReadModel>) -> JsonModel {
    let files = message.attachments;
    if files.len() == 0 {
        chat_json(message)
    } else if first_image(files) >= files.len() {
        chat_json(message).with(
            "content"@,
            JsonModel::Str(
                joined_text(
                    match message.content {
                        Some(text) => text,
                        None => Seq::empty(),
                    },
                    files,
                    reads,
                    files.len() as int,
                ),
            ),
        )
    } else {
        chat_json(message).with("content"@, JsonModel::Array(mixed_content(message, reads)))
    }
}

fn make_text_part(text: &str) -> (r: Json)
    ensures
        r.deep_view() == text_part(text@),
{
    let members = Members::new().with("type", Json::string("text")).with(
        "text",
        Json::string(text),
    );
    proof {
        assert(members.model() =~= text_part(text@)->Object_0);
    }
    members.object()
}

/// The address that holds a file itself.
pub fn data_url(mime: &str, bytes: &[u8]) -> (r: String)
    ensures
        r@ == data_address(mime@, bytes@),
{
    concat4("data:", mime, ";base64,", &base64_encode(bytes))
}

fn make_image_part(mime: &str, bytes: &[u8]) -> (r: Json)
    ensures
        r.deep_view() == image_part(mime@, bytes@),
{
    let members = Members::new().with("type", Json::string("image_url")).with(
        "image_url",
        Json::object1("url", Json::string(&data_url(mime, bytes))),
    );
    proof {
        assert(members.model() =~= image_part(mime@, bytes@)->Object_0);
    }
    members.object()
}

fn make_joined_text(message: &ChatMessage, reads: &Vec<ReadFile>) -> (r: String)
    requires
        reads@.len() == message.attachments@.len(),
    ensures
        r@ == joined_text(
            match message.deep_view().content {
                Some(text) => text,
                None => Seq::empty(),
            },
            deep(message.attachments@),
            deep(reads@),
            message.attachments@.len() as int,
        ),
{
    let mut text = match &message.content {
        Some(text) => text.clone(),
        None => String::new(),
    };
    let ghost first = text@;
    let mut i: usize = 0;
    while i < message.attachments.len()
        invariant
            reads@.len() == message.attachments@.len(),
            i <= message.attachments@.len(),
            text@ == joined_text(first, deep(message.attachments@), deep(reads@), i as int),
        decreases message.attachments@.len() - i,
    {
        proof {
            assert(deep(message.attachments@)[i as int]
                == message.attachments@[i as int].deep_view());
            assert(deep(reads@)[i as int] == reads@[i as int].deep_view());
        }
        if !text.as_str().is_empty() {
            text.append("\n\n");
        }
        text.append(
            &attachment_prompt_text(&message.attachments[i], &reads[i].bytes, &reads[i].path),
        );
        i += 1;
    }
    text
}

fn make_mixed_content(message: &ChatMessage, reads: &Vec<ReadFile>) -> (r: Vec<Json>)
    requires
        reads@.len() == message.attachments@.len(),
    ensures
        deep(r@) == mixed_content(message.deep_view(), deep(reads@)),
{
    let ghost model = message.deep_view();
    let mut content: Vec<Json> = Vec::new();
    proof {
        assert(deep(content@) =~= Seq::<JsonModel>::empty());
    }
    if let Some(text) = &message.content {
        if !text.as_str().is_empty() {
            let part = make_text_part(text);
            content.push(part);
            proof {
                assert(deep(content@) =~= seq![part.deep_view()]);
            }
        }
    }
    let ghost head = deep(content@);
    let ghost parts = Seq::new(
        model.attachments.len(),
        |i: int| file_part(model.attachments, deep(reads@), i),
    );
    let mut i: usize = 0;
    proof {
        assert(head + parts.take(0) =~= head);
    }
    while i < message.attachments.len()
        invariant
            reads@.len() == message.attachments@.len(),
            model == message.deep_view(),
            parts == Seq::new(
                model.attachments.len(),
                |i: int| file_part(model.attachments, deep(reads@), i),
            ),
            i <= message.attachments@.len(),
            deep(content@) == head + parts.take(i as int),
        decreases message.attachments@.len() - i,
    {
        proof {
            assert(model.attachments[i as int] == message.attachments@[i as int].deep_view());
            assert(deep(reads@)[i as int] == reads@[i as int].deep_view());
        }
        let part = if is_image(&message.attachments[i].mime) {
            make_image_part(&message.attachments[i].mime, &reads[i].bytes)
        } else {
            make_text_part(
                &attachment_prompt_text(&message.attachments[i], &reads[i].bytes, &reads[i].path),
            )
        };
        content.push(part);
        proof {
            assert(part.deep_view() == parts[i as int]);
            assert(head + parts.take(i + 1) =~= (head + parts.take(i as int)).push(
                parts[i as int],
            ));
        }
        i += 1;
    }
    proof {
        assert(parts.take(parts.len() as int) =~= parts);
    }
    content
}

/// A message of the chat protocol as JSON, with its files. `reads` are the files as they were
/// read, one for each.
pub fn chat_message_value(message: &ChatMessage, reads: &Vec<ReadFile>) -> (r: Json)
    requires
        reads@.len() == message.attachments@.len(),
    ensures
        r.deep_view() == message_with_files(message.deep_view(), deep(reads@)),
{
    let mut value = chat_to_json(message);
    proof {
        assert(message.deep_view().attachments.len() == message.attachments@.len());
    }
    if message.attachments.len() == 0 {
        return value;
    }
    if find_image(&message.attachments) >= message.attachments.len() {
        value.set("content", Json::Str(make_joined_text(message, reads)));
    } else {
        value.set("content", Json::Array(make_mixed_content(message, reads)));
    }
    value
}

} // verus!
