//! Tasks: their records, their memory and their runs.

use rustpilot::agent::{FunctionCall, MessageToolCall};
use rustpilot::chat::{memory_to_chat_messages, validate_chat_message_context};
use rustpilot::json::Json;
use rustpilot::memory::{normalize_memory_for_context, trim_memory_to_budget};
use rustpilot::models::{AgentMemoryEntry, AttachmentRef};
use rustpilot::plan::PlanStepStatus;
use rustpilot::tasks::demo::{demo_answer, demo_first_url, demo_result_summary, demo_tool_calls};
use rustpilot::tasks::demo_run::demo_chunks;
use rustpilot::tasks::lifecycle::{
    agent_reply, check_continue, check_idle, check_images, check_request, check_retry, check_run,
    new_task,
    preview, preview_file, remembered_rule, ApprovalRule, TaskIds,
};
use rustpilot::tasks::parts::{
    apply_stream_event, attach_tool_calls, ensure_assistant_parts, stream_event, utf16_len,
    StreamEvent,
};
use rustpilot::tasks::projects::{
    opened_project, project_summaries, project_task_count, KeyedProject, ProjectRecord,
};
use rustpilot::tasks::prompt::{
    attachment_prompt_text, chat_message_value, chat_to_json, check_message_files,
    infer_agent_kind, kind_named, make_text_message, make_title, system_prompt_parts, task_title,
    with_task_workspace, workspace_for_arguments, ReadFile, INTERNAL_WORKSPACE_ARGUMENT,
};
use rustpilot::tasks::records::{
    AgentStatus, AssistantPart, StepPhase, StepStatus, Task, TaskMessage, ToolCallStatus,
    ToolResult,
};
use rustpilot::tasks::repair::{interrupt_task, memory_from_task_messages, repair_task_record};
use rustpilot::tasks::run::{
    normalize_max_steps, usage_numbers, AgentRun, Completion, ReplyIds, Turn,
};
use rustpilot::tasks::run_end::{finish_run, invocation_of, RunEnd};
use rustpilot::tasks::settings::{
    default_settings, session_id, ApprovalMode, PersistedSettings, SettingsEnvironment,
    SettingsInput,
};
use rustpilot::tasks::startup::{recent_workspaces, restore_tasks};
use rustpilot::tasks::task::{task_summaries, PlanIds};
use rustpilot::tasks::tool_run::{
    after_approval, approval_outcome, check_tool_name, completion_request, completion_text,
    external_path_approved, policy_arguments, run_outcome, AgentError, ApprovalOutcome, CallIds, ToolInvocation, ToolOutcome,
};

fn text(value: &str) -> String {
    value.to_string()
}

fn call(id: &str, name: &str, arguments: &str) -> MessageToolCall {
    MessageToolCall {
        id: text(id),
        call_type: text("function"),
        function: FunctionCall { name: text(name), arguments: text(arguments) },
    }
}

fn entry(id: &str, role: &str, content: &str, created_at: i64) -> AgentMemoryEntry {
    AgentMemoryEntry::plain(text(id), role, text(content), created_at)
}

fn message(id: &str, role: &str, content: &str, streaming: bool) -> TaskMessage {
    TaskMessage::plain(text(id), "task-1", role, text(content), 1, streaming)
}

fn task(id: &str) -> Task {
    let ids = TaskIds { task: text(id), message: text("msg-1"), memory: text("memory-1") };
    new_task(&ids, "question", "/work", "RustPilot", &Vec::new(), 1)
}

fn plan_ids() -> PlanIds {
    PlanIds { plan: text("plan-1"), first: text("s1"), second: text("s2"), third: text("s3") }
}

fn reply_ids(n: usize) -> ReplyIds {
    ReplyIds {
        memory: format!("reply-{n}"),
        extra_memory: format!("extra-{n}"),
        message: format!("said-{n}"),
        act_step: format!("act-{n}"),
    }
}

fn call_ids(n: usize) -> CallIds {
    CallIds {
        call: format!("tool-{n}"),
        result: format!("result-{n}"),
        message: format!("tool-msg-{n}"),
        memory: format!("tool-memory-{n}"),
    }
}

fn completion(id: &str, content: &str, calls: Vec<MessageToolCall>) -> Completion {
    Completion {
        message_id: text(id),
        content: text(content),
        reasoning: String::new(),
        reasoning_opaque: None,
        tool_calls: calls,
    }
}

// ---- titles, kinds and prompts ----

#[test]
fn title_is_trimmed_and_bounded() {
    let title = make_title("  first   task   with   spacing  ");
    assert_eq!(title, "first task with spacing");

    let long = make_title(&"a".repeat(100));
    assert_eq!(long.chars().count(), 59);
    assert!(long.ends_with("..."));
}

#[test]
fn titles_of_requests_without_text() {
    assert_eq!(make_title("  \n "), "New task");
    assert_eq!(task_title(" ", 1), "Attached file");
    assert_eq!(task_title("", 3), "3 attached files");
    assert_eq!(task_title("hello", 3), "hello");
}

#[test]
fn max_agent_steps_default_to_100_and_preserve_custom_values() {
    assert_eq!(default_settings().max_steps, 100);
    assert_eq!(normalize_max_steps(0), 1);
    assert_eq!(normalize_max_steps(250), 250);
}

#[test]
fn agent_kind_tracks_agent_specializations() {
    assert_eq!(
        infer_agent_kind("Analyze this CSV and draw a chart"),
        "data_analysis"
    );
    assert_eq!(infer_agent_kind("Fix this code bug"), "swe");
    assert_eq!(infer_agent_kind("Open the browser page"), "browser");
    assert_eq!(infer_agent_kind("Ordinary task"), "manus");
}

#[test]
fn chinese_requests_come_first() {
    assert_eq!(infer_agent_kind("\u{5206}\u{6790} code"), "data_analysis");
    assert_eq!(infer_agent_kind("\u{4fee}\u{590d} csv"), "swe");
    assert_eq!(infer_agent_kind("\u{7f51}\u{9875} bug"), "browser");
    assert_eq!(infer_agent_kind("use MCP"), "mcp");
}

#[test]
fn system_prompt_is_split_into_stable_cacheable_parts() {
    let workspace = std::path::PathBuf::from(".");
    let first = system_prompt_parts("manus", &workspace.to_string_lossy());
    let second = system_prompt_parts("manus", &workspace.to_string_lossy());
    assert_eq!(first, second);
    assert!(!first.0.is_empty());
    assert!(!first.1.is_empty());
}

#[test]
fn unknown_kinds_are_the_general_agent() {
    assert_eq!(kind_named("nothing"), kind_named("manus"));
    assert_eq!(system_prompt_parts("nothing", "/w"), system_prompt_parts("manus", "/w"));
    assert_ne!(kind_named("swe"), kind_named("manus"));
}

#[test]
fn status_uses_snake_case() {
    assert_eq!(
        Json::string(AgentStatus::WaitingApproval.as_str()).to_text(),
        "\"waiting_approval\""
    );
}

// ---- demo ----

#[test]
fn demo_capability_questions_do_not_run_unrelated_tools() {
    assert!(demo_tool_calls("What can you do?").is_empty());
    assert!(demo_tool_calls("What can you do?").is_empty());
}

#[test]
fn demo_answers_summarize_tool_evidence() {
    let result = ToolResult {
        id: "result-1".to_string(),
        task_id: "task-1".to_string(),
        tool_call_id: "call-1".to_string(),
        status: ToolCallStatus::Completed,
        output: Some("file src/main.rs\ndir src".to_string()),
        error: None,
        duration_ms: Some(2),
    };
    let answer = demo_answer("Inspect the project", &vec![("rust_files".to_string(), result)]);
    assert!(answer.contains("2 files and directories"));
    assert!(!answer.contains("src/main.rs"));
}

#[test]
fn demo_requests_call_the_tools_that_they_name() {
    let calls = demo_tool_calls("Search the web for https://example.test/a. and save it");
    let names: Vec<&str> = calls.iter().map(|c| c.0.as_str()).collect();
    assert_eq!(names, vec!["rust_http", "rust_web_search", "rust_files"]);
    assert_eq!(calls[0].1.text("url"), Some(&text("https://example.test/a")));
    assert_eq!(demo_tool_calls("inspect this").len(), 1);
    assert_eq!(demo_first_url("no address"), None);
}

#[test]
fn demo_summaries_name_what_happened() {
    assert_eq!(
        demo_result_summary("rust_shell", "exit_code: 3\nstdout"),
        "The command completed with exit code 3."
    );
    assert_eq!(demo_result_summary("rust_files", "Wrote file: a.txt"), "Wrote file: a.txt");
    assert_eq!(
        demo_result_summary("rust_http", "HTTP 200 OK\n\nbody"),
        "Completed the network request (HTTP 200 OK). The response body is in Rust Trace."
    );
    assert_eq!(
        demo_result_summary("rust_other", "x"),
        "rust_other returned a result and it passed the basic verification."
    );
    assert!(demo_answer("x", &Vec::new()).starts_with("I understood the request."));
}

// ---- parts of answers ----

#[test]
fn assistant_parts_keep_text_and_tool_order_with_unicode_offsets() {
    let mut message = TaskMessage {
        id: "assistant-1".to_string(),
        task_id: "task-1".to_string(),
        role: "assistant".to_string(),
        content: String::new(),
        reasoning: String::new(),
        reasoning_opaque: None,
        created_at: 1,
        streaming: true,
        parts: Vec::new(),
        tool_calls: Vec::new(),
        tool_call_id: None,
        name: None,
        base64_image: None,
        attachments: Vec::new(),
    };

    apply_stream_event(&mut message, &StreamEvent::TextDelta("first".to_string()));
    apply_stream_event(
        &mut message,
        &StreamEvent::ToolCallDelta {
            index: 0,
            id: Some("call-1".to_string()),
            name: Some("rust_clock".to_string()),
            arguments: Some("{}".to_string()),
        },
    );
    apply_stream_event(&mut message, &StreamEvent::TextDelta("then".to_string()));

    assert_eq!(message.content, "firstthen");
    assert!(matches!(
        &message.parts[0],
        AssistantPart::Text {
            start: 0,
            end: 5,
            ..
        }
    ));
    assert!(matches!(
        &message.parts[1],
        AssistantPart::Tool { index: 0, call_id, name, .. }
            if call_id == "call-1" && name == "rust_clock"
    ));
    assert!(matches!(
        &message.parts[2],
        AssistantPart::Text {
            start: 5,
            end: 9,
            ..
        }
    ));
}

#[test]
fn assistant_parts_keep_reasoning_before_text() {
    let mut message = TaskMessage {
        id: "assistant-reasoning".to_string(),
        task_id: "task-1".to_string(),
        role: "assistant".to_string(),
        content: String::new(),
        reasoning: String::new(),
        reasoning_opaque: None,
        created_at: 1,
        streaming: true,
        parts: Vec::new(),
        tool_calls: Vec::new(),
        tool_call_id: None,
        name: None,
        base64_image: None,
        attachments: Vec::new(),
    };
    apply_stream_event(
        &mut message,
        &StreamEvent::ReasoningDelta("思考".to_string()),
    );
    apply_stream_event(&mut message, &StreamEvent::TextDelta("答案".to_string()));
    assert_eq!(message.reasoning, "思考");
    assert_eq!(message.content, "答案");
    assert!(matches!(
        message.parts[0],
        AssistantPart::Reasoning {
            start: 0,
            end: 2,
            ..
        }
    ));
    assert!(matches!(
        message.parts[1],
        AssistantPart::Text {
            start: 0,
            end: 2,
            ..
        }
    ));
}

#[test]
fn legacy_assistant_messages_get_compact_ordered_parts() {
    let mut message = TaskMessage::plain(
        "assistant-legacy".to_string(),
        "task-1",
        "assistant",
        "先检查".to_string(),
        1,
        false,
    );
    message.tool_calls = vec![call("call-1", "rust_clock", "{}")];

    ensure_assistant_parts(&mut message);
    assert!(matches!(
        &message.parts[0],
        AssistantPart::Text {
            start: 0,
            end: 3,
            ..
        }
    ));
    assert!(matches!(
        &message.parts[1],
        AssistantPart::Tool { index: 0, call_id, .. } if call_id == "call-1"
    ));
}

#[test]
fn parts_are_counted_in_units_of_utf16() {
    assert_eq!(utf16_len("a\u{1f600}\u{4e2d}"), 4);
    let mut m = message("m", "assistant", "", true);
    stream_event(&mut m, &StreamEvent::TextDelta(text("\u{1f600}")), "p1");
    stream_event(&mut m, &StreamEvent::TextDelta(text("x")), "p2");
    assert_eq!(m.parts, vec![AssistantPart::Text { id: text("p1"), start: 0, end: 3 }]);
}

#[test]
fn pieces_of_a_call_are_put_together() {
    let mut m = message("m", "assistant", "", true);
    let piece = |id: Option<&str>, name: Option<&str>| StreamEvent::ToolCallDelta {
        index: 2,
        id: id.map(text),
        name: name.map(text),
        arguments: None,
    };
    stream_event(&mut m, &piece(None, Some("rust_")), "p1");
    assert_eq!(
        m.parts,
        vec![AssistantPart::Tool {
            id: text("p1"),
            index: 2,
            call_id: text("stream:2"),
            name: text("rust_")
        }]
    );
    stream_event(&mut m, &piece(Some("call"), Some("clock")), "p2");
    stream_event(&mut m, &piece(Some("-7"), None), "p3");
    stream_event(&mut m, &piece(Some("-7"), None), "p4");
    assert_eq!(
        m.parts,
        vec![AssistantPart::Tool {
            id: text("p1"),
            index: 2,
            call_id: text("call-7"),
            name: text("rust_clock")
        }]
    );
}

#[test]
fn finished_calls_complete_their_parts() {
    let mut m = message("m", "assistant", "", true);
    stream_event(&mut m, &StreamEvent::TextDelta(text("hi")), "p1");
    stream_event(
        &mut m,
        &StreamEvent::ToolCallDelta { index: 0, id: None, name: Some(text("x")), arguments: None },
        "p2",
    );
    attach_tool_calls(&mut m, &vec![call("c0", "rust_a", "{}"), call("c1", "rust_b", "{}")]);
    assert_eq!(m.parts.len(), 3);
    assert_eq!(
        m.parts[1],
        AssistantPart::Tool { id: text("p2"), index: 0, call_id: text("c0"), name: text("rust_a") }
    );
    assert_eq!(
        m.parts[2],
        AssistantPart::Tool {
            id: text("m:tool:1"),
            index: 1,
            call_id: text("c1"),
            name: text("rust_b")
        }
    );
}

#[test]
fn opaque_thoughts_are_kept_and_empty_pieces_bring_nothing() {
    let mut m = message("m", "assistant", "", true);
    stream_event(&mut m, &StreamEvent::TextDelta(String::new()), "p1");
    stream_event(&mut m, &StreamEvent::ReasoningDelta(String::new()), "p1");
    assert!(m.parts.is_empty());
    stream_event(&mut m, &StreamEvent::ReasoningOpaque(text("signature")), "p1");
    assert_eq!(m.reasoning_opaque.as_deref(), Some("signature"));
}

// ---- memory ----

#[test]
fn reasoning_is_forwarded_in_assistant_context() {
    let mut thinking = entry("assistant-reasoning", "assistant", "answer", 1);
    thinking.reasoning = "thinking".to_string();
    let messages = memory_to_chat_messages(&[thinking]);
    assert_eq!(messages[0].reasoning_content.as_deref(), Some("thinking"));
    let value = chat_to_json(&messages[0]);
    assert_eq!(value.text("reasoning_content"), Some(&text("thinking")));
}

#[test]
fn reasoning_opaque_is_forwarded_without_becoming_visible_content() {
    let mut thinking = entry("assistant-copilot", "assistant", "", 1);
    thinking.reasoning = "thinking".to_string();
    thinking.reasoning_opaque = Some("signature".to_string());
    let messages = memory_to_chat_messages(&[thinking]);
    assert_eq!(messages[0].reasoning_opaque.as_deref(), Some("signature"));
    assert!(messages[0].content.is_none());
    let value = chat_to_json(&messages[0]);
    assert_eq!(value.text("reasoning_opaque"), Some(&text("signature")));
}

#[test]
fn interrupted_stream_placeholder_is_repaired_without_entering_context() {
    let mut task = Task {
        id: "task-1".to_string(),
        title: "Interrupted request".to_string(),
        prompt: "question".to_string(),
        workspace: String::new(),
        status: AgentStatus::Failed,
        created_at: 1,
        updated_at: 1,
        demo_mode: false,
        archived: false,
        agent_name: "RustPilot".to_string(),
        agent_kind: "manus".to_string(),
        messages: vec![
            message("user-1", "user", "question", false),
            TaskMessage::plain(
                "assistant-placeholder".to_string(),
                "task-1",
                "assistant",
                String::new(),
                2,
                true,
            ),
        ],
        memory: Vec::new(),
        plans: Vec::new(),
        active_plan_id: None,
        steps: Vec::new(),
        tool_calls: Vec::new(),
        approval_requests: Vec::new(),
        final_answer: None,
        error: Some("interrupted".to_string()),
        event_seq: 0,
        persistence_revision: 0,
    };

    assert!(repair_task_record(&mut task, "/work"));
    assert!(!task.messages[1].streaming);
    assert_eq!(task.memory.len(), 1);
    assert_eq!(task.memory[0].id, "user-1");
    assert_eq!(task.workspace, "/work");
    assert_eq!(task.persistence_revision, 1);
    assert!(!repair_task_record(&mut task, "/work"));
}

#[test]
fn context_repairs_legacy_ui_tool_ids_to_model_ids() {
    let call = MessageToolCall {
        id: "call-model-1".to_string(),
        call_type: "function".to_string(),
        function: FunctionCall {
            name: "rust_clock".to_string(),
            arguments: "{}".to_string(),
        },
    };
    let entries = vec![
        AgentMemoryEntry {
            id: "assistant-1".to_string(),
            role: "assistant".to_string(),
            content: String::new(),
            reasoning: String::new(),
            reasoning_opaque: None,
            created_at: 1,
            tool_call_id: None,
            tool_names: vec!["rust_clock".to_string()],
            tool_calls: vec![call.clone()],
            name: None,
            base64_image: None,
            attachments: Vec::new(),
        },
        AgentMemoryEntry {
            id: "tool-1".to_string(),
            role: "tool".to_string(),
            content: "12:00".to_string(),
            reasoning: String::new(),
            reasoning_opaque: None,
            created_at: 2,
            tool_call_id: Some("tool-ui-1".to_string()),
            tool_names: vec!["rust_clock".to_string()],
            tool_calls: Vec::new(),
            name: None,
            base64_image: None,
            attachments: Vec::new(),
        },
    ];

    let (normalized, changed) = normalize_memory_for_context(&entries);
    assert!(changed);
    assert_eq!(normalized[1].tool_call_id.as_deref(), Some("call-model-1"));
    validate_chat_message_context(&memory_to_chat_messages(&normalized))
        .expect("repaired history should be valid for the model");
    assert_eq!(normalized[1].content, "12:00");
    assert_eq!(normalized[0].tool_calls, vec![call]);
}

#[test]
fn context_inserts_a_truthful_result_for_an_interrupted_tool_call() {
    let entries = vec![
        AgentMemoryEntry {
            id: "assistant-1".to_string(),
            role: "assistant".to_string(),
            content: String::new(),
            reasoning: String::new(),
            reasoning_opaque: None,
            created_at: 1,
            tool_call_id: None,
            tool_names: Vec::new(),
            tool_calls: vec![MessageToolCall {
                id: "call-missing".to_string(),
                call_type: "function".to_string(),
                function: FunctionCall {
                    name: "rust_shell".to_string(),
                    arguments: "{\"command\":\"pwd\"}".to_string(),
                },
            }],
            name: None,
            base64_image: None,
            attachments: Vec::new(),
        },
        AgentMemoryEntry {
            id: "user-2".to_string(),
            role: "user".to_string(),
            content: "缁х画".to_string(),
            reasoning: String::new(),
            reasoning_opaque: None,
            created_at: 2,
            tool_call_id: None,
            tool_names: Vec::new(),
            tool_calls: Vec::new(),
            name: None,
            base64_image: None,
            attachments: Vec::new(),
        },
    ];

    let (normalized, changed) = normalize_memory_for_context(&entries);
    assert!(changed);
    assert_eq!(normalized.len(), 3);
    assert_eq!(normalized[1].role, "tool");
    assert_eq!(normalized[1].tool_call_id.as_deref(), Some("call-missing"));
    assert!(normalized[1].content.contains("No result was recorded"));
    validate_chat_message_context(&memory_to_chat_messages(&normalized))
        .expect("interrupted history should be made replayable");
}

#[test]
fn context_budget_keeps_assistant_and_tool_messages_together() {
    let mut new_assistant = entry("new-assistant", "assistant", "", 4);
    new_assistant.tool_calls = vec![call("call-new", "rust_clock", "{}")];
    let mut new_tool = entry("new-tool", "tool", "now", 5);
    new_tool.tool_call_id = Some("call-new".to_string());
    new_tool.tool_names = vec!["rust_clock".to_string()];
    new_tool.name = Some("rust_clock".to_string());
    let mut entries = vec![
        entry("old-user", "user", "old", 1),
        entry("old-assistant", "assistant", "done", 2),
        entry("new-user", "user", "new", 3),
        new_assistant,
        new_tool,
    ];

    trim_memory_to_budget(&mut entries, 3);
    assert_eq!(
        entries
            .iter()
            .map(|entry| entry.role.as_str())
            .collect::<Vec<_>>(),
        vec!["user", "assistant", "tool"]
    );
    validate_chat_message_context(&memory_to_chat_messages(&entries))
        .expect("bounded history should remain protocol-valid");
}

#[test]
fn shortening_keeps_calls_with_their_results() {
    let roles = ["user", "assistant", "tool", "tool", "assistant", "tool", "assistant"];
    let all: Vec<AgentMemoryEntry> = roles
        .iter()
        .enumerate()
        .map(|(i, role)| AgentMemoryEntry::plain(format!("m{i}"), role, text("x"), 1))
        .collect();
    let kept = |limit: usize| {
        let mut entries = all.clone();
        trim_memory_to_budget(&mut entries, limit);
        entries.iter().map(|entry| entry.id.clone()).collect::<Vec<_>>()
    };
    assert_eq!(kept(7).len(), 7);
    assert_eq!(kept(6), ["m0", "m4", "m5", "m6"]);
    assert_eq!(kept(4), ["m0", "m4", "m5", "m6"]);
    assert_eq!(kept(3), ["m0", "m6"]);
    assert_eq!(kept(1), ["m0"]);
    assert!(kept(0).is_empty());
}

#[test]
fn broken_conversations_are_refused() {
    let mut asks = make_text_message("assistant", "");
    asks.tool_calls = Some(vec![call("c1", "rust_a", "{}")]);
    let mut answer = make_text_message("tool", "x");
    answer.tool_call_id = Some(text("c1"));
    let mut stray = make_text_message("tool", "x");
    stray.tool_call_id = Some(text("c9"));
    let user = make_text_message("user", "hi");

    let error = |messages: Vec<rustpilot::chat::ChatMessage>| {
        validate_chat_message_context(&messages).unwrap_err()
    };
    let mut twice = make_text_message("assistant", "");
    twice.tool_calls = Some(vec![call("c1", "rust_a", "{}"), call("c1", "rust_a", "{}")]);
    assert!(error(vec![twice]).contains("empty or duplicated"));
    assert!(error(vec![make_text_message("tool", "x")]).contains("has no tool_call_id"));
    assert!(error(vec![stray]).contains("`c9` has no matching"));
    assert!(error(vec![make_text_message("critic", "x")]).contains("unsupported message role"));
    let mut waiting = make_text_message("assistant", "");
    waiting.tool_calls = Some(vec![call("c1", "rust_a", "{}")]);
    assert!(error(vec![waiting]).contains("last assistant tool call has no result"));
    let mut early = make_text_message("assistant", "");
    early.tool_calls = Some(vec![call("c1", "rust_a", "{}")]);
    assert!(error(vec![early, user]).contains("a tool response is missing"));
    assert!(validate_chat_message_context(&[asks, answer]).is_ok());
}

#[test]
fn messages_become_memory_without_empty_answers() {
    let mut tool = message("t", "tool", "out", false);
    tool.name = Some(text("rust_a"));
    tool.tool_call_id = Some(text("c1"));
    let mut asks = message("a2", "assistant", "", false);
    asks.tool_calls = vec![call("c1", "rust_a", "{}")];
    let memory = memory_from_task_messages(&vec![
        message("u", "user", "hi", false),
        message("a1", "assistant", "  ", false),
        asks,
        tool,
        message("s", "system", "note", false),
    ]);
    let ids: Vec<&str> = memory.iter().map(|e| e.id.as_str()).collect();
    assert_eq!(ids, vec!["u", "a2", "t"]);
    assert_eq!(memory[2].tool_names, vec![text("rust_a")]);
}

#[test]
fn messages_fill_in_results_that_the_memory_lacks() {
    let mut t = task("task-1");
    let mut asks = entry("a", "assistant", "", 2);
    asks.tool_calls = vec![call("c1", "rust_a", "{}")];
    t.memory = vec![entry("u", "user", "question", 1), asks];
    let mut said = message("a", "assistant", "", false);
    said.tool_calls = vec![call("c1", "rust_a", "{}")];
    let mut result = message("r", "tool", "found", false);
    result.tool_call_id = Some(text("c1"));
    t.messages.push(said);
    t.messages.push(result);
    assert!(repair_task_record(&mut t, "/work"));
    assert_eq!(t.memory.last().map(|e| e.content.as_str()), Some("found"));
}

// ---- runs ----

#[test]
fn a_run_goes_from_the_request_over_a_tool_to_the_answer() {
    let mut t = task("task-1");
    let mut run = AgentRun::begin(&mut t, "/work", 5, &plan_ids(), "step-0", 10);
    assert_eq!(run.messages.len(), 3);
    assert_eq!(t.plans.len(), 1);
    assert_eq!(t.plans[0].steps[0].status, PlanStepStatus::InProgress);
    assert_eq!(t.steps.len(), 1);
    assert_eq!(t.steps[0].phase, StepPhase::Plan);

    run.begin_round(&mut t, false, "unused", 11).expect("the first round should begin");
    assert_eq!(t.status, AgentStatus::Planning);
    let asked = completion("m1", "Looking.", vec![call("c1", "rust_clock", "{\"a\":1}")]);
    let turn = run.take_reply(&mut t, &asked, &reply_ids(1), 12).expect("tools are asked for");
    let calls = match turn {
        Turn::Act(calls) => calls,
        Turn::Answer(_) => panic!("a tool was asked for"),
    };
    assert_eq!(calls.len(), 1);
    assert_eq!(t.status, AgentStatus::Executing);
    assert_eq!(t.steps[0].status, StepStatus::Completed);
    assert_eq!(t.steps[0].detail.as_deref(), Some("1 tool call requested."));

    let invocation = invocation_of(&calls[0]);
    assert_eq!(invocation.arguments.get("a").and_then(|v| v.as_u64()), Some(1));
    let arguments = t.begin_tool(&invocation, &call_ids(1), &Vec::new(), 13);
    assert_eq!(arguments.text(INTERNAL_WORKSPACE_ARGUMENT), Some(&text("/work")));
    let result = t
        .conclude_tool(&invocation, &call_ids(1), &ToolOutcome::Done(text("12:00")), 15)
        .expect("the tool ran");
    assert_eq!(result.duration_ms, Some(2));
    run.take_result(&calls[0], &invocation.arguments, &result);
    assert_eq!(t.memory.last().and_then(|e| e.tool_call_id.as_deref()), Some("c1"));
    assert_eq!(t.messages.last().map(|m| m.content.as_str()), Some("rust_clock completed:\n12:00"));

    let ended = run.end_round(&mut t, "act-1", "/work", 16).expect("the round should end");
    assert_eq!(ended, None);
    validate_chat_message_context(&run.messages).expect("the next request keeps the rule");

    run.begin_round(&mut t, false, "step-1", 17).expect("the second round should begin");
    assert_eq!(t.status, AgentStatus::Verifying);
    let answer = completion("m2", "It is noon.", Vec::new());
    match run.take_reply(&mut t, &answer, &reply_ids(2), 18) {
        Ok(Turn::Answer(text)) => assert_eq!(text, "It is noon."),
        _ => panic!("the run should have its answer"),
    }
    let end = finish_run(&mut t, Ok(text("It is noon.")), false, "end", 19);
    assert_eq!(end, RunEnd::Completed(text("It is noon.")));
    assert_eq!(t.status, AgentStatus::Completed);
    assert_eq!(t.final_answer.as_deref(), Some("It is noon."));
    assert!(t.plans[0].steps.iter().all(|s| s.status == PlanStepStatus::Completed));
}

#[test]
fn repeated_calls_stop_a_run() {
    let mut t = task("task-1");
    let mut run = AgentRun::begin(&mut t, "/work", 9, &plan_ids(), "step-0", 1);
    let same = || completion("m1", "again", vec![call("c1", "rust_clock", "{}")]);
    assert!(run.take_reply(&mut t, &same(), &reply_ids(1), 1).is_ok());
    assert!(run.take_reply(&mut t, &same(), &reply_ids(2), 1).is_ok());
    match run.take_reply(&mut t, &same(), &reply_ids(3), 1) {
        Err(AgentError::Message(message)) => assert!(message.contains("repeated tool-call")),
        _ => panic!("the third time should stop the run"),
    }
}

#[test]
fn replies_without_anything_stop_a_run() {
    let mut t = task("task-1");
    let mut run = AgentRun::begin(&mut t, "/work", 9, &plan_ids(), "step-0", 1);
    let void = completion("m1", " ", vec![call(" ", "rust_clock", "{}")]);
    match run.take_reply(&mut t, &void, &reply_ids(1), 1) {
        Err(AgentError::Message(message)) => {
            assert_eq!(
                message,
                "The model returned a tool call without a valid id or function name."
            )
        }
        _ => panic!("nothing can be done"),
    }
    match run.take_reply(&mut t, &completion("m2", "", Vec::new()), &reply_ids(2), 1) {
        Ok(Turn::Answer(answer)) => {
            assert_eq!(answer, "The model completed the run without a streamed final message.");
            assert_eq!(t.messages.last().map(|m| m.content.clone()), Some(answer));
        }
        _ => panic!("the run is over"),
    }
}

#[test]
fn runs_end_at_their_limit_and_when_they_are_cancelled() {
    let mut t = task("task-1");
    let mut run = AgentRun::begin(&mut t, "/work", 1, &plan_ids(), "step-0", 1);
    assert_eq!(run.begin_round(&mut t, true, "s", 1), Err(AgentError::Cancelled));
    assert!(run.begin_round(&mut t, false, "s", 1).is_ok());
    t.add_step(text("act"), StepPhase::Act, "Act", None, 1);
    assert_eq!(run.end_round(&mut t, "act", "/work", 2), Ok(None));
    assert_eq!(
        run.begin_round(&mut t, false, "s", 3),
        Err(AgentError::Message(text(
            "The agent reached the maximum of 1 steps before a final answer."
        )))
    );
    let end = finish_run(&mut t, Ok(text("late")), true, "end", 4);
    assert_eq!(end, RunEnd::Cancelled);
    assert_eq!(t.status, AgentStatus::Cancelled);
    assert!(t.steps.iter().all(|s| s.status != StepStatus::Running));
}

#[test]
fn the_agent_can_end_a_run_itself() {
    let mut t = task("task-1");
    let mut run = AgentRun::begin(&mut t, "/work", 3, &plan_ids(), "step-0", 1);
    let result = |output: Option<&str>| ToolResult {
        id: text("r"),
        task_id: text("task-1"),
        tool_call_id: text("c"),
        status: ToolCallStatus::Completed,
        output: output.map(text),
        error: None,
        duration_ms: None,
    };
    let end = call("c1", "rust_terminate", "{}");
    let success = Json::object1("status", Json::string("success"));
    run.take_result(&end, &success, &result(Some("done")));
    t.add_step(text("act"), StepPhase::Act, "Act", None, 1);
    assert_eq!(run.end_round(&mut t, "act", "/work", 2), Ok(Some(text("done"))));

    let mut failed = AgentRun::begin(&mut t, "/work", 3, &plan_ids(), "step-1", 3);
    let failure = Json::object1("status", Json::string("failure"));
    failed.take_result(&end, &failure, &result(Some("done")));
    assert_eq!(
        failed.end_round(&mut t, "act", "/work", 4),
        Err(AgentError::Message(text("The agent terminated with failure.")))
    );
}

#[test]
fn failed_runs_leave_a_message_and_no_running_step() {
    let mut t = task("task-1");
    t.add_step(text("s1"), StepPhase::Act, "Act", None, 5);
    let end = finish_run(&mut t, Err(AgentError::Message(text("no network"))), false, "end", 9);
    assert_eq!(end, RunEnd::Failed(text("no network")));
    assert_eq!(t.error.as_deref(), Some("no network"));
    assert_eq!(t.messages.last().map(|m| m.content.as_str()), Some("Agent failed: no network"));
    assert_eq!(t.steps[0].status, StepStatus::Failed);
    assert_eq!(t.steps[0].duration_ms, Some(4));
}

// ---- tools in a run ----

#[test]
fn every_outcome_of_a_tool_is_recorded() {
    let outcomes = vec![
        (ToolOutcome::ApprovalCancelled, ToolCallStatus::Cancelled, false),
        (ToolOutcome::ApprovalFailed(text("x")), ToolCallStatus::Failed, false),
        (ToolOutcome::Declined, ToolCallStatus::Failed, true),
        (ToolOutcome::Expired, ToolCallStatus::Failed, true),
        (ToolOutcome::Done(text("out")), ToolCallStatus::Completed, true),
        (ToolOutcome::Cancelled, ToolCallStatus::Cancelled, false),
        (ToolOutcome::Failed(text("bad")), ToolCallStatus::Failed, true),
    ];
    for (outcome, status, goes_on) in outcomes {
        let mut t = task("task-1");
        let invocation = ToolInvocation {
            model_tool_call_id: Some(text("model-1")),
            name: text("rust_a"),
            arguments: Json::Null,
        };
        t.begin_tool(&invocation, &call_ids(1), &Vec::new(), 3);
        let result = t.conclude_tool(&invocation, &call_ids(1), &outcome, 4);
        assert_eq!(result.is_ok(), goes_on);
        assert_eq!(t.tool_calls[0].status, status);
        assert_eq!(t.memory.last().and_then(|e| e.tool_call_id.as_deref()), Some("model-1"));
    }
    let mut t = task("task-1");
    let invocation =
        ToolInvocation { model_tool_call_id: None, name: text("rust_a"), arguments: Json::Null };
    assert_eq!(
        t.conclude_tool(&invocation, &call_ids(1), &ToolOutcome::Declined, 1),
        Err(AgentError::Message(text("Tool call not found")))
    );
}

#[test]
fn the_user_is_asked_and_answers() {
    let mut t = task("task-1");
    t.ask_approval(
        text("approval-1"),
        "rust_shell",
        text("why"),
        text("what"),
        Some((text("run"), text("echo *"))),
        5,
    );
    assert_eq!(t.status, AgentStatus::WaitingApproval);
    assert_eq!(t.approval_requests[0].status, "pending");
    let rule = remembered_rule(&t, "approval-1").expect("the answer can be remembered");
    assert_eq!((rule.action.as_str(), rule.resource.as_str()), ("run", "echo *"));
    assert_eq!(remembered_rule(&t, "approval-2"), None);
    t.answer_approval("approval-1", ApprovalOutcome::Expired, 6);
    assert_eq!(t.approval_requests[0].status, "expired");
    assert_eq!(t.status, AgentStatus::Executing);

    assert_eq!(approval_outcome(true, Some(true)), ApprovalOutcome::Approved);
    assert_eq!(approval_outcome(true, Some(false)), ApprovalOutcome::Rejected);
    assert_eq!(approval_outcome(true, None), ApprovalOutcome::Rejected);
    assert_eq!(approval_outcome(false, Some(true)), ApprovalOutcome::Expired);
    assert_eq!(after_approval(ApprovalOutcome::Approved), None);
    assert_eq!(after_approval(ApprovalOutcome::Rejected), Some(ToolOutcome::Declined));
    assert!(external_path_approved(true, true, ApprovalOutcome::Approved));
    assert!(!external_path_approved(true, true, ApprovalOutcome::Rejected));
    assert!(external_path_approved(true, false, ApprovalOutcome::Rejected));
}

#[test]
fn tools_are_run_within_their_limits() {
    assert!(check_tool_name("rust_files").is_ok());
    assert_eq!(
        check_tool_name("files"),
        Err(text("Tool names must use the rust_ prefix."))
    );
    assert_eq!(run_outcome("rust_a", true, None, 9), ToolOutcome::Cancelled);
    assert_eq!(
        run_outcome("rust_a", false, None, 500),
        ToolOutcome::Failed(text("rust_a timed out after 120s"))
    );
    assert_eq!(
        run_outcome("rust_a", false, Some(Err(text("no"))), 9),
        ToolOutcome::Failed(text("no"))
    );
    let arguments = Json::object1("command", Json::string("ls"));
    let judged = policy_arguments("rust_bash", &arguments, &Some(text("/tmp")));
    assert_eq!(judged.text("cwd"), Some(&text("/tmp")));
    assert_eq!(policy_arguments("rust_files", &arguments, &Some(text("/tmp"))), arguments);
}

#[test]
fn tools_work_in_the_directory_of_the_task() {
    let forged = Json::object1(INTERNAL_WORKSPACE_ARGUMENT, Json::string("/elsewhere"));
    let arguments = with_task_workspace(&forged, "/work", &vec![text("/data/a.bin")]);
    assert_eq!(workspace_for_arguments(&arguments), Some(text("/work")));
    assert_eq!(
        arguments.items("_rustpilot_attachment_read_paths").map(|items| items.len()),
        Some(1)
    );
    let again = with_task_workspace(&arguments, "/other", &Vec::new());
    assert_eq!(workspace_for_arguments(&again), Some(text("/other")));
    assert!(again.get("_rustpilot_attachment_read_paths").is_none());
    assert_eq!(workspace_for_arguments(&Json::Null), None);
}

// ---- files in messages ----

fn file(id: &str, name: &str, mime: &str, size: u64) -> AttachmentRef {
    AttachmentRef {
        id: text(id),
        name: text(name),
        mime: text(mime),
        size,
        storage_key: format!("attachments/task-1/{id}.bin"),
    }
}

#[test]
fn text_files_are_told_in_the_text_of_a_message() {
    let mut m = make_text_message("user", "see");
    m.attachments = vec![file("att_1", "a.txt", "text/plain", 5)];
    assert!(check_message_files(&m, false).is_ok());
    let reads = vec![ReadFile { bytes: b"h\xffllo".to_vec(), path: text("/data/a") }];
    let value = chat_message_value(&m, &reads);
    assert_eq!(
        value.text("content"),
        Some(&text(
            "see\n\n[Attached file: a.txt | text/plain | 5 bytes]\nh\u{fffd}llo\n[Full attachment path: /data/a]"
        ))
    );
    let other = attachment_prompt_text(
        &file("att_2", "a.zip", "application/zip", 2),
        b"PK",
        "/data/z",
    );
    assert_eq!(
        other,
        "[Attached file: a.zip | application/zip | 2 bytes]\nThis file is stored locally at /data/z. Use the file tools if you need to inspect its raw contents."
    );
}

#[test]
fn pictures_are_parts_of_the_content() {
    let mut m = make_text_message("user", "see");
    m.attachments = vec![file("att_1", "a.png", "image/png", 3)];
    assert!(check_message_files(&m, true).is_ok());
    assert_eq!(
        check_message_files(&m, false),
        Err(text("The configured model does not support image attachments. Remove a.png or choose a vision model."))
    );
    let reads = vec![ReadFile { bytes: b"Man".to_vec(), path: text("/data/a") }];
    let value = chat_message_value(&m, &reads);
    let parts = value.items("content").expect("content should be a list");
    assert_eq!(parts[0].text("text"), Some(&text("see")));
    assert_eq!(
        parts[1].get("image_url").and_then(|u| u.text("url")),
        Some(&text("data:image/png;base64,TWFu"))
    );
    let mut wrong = make_text_message("assistant", "x");
    wrong.attachments = vec![file("att_1", "a.txt", "text/plain", 1)];
    assert_eq!(
        check_message_files(&wrong, true),
        Err(text("Only user messages can contain attachments."))
    );
}

#[test]
fn long_text_files_are_cut() {
    let bytes = vec![b'x'; 245761];
    let told = attachment_prompt_text(&file("att_1", "a.md", "", 245761), &bytes, "/p");
    assert!(told.contains("\n[attachment text truncated]\n"));
    let exact = vec![b'x'; 245760];
    let whole = attachment_prompt_text(&file("att_1", "a.md", "", 245760), &exact, "/p");
    assert!(!whole.contains("truncated"));
}

// ---- the life of a task ----

#[test]
fn requests_are_checked() {
    assert_eq!(check_request("  hi ", 0, true), Ok(text("hi")));
    assert_eq!(
        check_request("  ", 0, true),
        Err(text("Add a prompt or attach at least one file."))
    );
    assert_eq!(check_request("  ", 1, true), Ok(String::new()));
    assert_eq!(
        check_request("hi", 0, false),
        Err(text("Configure an API key in Settings before sending a task."))
    );
    assert!(check_continue(false, false).is_ok());
    assert_eq!(
        check_continue(true, true),
        Err(text("Wait for the current task to finish before sending another message."))
    );
    assert_eq!(
        check_continue(false, true),
        Err(text("Restore the archived task before continuing the conversation."))
    );
    assert_eq!(check_retry(true, true), Err(text("Stop the running task before retrying.")));
    assert!(check_retry(false, false).is_err());
    assert_eq!(
        check_idle(true, "archiving"),
        Err(text("Stop the running task before archiving it."))
    );
    let picture = vec![file("att_1", "a.png", "image/png", 3)];
    assert!(check_images(&picture, "m", true).is_ok());
    assert!(check_images(&picture, "m", false).unwrap_err().ends_with("Current model: m"));
}

#[test]
fn continued_tasks_keep_the_rule_of_a_conversation() {
    let mut t = task("task-1");
    let mut asks = entry("a", "assistant", "", 2);
    asks.tool_calls = vec![call("c1", "rust_a", "{}")];
    t.memory.push(asks);
    t.messages.clear();
    t.status = AgentStatus::Failed;
    t.error = Some(text("x"));
    let ids = TaskIds { task: text("task-1"), message: text("msg-2"), memory: text("memory-2") };
    t.continue_with("/work", &ids, "go on", &Vec::new(), 9);
    assert_eq!(t.status, AgentStatus::Idle);
    assert_eq!(t.error, None);
    let roles: Vec<&str> = t.memory.iter().map(|e| e.role.as_str()).collect();
    assert_eq!(roles, vec!["user", "assistant", "tool", "user"]);
    validate_chat_message_context(&memory_to_chat_messages(&t.memory))
        .expect("the conversation keeps the rule");
}

#[test]
fn retried_tasks_begin_anew() {
    let files = vec![file("att_1", "a.txt", "text/plain", 1)];
    let ids = TaskIds { task: text("task-1"), message: text("msg-1"), memory: text("memory-1") };
    let mut t = new_task(&ids, "question", "/work", "RustPilot", &files, 1);
    t.add_step(text("s"), StepPhase::Act, "Act", None, 2);
    t.set_archived(true, 3);
    let retry = TaskIds { task: text("task-1"), message: text("msg-2"), memory: text("memory-2") };
    let message = t.retry(&retry, "Trying again.", 4);
    assert_eq!(message.content, "Trying again.");
    assert_eq!(t.messages.last().map(|m| m.content.clone()), Some(message.content));
    assert!(t.steps.is_empty() && !t.archived);
    assert_eq!(t.memory.len(), 1);
    assert_eq!(t.memory[0].attachments, files);
    assert_eq!(t.messages.len(), 2);
}

#[test]
fn archiving_changes_the_summary_and_the_revision() {
    let mut t = task("task-1");
    let away = t.set_archived(true, 7);
    assert!(away.archived);
    assert_eq!((away.updated_at, t.persistence_revision), (7, 2));
    assert_eq!(t.delete_revision(), 3);
    assert!(!t.set_archived(false, 8).archived);
    assert_eq!(t.snapshot(Some(9)).event_seq, 9);
    assert_eq!(t.snapshot(None).event_seq, 0);
}

#[test]
fn lists_show_the_latest_first() {
    let mut a = task("a");
    let mut b = task("b");
    let mut c = task("c");
    a.touch(5);
    b.touch(9);
    c.touch(7);
    c.archived = true;
    let tasks = vec![a, b, c];
    let open: Vec<String> = task_summaries(&tasks, false).into_iter().map(|s| s.id).collect();
    assert_eq!(open, vec![text("b"), text("a")]);
    assert_eq!(task_summaries(&tasks, true).len(), 1);
    assert_eq!(recent_workspaces(&tasks, &vec![true, false, true]).len(), 2);
}

#[test]
fn tasks_at_work_are_ended_at_the_start() {
    let mut a = task("a");
    a.status = AgentStatus::Verifying;
    let b = task("b");
    let mut tasks = vec![a, b];
    let ids = restore_tasks(&mut tasks, &vec![text("/work"), text("/work")], 9);
    assert_eq!(ids, vec![text("a")]);
    assert_eq!(tasks[0].status, AgentStatus::Failed);
    assert_eq!(
        tasks[0].error.as_deref(),
        Some("The task was interrupted before the app closed.")
    );
    assert_eq!(tasks[1].status, AgentStatus::Idle);
    assert!(!interrupt_task(&mut tasks[0], 10));
}

#[test]
fn streams_grow_and_end() {
    let mut t = task("task-1");
    t.append_stream_event("m9", &StreamEvent::TextDelta(text("hel")), "p1", 5);
    t.append_stream_event("m9", &StreamEvent::TextDelta(text("lo")), "p2", 6);
    t.append_stream_event("m9", &StreamEvent::TextDelta(String::new()), "p3", 7);
    assert_eq!(t.persistence_revision, 3);
    let done = t.finish_stream_message("m9").expect("the message is there");
    assert_eq!(done.content, "hello");
    assert!(!done.streaming);
    assert_eq!(t.finish_stream_message("m8"), None);
    t.attach_tool_calls_to_last_message("m9", &vec![call("c1", "rust_a", "{}")], 8);
    assert_eq!(t.messages.last().map(|m| m.parts.len()), Some(2));
}

#[test]
fn missing_steps_and_calls_are_reported() {
    let mut t = task("task-1");
    assert_eq!(
        t.finish_step("none", StepStatus::Completed, None, 1),
        Err(text("Step not found"))
    );
    assert_eq!(
        t.finish_tool_call(text("r"), "none", ToolCallStatus::Failed, None, None, 1),
        Err(text("Tool call not found"))
    );
    assert_eq!(t.update_approval_status("none", "approved", 1), None);
    assert_eq!(t.current_plan(), None);
    t.ensure_default_plan(&plan_ids(), 2);
    assert_eq!(t.current_plan().map(|p| p.title), Some(text("RustPilot execution plan")));
    t.set_plan_step_status(9, PlanStepStatus::Blocked, None, 3);
    assert_eq!(t.updated_at, 2);
}

#[test]
fn other_agents_hear_of_the_end() {
    let mut t = task("task-1");
    assert_eq!(agent_reply(&t), None);
    t.set_status(AgentStatus::Completed, None, 1);
    assert_eq!(agent_reply(&t), Some(Ok(String::new())));
    t.set_status(AgentStatus::Failed, None, 1);
    assert_eq!(agent_reply(&t), Some(Err(text("A2A task failed."))));
    t.set_status(AgentStatus::Cancelled, None, 1);
    assert_eq!(agent_reply(&t), Some(Err(text("A2A task cancelled."))));
}

#[test]
fn pictures_can_be_previewed() {
    let mut m = message("m", "user", "see", false);
    m.attachments =
        vec![file("att_1", "a.png", "image/png", 3), file("att_2", "a.txt", "text/plain", 1)];
    let messages = vec![m];
    let found = preview_file(&messages, "att_1").expect("the picture is there");
    assert_eq!(preview(&found, b"Man").data_url, "data:image/png;base64,TWFu");
    assert_eq!(
        preview_file(&messages, "att_2"),
        Err(text("Only image attachments can be previewed."))
    );
    assert_eq!(preview_file(&messages, "att_3"), Err(text("Attachment not found.")));
}

// ---- settings ----

#[test]
fn settings_come_from_the_disk_the_environment_and_the_user() {
    let mut settings = default_settings();
    settings.apply_persisted(&PersistedSettings {
        api_base_url: Some(text(" ")),
        model: Some(text("kept")),
        max_steps: Some(0),
        timeout_secs: Some(1000),
        prompt_cache: None,
        approval_mode: Some(ApprovalMode::Named(text("open"))),
        approval_rules: vec![ApprovalRule {
            workspace: text("/w"),
            action: text("write"),
            resource: text("*"),
        }],
    });
    assert_eq!(settings.approval_mode, ApprovalMode::Named(text("open")));
    assert_eq!(settings.view_for_user().remembered_approvals, 1);
    assert_eq!(settings.api_base_url, "https://api.openai.com/v1");
    assert_eq!((settings.model.as_str(), settings.max_steps), ("kept", 1));
    assert_eq!(settings.timeout_secs, 120);
    settings.apply_environment(&SettingsEnvironment {
        api_base_url: Some(text(" https://x.test/v1// ")),
        model: None,
        prompt_cache: None,
        api_key: Some(text("  ")),
        openai_api_key: Some(text(" key ")),
    });
    assert_eq!(settings.api_base_url, "https://x.test/v1");
    assert_eq!(settings.api_key.as_deref(), Some("key"));
    settings.update(&SettingsInput {
        api_base_url: String::new(),
        model: text(" new "),
        api_key: Some(text(" ")),
        max_steps: Some(7),
        timeout_secs: Some(1),
        prompt_cache: None,
        approval_mode: Some(ApprovalMode::Guarded),
        clear_approval_rules: true,
    });
    assert_eq!(settings.approval_mode, ApprovalMode::Guarded);
    assert!(settings.persisted().approval_rules.is_empty());
    settings.remember(ApprovalRule {
        workspace: text("/w"),
        action: text("read"),
        resource: text("a"),
    });
    assert_eq!(settings.approval_rules.len(), 1);
    assert_eq!(settings.api_base_url, "https://x.test/v1");
    assert_eq!((settings.model.as_str(), settings.max_steps, settings.timeout_secs), ("new", 7, 5));
    assert_eq!(settings.api_key, None);
    assert!(settings.view_for_user().demo_mode);
    assert_eq!(settings.persisted().model.as_deref(), Some("new"));
    assert_eq!(session_id("task-1"), "rustpilot:task-1");
}

#[test]
fn projects_count_their_tasks() {
    let project = |key: &str| KeyedProject {
        key: text(key),
        name: text("p"),
        record: ProjectRecord { directory: text(key), created_at: 1, updated_at: 2 },
    };
    let keys = vec![text("/a"), text("/b"), text("/a")];
    let projects = vec![project("/a"), project("/c")];
    let summaries = project_summaries(&projects, &keys);
    assert_eq!(summaries[0].task_count, 2);
    assert_eq!(summaries[1].task_count, 0);
    assert_eq!(project_task_count(&keys, "/b"), 1);
    assert_eq!(opened_project(&projects, "/a", &keys).map(|s| s.id), Ok(text("/a")));
    assert_eq!(
        opened_project(&projects, "/x", &keys),
        Err(text("Project was not recorded after opening."))
    );
}

#[test]
fn models_are_asked_by_a_tool() {
    let arguments = Json::parse("{\"messages\":[1],\"response_format\":{}}").expect("JSON");
    let (messages, format) = completion_request(&arguments).expect("there are messages");
    assert_eq!(messages, vec![Json::number(1)]);
    assert!(format.is_some());
    assert_eq!(
        completion_request(&Json::Null),
        Err(text("messages is required for rust_create_chat_completion"))
    );
    assert_eq!(completion_text("hi", &Vec::new()), "hi");
    assert_eq!(completion_text(" ", &Vec::new()), "[]");
}

#[test]
fn demo_runs_go_from_the_plan_to_the_answer() {
    let mut t = task("task-1");
    t.prompt = text("what time is it");
    let calls = t.demo_begin(&plan_ids(), "plan", "act", 2).expect("the run begins");
    assert_eq!(calls.len(), 1);
    assert_eq!(t.status, AgentStatus::Executing);
    let missing = t.clone().demo_verify("other", "verify", &Vec::new(), 3);
    assert_eq!(missing, Err(AgentError::Message(text("Step not found"))));
    let answer = t.demo_verify("act", "verify", &Vec::new(), 3).expect("the step is there");
    assert_eq!(t.status, AgentStatus::Verifying);
    assert_eq!(demo_chunks(&answer).concat(), answer);
    assert!(t.clone().demo_end("other", "memory-9", &answer, &Vec::new(), 4).is_err());
    t.demo_end("verify", "memory-9", &answer, &Vec::new(), 4).expect("the step is there");
    assert!(t.plans[0].steps.iter().all(|s| s.status == PlanStepStatus::Completed));
    assert_eq!(t.memory.last().map(|e| e.content.clone()), Some(answer));
    let mut t = task("task-1");
    t.prompt = text("please Fail");
    assert!(t.demo_begin(&plan_ids(), "plan", "act", 2).is_err());
    assert_eq!(t.plans[0].steps[0].status, PlanStepStatus::Blocked);
    assert_eq!(demo_chunks("abcde"), vec![text("abcd"), text("e")]);
}

#[test]
fn conversations_go_on_with_all_that_was_said() {
    let mut t = task("task-1");
    t.memory.push(entry("a", "assistant", "an answer", 2));
    let ids = TaskIds { task: text("task-1"), message: text("msg-2"), memory: text("memory-2") };
    t.continue_with("/work", &ids, "and then?", &Vec::new(), 9);
    let said: Vec<&str> = t.memory.iter().map(|e| e.content.as_str()).collect();
    assert_eq!(said, vec!["question", "an answer", "and then?"]);
    assert_eq!(t.messages.last().map(|m| m.content.clone()), Some(text("and then?")));
    assert!(t.plans.is_empty());
}

#[test]
fn settings_survive_a_restart_without_the_key() {
    let mut settings = default_settings();
    settings.model = text("m");
    settings.api_key = Some(text("k"));
    settings.max_steps = 7;
    let mut fresh = default_settings();
    fresh.apply_persisted(&settings.persisted());
    assert_eq!(fresh.api_key, None);
    settings.api_key = None;
    assert_eq!(fresh, settings);
}

#[test]
fn runs_stop_where_their_step_is_gone() {
    let mut t = task("task-1");
    let mut run = AgentRun::begin(&mut t, "/work", 3, &plan_ids(), "step-1", 2);
    run.begin_round(&mut t, false, "step-2", 3).expect("the round begins");
    t.steps.clear();
    let reply = Completion {
        message_id: text("said"),
        content: text("hello"),
        reasoning: String::new(),
        reasoning_opaque: None,
        tool_calls: Vec::new(),
    };
    assert_eq!(
        run.take_reply(&mut t, &reply, &reply_ids(1), 4),
        Err(AgentError::Message(text("Step not found")))
    );
    assert_eq!(
        run.end_round(&mut t, "act-1", "/work", 5),
        Err(AgentError::Message(text("Step not found")))
    );
}

#[test]
fn models_are_told_of_the_directory_that_was_named() {
    let mut t = task("task-1");
    let run = AgentRun::begin(&mut t, "/named", 3, &plan_ids(), "step-1", 2);
    assert!(run.header.contains("/named"));
}

#[test]
fn usage_is_what_was_counted() {
    assert_eq!(usage_numbers(Some(7), 1, Some(8), 2), (7, 8));
    assert_eq!(usage_numbers(None, 1, None, 2), (1, 2));
    assert!(check_run(true).is_ok());
    assert_eq!(
        check_run(false),
        Err(text("Configure an API key in Settings before sending a task."))
    );
}
