//! The loop of an agent: what is sent, what is shortened, and what runs beside what.

use rustpilot::agent::{FunctionCall, MessageToolCall};
use rustpilot::agent_loop::budget::ContextBudget;
use rustpilot::agent_loop::compaction::{
    build_compaction_plan, finalize_compaction, is_checkpoint, validate_compaction_result,
};
use rustpilot::agent_loop::context::fit_openai_messages;
use rustpilot::agent_loop::counter::TokenCounter;
use rustpilot::agent_loop::events::{AgentLifecycle, LifecycleState, TurnEndReason};
use rustpilot::agent_loop::prepare::{fallback_surface, finish_plan, prepare_prune, SummaryFailure};
use rustpilot::agent_loop::retry::delay_for_attempt;
use rustpilot::agent_loop::scheduler::{execution_mode, ExecutionMode, ParallelPool};
use rustpilot::agent_loop::summary::{fallback_summary, normalize};
use rustpilot::agent_loop::surface::{estimate_entries, prune_tool_results};
use rustpilot::agent_loop::wire::{memory_entry_to_value, surface_hash};
use rustpilot::hash::stable_hash_hex;
use rustpilot::json::Json;
use rustpilot::models::AgentMemoryEntry;

fn text(value: &str) -> String {
    value.to_string()
}

fn json(value: &str) -> Json {
    Json::parse(value).expect("the text should be JSON")
}

fn tokens(value: &str) -> usize {
    let wide = value.chars().filter(|c| *c > '\u{2e7f}').count();
    let narrow = value.chars().count() - wide;
    wide + (narrow + 3) / 4
}

fn field(message: &Json, key: &str) -> usize {
    message.text(key).map(|value| tokens(value)).unwrap_or(0)
}

fn cost(message: &Json) -> usize {
    let calls = match message.items("tool_calls") {
        Some(calls) => calls
            .iter()
            .map(|call| {
                let function = call.get("function").cloned().unwrap_or(Json::Null);
                field(&function, "name") + field(&function, "arguments")
            })
            .sum(),
        None => 0,
    };
    4 + field(message, "role")
        + field(message, "content")
        + field(message, "reasoning_content")
        + field(message, "name")
        + field(message, "tool_call_id")
        + calls
}

fn counter() -> TokenCounter<fn(&str) -> usize, fn(&[Json]) -> usize> {
    TokenCounter {
        text: tokens,
        messages: |messages: &[Json]| 2 + messages.iter().map(cost).sum::<usize>(),
        base_message_tokens: 4,
        format_tokens: 2,
    }
}

fn entry(role: &str, content: &str) -> AgentMemoryEntry {
    AgentMemoryEntry::plain(format!("{role}-{}", content.len()), role, text(content), 1)
}

fn call(id: &str, name: &str, arguments: &str) -> MessageToolCall {
    MessageToolCall {
        id: text(id),
        call_type: text("function"),
        function: FunctionCall { name: text(name), arguments: text(arguments) },
    }
}

fn budget(window: usize) -> ContextBudget {
    ContextBudget { window, output_reserve: 0, safety_margin: 0 }
}

#[test]
fn budget_keeps_tool_pairs_intact() {
    let mut messages = vec![
        json("{\"role\":\"system\",\"content\":\"system\"}"),
        json("{\"role\":\"user\",\"content\":\"request\"}"),
        json("{\"role\":\"assistant\",\"content\":\"older answer\"}"),
        json("{\"role\":\"assistant\",\"tool_calls\":[{\"id\":\"call-1\",\"function\":{\"name\":\"rust_clock\",\"arguments\":\"{}\"}}]}"),
        json("{\"role\":\"tool\",\"tool_call_id\":\"call-1\",\"content\":\"result\"}"),
    ];
    let report = fit_openai_messages(&counter(), &mut messages, &[], budget(42))
        .expect("history should fit");
    assert!(report.dropped_messages > 0);
    assert_eq!(messages.len(), 4);
    assert_eq!(messages[2].text("role"), Some(&text("assistant")));
    assert_eq!(
        messages[2].items("tool_calls").map(|calls| calls[0].text_or("id", "")),
        Some(text("call-1"))
    );
    assert_eq!(messages[3].text("role"), Some(&text("tool")));
    assert_eq!(messages[3].text("tool_call_id"), Some(&text("call-1")));
}

#[test]
fn oversized_first_user_message_is_compacted_without_dropping_the_turn() {
    let mut user = json("{\"role\":\"user\"}");
    user.set("content", Json::string(&"x".repeat(400)));
    let mut messages = vec![json("{\"role\":\"system\",\"content\":\"system\"}"), user];
    let report = fit_openai_messages(&counter(), &mut messages, &[], budget(48))
        .expect("the oversized user turn should be compacted");
    assert_eq!(messages[1].text("role"), Some(&text("user")));
    assert!(messages[1]
        .text("content")
        .expect("user content should remain text")
        .ends_with("[context truncated]"));
    assert!(report.after_tokens <= 48);
}

#[test]
fn requests_that_cannot_fit_are_refused() {
    let mut messages = vec![json("{\"role\":\"system\",\"content\":\"a system that is too long\"}")];
    assert!(fit_openai_messages(&counter(), &mut messages, &[], budget(3)).is_err());
}

#[test]
fn only_read_operations_are_parallel_safe() {
    assert_eq!(
        execution_mode("rust_files", &json("{\"operation\":\"read\"}")),
        ExecutionMode::ParallelSafe
    );
    assert_eq!(
        execution_mode("rust_files", &json("{\"operation\":\"write\"}")),
        ExecutionMode::Exclusive
    );
    assert_eq!(
        execution_mode("rust_http", &json("{\"method\":\"POST\"}")),
        ExecutionMode::Exclusive
    );
    assert_eq!(
        execution_mode("rust_code", &json("{\"operation\":\"check\"}")),
        ExecutionMode::Exclusive
    );
}

#[test]
fn pools_start_a_call_when_another_has_ended() {
    let mut pool: ParallelPool<usize> = ParallelPool::new(0, 4, 2, false);
    assert_eq!(pool.launch(ExecutionMode::ParallelSafe, false), Some(0));
    assert_eq!(pool.launch(ExecutionMode::ParallelSafe, false), Some(1));
    assert!(!pool.has_room());
    pool.finish(0, 0, false);
    assert_eq!(pool.launch(ExecutionMode::ParallelSafe, false), Some(2));
    pool.finish(2, 2, false);
    pool.finish(1, 1, false);
    assert_eq!(pool.launch(ExecutionMode::ParallelSafe, false), Some(3));
    pool.finish(3, 3, false);
    assert!(pool.is_drained());
    assert!(!pool.aborted);
    assert_eq!(pool.next_index, 4);
    assert_eq!(pool.results, vec![(0, 0), (1, 1), (2, 2), (3, 3)]);
}

#[test]
fn cancelled_pools_drain_what_was_started() {
    let mut pool: ParallelPool<usize> = ParallelPool::new(0, 8, 2, false);
    pool.launch(ExecutionMode::ParallelSafe, false);
    pool.launch(ExecutionMode::ParallelSafe, false);
    pool.finish(0, 0, true);
    assert!(pool.aborted);
    assert_eq!(pool.launch(ExecutionMode::ParallelSafe, true), None);
    pool.finish(1, 1, true);
    assert!(pool.is_drained());
    assert_eq!((pool.next_index, pool.results.len()), (2, 2));
}

#[test]
fn compaction_keeps_complete_recent_assistant_tool_block() {
    let mut entries = vec![entry("user", "objective")];
    for index in 0..20 {
        entries.push(entry("assistant", &format!("step {index}")));
        entries.push(entry("tool", &"x".repeat(300)));
    }
    let plan = build_compaction_plan(&counter(), &entries, budget(512))
        .expect("history should have a compactable prefix");
    assert_eq!(plan.tail_entries.last().unwrap().role, "tool");
    assert_eq!(
        plan.tail_entries[plan.tail_entries.len() - 2].role,
        "assistant"
    );
    assert!(plan.source_entries.len() < entries.len());
    assert_eq!(plan.expected_surface_hash, surface_hash(&entries));
    assert_ne!(plan.expected_surface_hash, plan.source_hash);
}

#[test]
fn tool_pruning_preserves_head_and_tail() {
    let content = format!("HEAD{}TAIL", "x".repeat(8_000));
    let result = prune_tool_results(&counter(), &vec![entry("tool", &content)], 8);
    assert!(result.changed_ids.is_empty() || result.entries[0].content.contains("pruned"));
    assert!(result.entries[0].content.starts_with("HEAD"));
    assert!(result.entries[0].content.ends_with("TAIL"));
}

#[test]
fn direct_surface_estimate_matches_wire_message_estimate() {
    let mut assistant = entry("assistant", "answer");
    assistant.reasoning = "private reasoning".to_string();
    assistant.reasoning_opaque = Some("opaque".to_string());
    assistant.name = Some("assistant-name".to_string());
    assistant.tool_call_id = Some("call-parent".to_string());
    assistant.tool_calls = vec![call("call-1", "rust_clock", "{\"timezone\":\"Asia/Shanghai\"}")];
    let tool = {
        let mut value = entry("tool", "result");
        value.tool_call_id = Some("call-1".to_string());
        value.name = Some("rust_clock".to_string());
        value
    };
    let entries = vec![entry("user", "目标：保留 Unicode"), assistant, tool];
    let values = entries
        .iter()
        .map(memory_entry_to_value)
        .collect::<Vec<_>>();
    assert_eq!(
        estimate_entries(&counter(), &entries),
        counter().count_messages(&values)
    );
}

#[test]
fn large_cjk_tool_output_is_pruned_without_breaking_unicode() {
    let content = format!("开头{}结尾", "中间内容".repeat(20_000));
    let result = prune_tool_results(&counter(), &vec![entry("tool", &content)], 128);
    assert_eq!(result.changed_ids.len(), 1);
    assert!(result.entries[0].content.starts_with("开头"));
    assert!(result.entries[0].content.ends_with("结尾"));
    assert!(result.entries[0].content.contains("tool output pruned"));
    assert!(
        result.after_tokens <= 128,
        "pruned CJK output still uses {} tokens",
        result.after_tokens
    );
}

#[test]
fn repeated_compaction_keeps_checkpoint_and_tool_pairs_valid() {
    let mut entries = vec![entry("user", "长期任务目标：完成并验证工作。")];
    for index in 0..24 {
        let mut assistant = entry("assistant", &format!("完成第 {index} 步"));
        assistant.tool_calls =
            vec![call(&format!("call-{index}"), "rust_read", &format!("{{\"step\":{index}}}"))];
        let mut tool = entry("tool", &format!("证据 {index} {}", "x".repeat(700)));
        tool.tool_call_id = Some(format!("call-{index}"));
        tool.name = Some("rust_read".to_string());
        entries.push(assistant);
        entries.push(tool);
    }
    let budget = budget(2_048);
    let first_plan =
        build_compaction_plan(&counter(), &entries, budget).expect("first plan should exist");
    let first_summary = normalize(
        &counter(),
        &fallback_summary(&counter(), &first_plan.source_entries, first_plan.shadowed_tokens),
        first_plan.shadowed_tokens,
    );
    let (first_surface, _) =
        finalize_compaction(&counter(), &first_plan, &first_summary, budget, 7);
    validate_compaction_result(&counter(), &first_plan, &first_surface, budget)
        .expect("first compaction should preserve protocol pairs");

    let mut next_entries = first_surface;
    next_entries.push(entry("user", "继续验证后续步骤"));
    for index in 24..36 {
        let mut assistant = entry("assistant", &format!("完成第 {index} 步"));
        assistant.tool_calls =
            vec![call(&format!("call-{index}"), "rust_read", &format!("{{\"step\":{index}}}"))];
        let mut tool = entry("tool", &format!("证据 {index} {}", "y".repeat(700)));
        tool.tool_call_id = Some(format!("call-{index}"));
        tool.name = Some("rust_read".to_string());
        next_entries.push(assistant);
        next_entries.push(tool);
    }
    let second_plan = build_compaction_plan(&counter(), &next_entries, budget)
        .expect("second plan should exist");
    let second_summary = normalize(
        &counter(),
        &fallback_summary(&counter(), &second_plan.source_entries, second_plan.shadowed_tokens),
        second_plan.shadowed_tokens,
    );
    let (second_surface, _) =
        finalize_compaction(&counter(), &second_plan, &second_summary, budget, 8);
    validate_compaction_result(&counter(), &second_plan, &second_surface, budget)
        .expect("repeated compaction should preserve protocol pairs");
    assert!(is_checkpoint(&second_surface[0]));
}

#[test]
fn plans_end_with_a_summary_whether_the_model_gives_one_or_not() {
    let mut entries = vec![entry("user", "objective")];
    for index in 0..20 {
        entries.push(entry("assistant", &format!("step {index}")));
        entries.push(entry("user", &"x".repeat(300)));
    }
    let plan = build_compaction_plan(&counter(), &entries, budget(512)).expect("a plan");
    assert_eq!(
        finish_plan(&counter(), &plan, Err(SummaryFailure::Cancelled), budget(512), 9),
        Err(SummaryFailure::Cancelled)
    );
    let fallen = finish_plan(
        &counter(),
        &plan,
        Err(SummaryFailure::Unavailable(text("down"))),
        budget(512),
        9,
    )
    .expect("the fallback is there");
    assert!(fallen.summary_fallback);
    assert!(fallen.after_tokens < fallen.before_tokens);
    let told = finish_plan(&counter(), &plan, Ok(text("All is well.")), budget(512), 9)
        .expect("the summary is there");
    assert!(!told.summary_fallback);
    assert!(fallback_surface(&counter(), &entries, budget(512)).summary.is_none());
    assert!(prepare_prune(&counter(), &entries, budget(100_000)).is_none());
}

#[test]
fn limits_of_a_budget_are_ordered() {
    let b = ContextBudget::for_model(128_000, false, false);
    assert!(b.tail_limit() <= b.pressure_limit());
    assert!(b.pressure_limit() <= b.input_limit());
    assert_eq!(b.input_limit(), 128_000 - 4096 - 1024);
}

#[test]
fn delays_grow_and_are_bounded() {
    let first = delay_for_attempt(0, "seed");
    assert!((500..1000).contains(&first) || first >= 500);
    assert!(delay_for_attempt(3, "seed") > first);
    assert_eq!(delay_for_attempt(6, "seed"), delay_for_attempt(60, "seed"));
}

#[test]
fn hashes_have_a_fixed_length() {
    assert_eq!(stable_hash_hex(b"").len(), 32);
    assert_ne!(stable_hash_hex(b"a"), stable_hash_hex(b"b"));
}

#[test]
fn lifecycles_end_once() {
    let (mut life, events) = AgentLifecycle::start("task-1", "uuid");
    assert!(!events.is_empty());
    life.step_start(1).expect("a step can begin");
    assert!(life.step_end("done").expect("a step can end").is_some());
    let compacted = life.context_compaction(10, 5, 2).expect("the context can be shortened");
    assert!(!compacted.is_empty());
    assert_eq!(life.lifecycle_state, LifecycleState::Running);
    assert!(!life.end(TurnEndReason::Completed).is_empty());
    assert_eq!(life.lifecycle_state, LifecycleState::Closed);
    assert!(life.step_start(2).is_err());
    assert!(life.end(TurnEndReason::Completed).is_empty());
}
