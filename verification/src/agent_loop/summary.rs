//! The summary that a checkpoint holds.

use vstd::prelude::*;

use super::budget::{saturating_product, ContextBudget};
use super::compaction::{checkpoint_chars, last_checkpoint, latest_checkpoint};
use super::counter::{capped, TokenCounter};
use super::surface::{compact_text, compacted, entries_tokens, estimate_entries};
use super::wire::{entries_json, entries_to_values};
use crate::agent::newest;
use crate::deep::{copy_all, deep, group_deep};
use crate::json::{group_json, Json, JsonModel};
use crate::memory::{is_assistant, is_tool, is_user};
use crate::models::{AgentMemoryEntry, EntryModel};
use crate::number::{decimal, number_text};
use crate::text::{
    begins_with, blank, first_chars, is_blank, join, joined, same, starts_with, take_chars, trim,
    trimmed,
};

verus! {

broadcast use {group_deep, group_json};

pub const SUMMARY_INSTRUCTION: &'static str =
    "You are RustPilot's context checkpoint writer. Summarize the execution history into a compact, factual checkpoint for another agent instance. Preserve the user's objective, constraints, decisions, completed work, current state, blocked or unknown items, important files and artifacts, errors and fixes, the next action, and critical evidence. Do not reveal chain-of-thought. Do not invent facts. Keep exact paths, identifiers, commands, and error messages when they are operationally important. Output only the requested headings and content.";

pub const LENGTH_PREFIX: &'static str =
    "\n\nThe checkpoint must be shorter than the replaced history (";

pub const LENGTH_SUFFIX: &'static str = " estimated tokens).";

/// How many characters of a summary are kept at either end.
pub const SUMMARY_HALF_CHARS: usize = 6000;

// ---- the request for a summary ----

/// The message that asks for a summary of entries that cost `tokens`.
pub open spec fn instruction(tokens: nat) -> JsonModel {
    JsonModel::Object(
        seq![
            ("role"@, JsonModel::Str("user"@)),
            (
                "content"@,
                JsonModel::Str(
                    SUMMARY_INSTRUCTION@ + LENGTH_PREFIX@ + decimal(tokens) + LENGTH_SUFFIX@,
                ),
            ),
        ],
    )
}

/// The request with the first `k` entries left out.
pub open spec fn request_without(
    system: Seq<JsonModel>,
    entries: Seq<JsonModel>,
    ask: JsonModel,
    k: int,
) -> Seq<JsonModel> {
    (system + entries.skip(k)).push(ask)
}

/// The request with as few of the first entries left out as the budget allows for.
pub open spec fn request_from<F: Fn(&str) -> usize, G: Fn(&[Json]) -> usize>(
    counter: TokenCounter<F, G>,
    system: Seq<JsonModel>,
    entries: Seq<JsonModel>,
    ask: JsonModel,
    limit: nat,
    k: int,
) -> Seq<JsonModel>
    decreases entries.len() - k,
{
    let request = request_without(system, entries, ask, k);
    if k < entries.len() && counter.messages_tokens(request) > limit {
        request_from(counter, system, entries, ask, limit, k + 1)
    } else {
        request
    }
}

/// The request for a summary of `entries`.
pub open spec fn summary_request<F: Fn(&str) -> usize, G: Fn(&[Json]) -> usize>(
    counter: TokenCounter<F, G>,
    system: Seq<JsonModel>,
    entries: Seq<EntryModel>,
    budget: ContextBudget,
) -> Seq<JsonModel> {
    request_from(
        counter,
        system,
        entries_json(entries),
        instruction(capped(entries_tokens(counter, entries))),
        budget.input(),
        0,
    )
}

/// The request for a summary of `entries`.
pub fn request_messages<F: Fn(&str) -> usize, G: Fn(&[Json]) -> usize>(
    counter: &TokenCounter<F, G>,
    system_messages: &Vec<Json>,
    entries: &[AgentMemoryEntry],
    budget: ContextBudget,
) -> (r: Vec<Json>)
    requires
        counter.wf(),
    ensures
        deep(r@) == summary_request(*counter, deep(system_messages@), deep(entries@), budget),
{
    let mut content = SUMMARY_INSTRUCTION.to_owned();
    content.append(LENGTH_PREFIX);
    content.append(&number_text(estimate_entries(counter, entries) as u64));
    content.append(LENGTH_SUFFIX);
    let mut members: Vec<(String, Json)> = Vec::new();
    members.push(("role".to_owned(), Json::string("user")));
    members.push(("content".to_owned(), Json::Str(content)));
    let ghost ask = instruction(capped(entries_tokens(*counter, deep(entries@))));
    proof {
        assert(deep(members@) =~= ask->Object_0);
    }
    let last = Json::Object(members);
    let system_len = system_messages.len();
    let mut values = entries_to_values(entries);
    let count = values.len();
    let ghost system = deep(system_messages@);
    let ghost history = deep(values@);
    let mut r = copy_all(system_messages);
    r.append(&mut values);
    r.push(last);
    let limit = budget.input_limit();
    let mut k: usize = 0;
    proof {
        assert(history.skip(0) =~= history);
        assert(deep(r@) =~= request_without(system, history, ask, 0));
        assert(system.len() == system_len);
    }
    while k < count && counter.count_messages(&r) > limit
        invariant
            counter.wf(),
            k <= count,
            count == history.len(),
            system.len() == system_len,
            limit == budget.input(),
            deep(r@) == request_without(system, history, ask, k as int),
            request_from(*counter, system, history, ask, limit as nat, 0) == request_from(
                *counter,
                system,
                history,
                ask,
                limit as nat,
                k as int,
            ),
        decreases count - k,
    {
        let ghost before = r@;
        proof {
            assert(deep(r@).len() == system.len() + (history.len() - k) + 1);
        }
        let _ = r.remove(system_len);
        k += 1;
        proof {
            assert(deep(r@) =~= deep(before).remove(system_len as int));
            assert(deep(before).remove(system_len as int) =~= request_without(
                system,
                history,
                ask,
                k as int,
            ));
        }
    }
    r
}

// ---- the summary without a model ----

pub const NO_OBJECTIVE: &'static str = "The original objective is preserved in the transcript.";

pub const NO_COMPLETION: &'static str = "No assistant completion was available.";

pub const NO_EVIDENCE: &'static str = "No tool evidence was available.";

pub const AFTER_OBJECTIVE: &'static str =
    "\n\nConstraints / Decisions\nPreserve the existing task objective and verified decisions from the transcript.\n\nCompleted\n";

pub const AFTER_COMPLETED: &'static str =
    "\n\nCurrent State\nThe newest preserved assistant and tool records are authoritative.\n\nBlocked / Unknown\nNo additional blocker was inferred by the code-only fallback.\n\nFiles / Artifacts\nUse the paths and artifacts recorded in the transcript.\n\nErrors / Fixes\nSee the critical evidence below; do not assume an unverified fix.\n\nNext Action\nContinue from the newest preserved turn and verify the next required result.\n\nCritical Evidence\n";

pub const AFTER_EVIDENCE: &'static str = "\n\nPrevious Checkpoint\n";

/// What the user first asked for.
pub open spec fn objective(entries: Seq<EntryModel>) -> Seq<char>
    decreases entries.len(),
{
    if entries.len() == 0 {
        NO_OBJECTIVE@
    } else if is_user(entries[0]) && !begins_with(entries[0].content, "[RustPilot context"@) {
        compacted(entries[0].content, 1600, 800)
    } else {
        objective(entries.drop_first())
    }
}

/// What the assistant said.
pub open spec fn completions(entries: Seq<EntryModel>) -> Seq<Seq<char>>
    decreases entries.len(),
{
    if entries.len() == 0 {
        Seq::empty()
    } else {
        let head = completions(entries.drop_last());
        if is_assistant(entries.last()) && !is_blank(entries.last().content) {
            head.push(compacted(entries.last().content, 800, 400))
        } else {
            head
        }
    }
}

/// The name of the tool that gave a result.
pub open spec fn tool_label(entry: EntryModel) -> Seq<char> {
    match entry.name {
        Some(name) => name,
        None => if entry.tool_names.len() > 0 {
            entry.tool_names[0]
        } else {
            "tool"@
        },
    }
}

/// What the tools gave.
pub open spec fn evidence(entries: Seq<EntryModel>) -> Seq<Seq<char>>
    decreases entries.len(),
{
    if entries.len() == 0 {
        Seq::empty()
    } else {
        let head = evidence(entries.drop_last());
        if is_tool(entries.last()) {
            head.push(
                "- "@ + tool_label(entries.last()) + ": "@ + compacted(
                    entries.last().content,
                    500,
                    300,
                ),
            )
        } else {
            head
        }
    }
}

/// The parts, or a note where there is none.
pub open spec fn joined_or(parts: Seq<Seq<char>>, sep: Seq<char>, none: Seq<char>) -> Seq<char> {
    if parts.len() == 0 {
        none
    } else {
        joined(parts, sep)
    }
}

/// The summary of a history that was made without a model, in full.
pub open spec fn full_fallback(entries: Seq<EntryModel>) -> Seq<char> {
    "Objective\n"@ + objective(entries) + AFTER_OBJECTIVE@ + joined_or(
        newest(completions(entries), 4),
        "\n- "@,
        NO_COMPLETION@,
    ) + AFTER_COMPLETED@ + joined_or(newest(evidence(entries), 6), "\n"@, NO_EVIDENCE@)
        + AFTER_EVIDENCE@ + (match last_checkpoint(entries) {
        Some(content) => compacted(content, 1000, 600),
        None => "None"@,
    })
}

/// How many characters a summary may have that replaces a history of `shadowed` tokens.
pub open spec fn fallback_chars(shadowed: nat) -> nat {
    let tokens = if shadowed > 0 {
        (shadowed - 1) as nat
    } else {
        0
    };
    let chars = capped(tokens * 3);
    if chars > 32 {
        chars
    } else {
        32
    }
}

/// The summary of a history that was made without a model.
pub open spec fn fallback<F: Fn(&str) -> usize, G: Fn(&[Json]) -> usize>(
    counter: TokenCounter<F, G>,
    entries: Seq<EntryModel>,
    shadowed: nat,
) -> Seq<char> {
    let full = full_fallback(entries);
    if counter.tokens(full) >= shadowed {
        compacted(full, fallback_chars(shadowed) / 2, fallback_chars(shadowed) / 2)
    } else {
        full
    }
}

fn find_objective(entries: &[AgentMemoryEntry]) -> (r: String)
    ensures
        r@ == objective(deep(entries@)),
{
    let ghost models = deep(entries@);
    let mut i: usize = 0;
    proof {
        assert(models.skip(0) =~= models);
    }
    while i < entries.len()
        invariant
            i <= entries@.len(),
            models == deep(entries@),
            objective(models) == objective(models.skip(i as int)),
        decreases entries@.len() - i,
    {
        proof {
            assert(models.skip(i as int)[0] == entries@[i as int].deep_view());
            assert(models.skip(i as int).drop_first() =~= models.skip(i + 1));
        }
        if same(&entries[i].role, "user") && !starts_with(
            &entries[i].content,
            "[RustPilot context",
        ) {
            return compact_text(&entries[i].content, 1600, 800);
        }
        i += 1;
    }
    NO_OBJECTIVE.to_owned()
}

fn find_completions(entries: &[AgentMemoryEntry]) -> (r: Vec<String>)
    ensures
        deep(r@) == completions(deep(entries@)),
{
    let ghost models = deep(entries@);
    let mut r: Vec<String> = Vec::new();
    let mut i: usize = 0;
    while i < entries.len()
        invariant
            i <= entries@.len(),
            models == deep(entries@),
            deep(r@) == completions(models.take(i as int)),
        decreases entries@.len() - i,
    {
        if same(&entries[i].role, "assistant") && !blank(&entries[i].content) {
            r.push(compact_text(&entries[i].content, 800, 400));
        }
        i += 1;
        proof {
            assert(models.take(i as int).last() == entries@[i - 1].deep_view());
            assert(models.take(i as int).drop_last() =~= models.take(i - 1));
        }
    }
    proof {
        assert(models.take(entries@.len() as int) =~= models);
    }
    r
}

fn find_evidence(entries: &[AgentMemoryEntry]) -> (r: Vec<String>)
    ensures
        deep(r@) == evidence(deep(entries@)),
{
    let ghost models = deep(entries@);
    let mut r: Vec<String> = Vec::new();
    let mut i: usize = 0;
    while i < entries.len()
        invariant
            i <= entries@.len(),
            models == deep(entries@),
            deep(r@) == evidence(models.take(i as int)),
        decreases entries@.len() - i,
    {
        let entry = &entries[i];
        if same(&entry.role, "tool") {
            let mut line = "- ".to_owned();
            match &entry.name {
                Some(name) => line.append(name),
                None => {
                    if entry.tool_names.len() > 0 {
                        line.append(&entry.tool_names[0]);
                    } else {
                        line.append("tool");
                    }
                },
            }
            line.append(": ");
            line.append(&compact_text(&entry.content, 500, 300));
            r.push(line);
        }
        i += 1;
        proof {
            assert(models.take(i as int).last() == entry.deep_view());
            assert(models.take(i as int).drop_last() =~= models.take(i - 1));
        }
    }
    proof {
        assert(models.take(entries@.len() as int) =~= models);
    }
    r
}

/// The last `count` parts, or a note where there is none.
fn join_newest(parts: &Vec<String>, count: usize, sep: &str, none: &str) -> (r: String)
    requires
        count > 0,
    ensures
        r@ == joined_or(newest(deep(parts@), count as nat), sep@, none@),
{
    let n = parts.len();
    if n == 0 {
        return none.to_owned();
    }
    let start: usize = if n > count {
        n - count
    } else {
        0
    };
    let mut some: Vec<String> = Vec::new();
    let mut i: usize = start;
    while i < n
        invariant
            start <= i <= n,
            n == parts@.len(),
            deep(some@) == deep(parts@).subrange(start as int, i as int),
        decreases n - i,
    {
        some.push(parts[i].clone());
        i += 1;
        proof {
            assert(deep(parts@).subrange(start as int, i as int) =~= deep(parts@).subrange(
                start as int,
                i - 1,
            ).push(deep(parts@)[i - 1]));
        }
    }
    proof {
        assert(deep(some@) =~= newest(deep(parts@), count as nat));
    }
    join(&some, sep)
}

/// The summary of a history that was made without a model.
pub fn fallback_summary<F: Fn(&str) -> usize, G: Fn(&[Json]) -> usize>(
    counter: &TokenCounter<F, G>,
    entries: &[AgentMemoryEntry],
    shadowed_tokens: usize,
) -> (r: String)
    requires
        counter.wf(),
    ensures
        r@ == fallback(*counter, deep(entries@), shadowed_tokens as nat),
{
    let mut summary = "Objective\n".to_owned();
    summary.append(&find_objective(entries));
    summary.append(AFTER_OBJECTIVE);
    summary.append(&join_newest(&find_completions(entries), 4, "\n- ", NO_COMPLETION));
    summary.append(AFTER_COMPLETED);
    summary.append(&join_newest(&find_evidence(entries), 6, "\n", NO_EVIDENCE));
    summary.append(AFTER_EVIDENCE);
    match latest_checkpoint(entries) {
        Some(content) => summary.append(&compact_text(&content, 1000, 600)),
        None => summary.append("None"),
    }
    if counter.count_text(&summary) >= shadowed_tokens {
        let chars = saturating_product(shadowed_tokens.saturating_sub(1), 3);
        let keep: usize = if chars > 32 {
            chars
        } else {
            32
        };
        return compact_text(&summary, keep / 2, keep / 2);
    }
    summary
}

// ---- a summary from a model ----

/// A summary as it enters the checkpoint: without white space around it, and cut down where it
/// costs as much as what it replaces. A blank summary is replaced.
pub open spec fn normalized<F: Fn(&str) -> usize, G: Fn(&[Json]) -> usize>(
    counter: TokenCounter<F, G>,
    summary: Seq<char>,
    shadowed: nat,
) -> Seq<char> {
    let text = trimmed(summary);
    let target = checkpoint_chars(shadowed);
    if text.len() == 0 {
        fallback(counter, Seq::empty(), shadowed)
    } else {
        let short = compacted(text, SUMMARY_HALF_CHARS as nat, SUMMARY_HALF_CHARS as nat);
        if counter.tokens(short) < shadowed || short.len() <= 32 {
            short
        } else {
            let shorter = compacted(short, target / 2, target / 2);
            if counter.tokens(shorter) < shadowed {
                shorter
            } else {
                first_chars(shorter, target)
            }
        }
    }
}

/// A summary as it enters the checkpoint.
pub fn normalize<F: Fn(&str) -> usize, G: Fn(&[Json]) -> usize>(
    counter: &TokenCounter<F, G>,
    summary: &str,
    shadowed_tokens: usize,
) -> (r: String)
    requires
        counter.wf(),
    ensures
        r@ == normalized(*counter, summary@, shadowed_tokens as nat),
{
    let text = trim(summary);
    if text.as_str().is_empty() {
        let none: Vec<AgentMemoryEntry> = Vec::new();
        proof {
            assert(deep(none@) =~= Seq::<EntryModel>::empty());
        }
        return fallback_summary(counter, &none, shadowed_tokens);
    }
    let short = compact_text(&text, SUMMARY_HALF_CHARS, SUMMARY_HALF_CHARS);
    if counter.count_text(&short) < shadowed_tokens || short.as_str().unicode_len() <= 32 {
        return short;
    }
    let tokens: usize = if shadowed_tokens > 2 {
        shadowed_tokens - 1
    } else {
        1
    };
    let chars = saturating_product(tokens, 3);
    let target: usize = if chars > 32 {
        chars
    } else {
        32
    };
    let shorter = compact_text(&short, target / 2, target / 2);
    if counter.count_text(&shorter) < shadowed_tokens {
        return shorter;
    }
    take_chars(&shorter, target)
}

} // verus!
