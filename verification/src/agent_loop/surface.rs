//! The part of a history that a model gets to see, and how it is made shorter.

use vstd::prelude::*;

use super::budget::ContextBudget;
use super::counter::{capped, TokenCounter};
use crate::agent::{MessageToolCall, ToolCallModel};
use crate::deep::{copy_all, deep, group_deep};
use crate::json::Json;
use crate::memory::is_tool;
use crate::models::{AgentMemoryEntry, EntryModel};
use crate::number::{decimal, number_text};
use crate::text::{chars_of, same, substring};

verus! {

broadcast use group_deep;

/// With this a checkpoint begins.
pub const CHECKPOINT_PREFIX: &'static str = "[RustPilot context checkpoint]";

/// How much of a tool's output is kept at first, in characters.
pub const TOOL_KEEP_CHARS: usize = 3200;

/// A tool's output is left alone where it is shorter.
pub const TOOL_MIN_PRUNE_CHARS: usize = 4096;

/// How much of a tool's output is kept in any case, in characters.
pub const TOOL_MIN_KEEP_CHARS: usize = 64;

pub const PRUNED_PREFIX: &'static str = "\n[tool output pruned: ";

pub const PRUNED_SUFFIX: &'static str = " characters]\n";

// ---- compacting a text ----

/// A long text with its middle left out: the first `head` characters, a note on the length of
/// the whole, and the last `tail` characters. A text that is little longer than that stays.
pub open spec fn compacted(text: Seq<char>, head: nat, tail: nat) -> Seq<char> {
    if text.len() <= head + tail + 64 {
        text
    } else {
        text.take(head as int) + PRUNED_PREFIX@ + decimal(text.len()) + PRUNED_SUFFIX@ + text.skip(
            text.len() - tail,
        )
    }
}

/// A long text with its middle left out.
pub fn compact_text(value: &str, head_chars: usize, tail_chars: usize) -> (r: String)
    ensures
        r@ == compacted(value@, head_chars as nat, tail_chars as nat),
{
    let chars = chars_of(value);
    let length = chars.len();
    if length <= head_chars.saturating_add(tail_chars).saturating_add(64) {
        return value.to_owned();
    }
    let mut r = substring(&chars, 0, head_chars);
    r.append(PRUNED_PREFIX);
    r.append(&number_text(length as u64));
    r.append(PRUNED_SUFFIX);
    let tail = substring(&chars, length - tail_chars, length);
    r.append(&tail);
    proof {
        assert(chars@.subrange(0, head_chars as int) =~= value@.take(head_chars as int));
        assert(tail@ =~= value@.skip(value@.len() - tail_chars));
    }
    r
}

// ---- what a history costs ----

/// What the calls cost.
pub open spec fn calls_tokens<F: Fn(&str) -> usize, G: Fn(&[Json]) -> usize>(
    counter: TokenCounter<F, G>,
    calls: Seq<ToolCallModel>,
) -> nat
    decreases calls.len(),
{
    if calls.len() == 0 {
        0
    } else {
        calls_tokens(counter, calls.drop_last()) + counter.tokens(calls.last().name)
            + counter.tokens(calls.last().arguments)
    }
}

/// What a text costs that may be missing.
pub open spec fn option_tokens<F: Fn(&str) -> usize, G: Fn(&[Json]) -> usize>(
    counter: TokenCounter<F, G>,
    text: Option<Seq<char>>,
) -> nat {
    match text {
        Some(text) => counter.tokens(text),
        None => 0,
    }
}

/// What an entry costs.
pub open spec fn entry_tokens<F: Fn(&str) -> usize, G: Fn(&[Json]) -> usize>(
    counter: TokenCounter<F, G>,
    entry: EntryModel,
) -> nat {
    counter.base_message_tokens as nat + counter.tokens(entry.role) + (if is_tool(entry)
        || entry.content.len() > 0 {
        counter.tokens(entry.content)
    } else {
        0
    }) + counter.tokens(entry.reasoning) + calls_tokens(counter, entry.tool_calls) + option_tokens(
        counter,
        entry.name,
    ) + option_tokens(counter, entry.tool_call_id)
}

/// What the entries cost, without what a list of messages costs in itself.
pub open spec fn sum_tokens<F: Fn(&str) -> usize, G: Fn(&[Json]) -> usize>(
    counter: TokenCounter<F, G>,
    entries: Seq<EntryModel>,
) -> nat
    decreases entries.len(),
{
    if entries.len() == 0 {
        0
    } else {
        sum_tokens(counter, entries.drop_last()) + entry_tokens(counter, entries.last())
    }
}

/// What the entries cost.
pub open spec fn entries_tokens<F: Fn(&str) -> usize, G: Fn(&[Json]) -> usize>(
    counter: TokenCounter<F, G>,
    entries: Seq<EntryModel>,
) -> nat {
    counter.format_tokens as nat + sum_tokens(counter, entries)
}

fn count_calls<F: Fn(&str) -> usize, G: Fn(&[Json]) -> usize>(
    counter: &TokenCounter<F, G>,
    calls: &Vec<MessageToolCall>,
) -> (r: usize)
    requires
        counter.wf(),
    ensures
        r == capped(calls_tokens(*counter, deep(calls@))),
{
    let mut r: usize = 0;
    let mut i: usize = 0;
    while i < calls.len()
        invariant
            counter.wf(),
            i <= calls@.len(),
            r == capped(calls_tokens(*counter, deep(calls@).take(i as int))),
        decreases calls@.len() - i,
    {
        let name = counter.count_text(&calls[i].function.name);
        let arguments = counter.count_text(&calls[i].function.arguments);
        r = r.saturating_add(name).saturating_add(arguments);
        i += 1;
        proof {
            assert(deep(calls@).take(i as int).drop_last() =~= deep(calls@).take(i - 1));
            assert(deep(calls@).take(i as int).last() == calls@[i - 1].deep_view());
        }
    }
    proof {
        assert(deep(calls@).take(calls@.len() as int) =~= deep(calls@));
    }
    r
}

fn count_option<F: Fn(&str) -> usize, G: Fn(&[Json]) -> usize>(
    counter: &TokenCounter<F, G>,
    text: &Option<String>,
) -> (r: usize)
    requires
        counter.wf(),
    ensures
        r == option_tokens(*counter, text.deep_view()),
{
    match text {
        Some(text) => counter.count_text(text),
        None => 0,
    }
}

/// What an entry costs.
pub fn estimate_entry<F: Fn(&str) -> usize, G: Fn(&[Json]) -> usize>(
    counter: &TokenCounter<F, G>,
    entry: &AgentMemoryEntry,
) -> (r: usize)
    requires
        counter.wf(),
    ensures
        r == capped(entry_tokens(*counter, entry.deep_view())),
{
    let role = counter.count_text(&entry.role);
    let content: usize = if same(&entry.role, "tool") || !entry.content.as_str().is_empty() {
        counter.count_text(&entry.content)
    } else {
        0
    };
    let reasoning = counter.count_text(&entry.reasoning);
    let calls = count_calls(counter, &entry.tool_calls);
    let name = count_option(counter, &entry.name);
    let id = count_option(counter, &entry.tool_call_id);
    counter.base_message_tokens.saturating_add(role).saturating_add(content).saturating_add(
        reasoning,
    ).saturating_add(calls).saturating_add(name).saturating_add(id)
}

/// What the entries from `from` on cost, beside what a list of messages costs in itself.
fn estimate_sum<F: Fn(&str) -> usize, G: Fn(&[Json]) -> usize>(
    counter: &TokenCounter<F, G>,
    entries: &[AgentMemoryEntry],
) -> (r: usize)
    requires
        counter.wf(),
    ensures
        r == capped(sum_tokens(*counter, deep(entries@))),
{
    let mut r: usize = 0;
    let mut i: usize = 0;
    while i < entries.len()
        invariant
            counter.wf(),
            i <= entries@.len(),
            r == capped(sum_tokens(*counter, deep(entries@).take(i as int))),
        decreases entries@.len() - i,
    {
        let cost = estimate_entry(counter, &entries[i]);
        r = r.saturating_add(cost);
        i += 1;
        proof {
            assert(deep(entries@).take(i as int).drop_last() =~= deep(entries@).take(i - 1));
            assert(deep(entries@).take(i as int).last() == entries@[i - 1].deep_view());
        }
    }
    proof {
        assert(deep(entries@).take(entries@.len() as int) =~= deep(entries@));
    }
    r
}

/// What the entries cost.
pub fn estimate_entries<F: Fn(&str) -> usize, G: Fn(&[Json]) -> usize>(
    counter: &TokenCounter<F, G>,
    entries: &[AgentMemoryEntry],
) -> (r: usize)
    requires
        counter.wf(),
    ensures
        r == capped(entries_tokens(*counter, deep(entries@))),
{
    counter.format_tokens.saturating_add(estimate_sum(counter, entries))
}

// ---- pruning the results of tools ----

/// Whether an entry is a long tool result.
pub open spec fn is_prunable(entry: EntryModel) -> bool {
    is_tool(entry) && entry.content.len() >= TOOL_MIN_PRUNE_CHARS
}

/// How far the pruning has come: the entries, those that were changed, and what all cost.
pub struct PruneState {
    pub entries: Seq<EntryModel>,
    pub changed: Seq<bool>,
    pub ids: Seq<Seq<char>>,
    pub tokens: nat,
}

/// The entry with a shorter content.
pub open spec fn shortened(entry: EntryModel, keep: nat) -> EntryModel {
    EntryModel { content: compacted(entry.content, keep / 2, keep / 2), ..entry }
}

/// The difference, or 0.
pub open spec fn minus(a: nat, b: nat) -> nat {
    if a >= b {
        (a - b) as nat
    } else {
        0
    }
}

/// Shortens the entry `i` to `keep` characters.
pub open spec fn prune_one<F: Fn(&str) -> usize, G: Fn(&[Json]) -> usize>(
    counter: TokenCounter<F, G>,
    state: PruneState,
    i: int,
    keep: nat,
) -> PruneState {
    let old_entry = state.entries[i];
    let new_entry = shortened(old_entry, keep);
    if new_entry.content == old_entry.content {
        state
    } else {
        PruneState {
            entries: state.entries.update(i, new_entry),
            changed: state.changed.update(i, true),
            ids: if state.changed[i] {
                state.ids
            } else {
                state.ids.push(old_entry.id)
            },
            tokens: capped(
                minus(state.tokens, capped(entry_tokens(counter, old_entry))) + capped(
                    entry_tokens(counter, new_entry),
                ),
            ),
        }
    }
}

/// Shortens the prunable entries from `i` on to `keep` characters, one after the other, until
/// they cost no more than `target`.
pub open spec fn prune_pass<F: Fn(&str) -> usize, G: Fn(&[Json]) -> usize>(
    counter: TokenCounter<F, G>,
    state: PruneState,
    prunable: Seq<bool>,
    i: int,
    keep: nat,
    target: nat,
) -> PruneState
    decreases prunable.len() - i,
{
    if i >= prunable.len() {
        state
    } else if !prunable[i] {
        prune_pass(counter, state, prunable, i + 1, keep, target)
    } else {
        let next = prune_one(counter, state, i, keep);
        if next.tokens <= target {
            next
        } else {
            prune_pass(counter, next, prunable, i + 1, keep, target)
        }
    }
}

/// How many characters the pass after one with `keep` keeps.
pub open spec fn next_keep(keep: nat) -> nat {
    if keep * 3 / 4 > TOOL_MIN_KEEP_CHARS {
        (keep * 3 / 4) as nat
    } else {
        TOOL_MIN_KEEP_CHARS as nat
    }
}

/// Shortens the prunable entries in passes that keep less and less, until they cost no more than
/// `target`, or a pass changes nothing, or the least was kept.
pub open spec fn prune_passes<F: Fn(&str) -> usize, G: Fn(&[Json]) -> usize>(
    counter: TokenCounter<F, G>,
    state: PruneState,
    prunable: Seq<bool>,
    keep: nat,
    target: nat,
) -> PruneState
    decreases keep,
{
    let next = prune_pass(counter, state, prunable, 0, keep, target);
    if next.tokens <= target || next.entries == state.entries || keep <= TOOL_MIN_KEEP_CHARS {
        next
    } else {
        prune_passes(counter, next, prunable, next_keep(keep), target)
    }
}

/// Which entries are prunable.
pub open spec fn prunable_flags(entries: Seq<EntryModel>) -> Seq<bool> {
    Seq::new(entries.len(), |i: int| is_prunable(entries[i]))
}

/// Before the first pass.
pub open spec fn prune_start<F: Fn(&str) -> usize, G: Fn(&[Json]) -> usize>(
    counter: TokenCounter<F, G>,
    entries: Seq<EntryModel>,
) -> PruneState {
    PruneState {
        entries,
        changed: Seq::new(entries.len(), |i: int| false),
        ids: Seq::empty(),
        tokens: capped(entries_tokens(counter, entries)),
    }
}

/// The entries with the results of tools shortened, where they cost more than `target`.
pub open spec fn pruned<F: Fn(&str) -> usize, G: Fn(&[Json]) -> usize>(
    counter: TokenCounter<F, G>,
    entries: Seq<EntryModel>,
    target: nat,
) -> PruneState {
    let start = prune_start(counter, entries);
    if start.tokens <= target {
        start
    } else {
        prune_passes(counter, start, prunable_flags(entries), TOOL_KEEP_CHARS as nat, target)
    }
}

/// The entries after pruning, which of them changed, and what all cost.
#[derive(Debug, PartialEq, Eq)]
pub struct ToolPruneResult {
    pub entries: Vec<AgentMemoryEntry>,
    pub changed_ids: Vec<String>,
    pub after_tokens: usize,
}

impl ToolPruneResult {
    /// The result is what `state` says.
    pub open spec fn shows(&self, state: PruneState) -> bool {
        &&& deep(self.entries@) == state.entries
        &&& deep(self.changed_ids@) == state.ids
        &&& self.after_tokens == state.tokens
    }
}

/// Shortens the results of tools, where the entries cost more than `target_tokens`.
pub fn prune_tool_results<F: Fn(&str) -> usize, G: Fn(&[Json]) -> usize>(
    counter: &TokenCounter<F, G>,
    entries: &Vec<AgentMemoryEntry>,
    target_tokens: usize,
) -> (r: ToolPruneResult)
    requires
        counter.wf(),
    ensures
        r.shows(pruned(*counter, deep(entries@), target_tokens as nat)),
{
    let before_tokens = estimate_entries(counter, entries);
    let ghost models = deep(entries@);
    let ghost start = prune_start(*counter, models);
    let ghost flags = prunable_flags(models);
    let ghost target = target_tokens as nat;
    let mut result = copy_all(entries);
    let mut changed_ids: Vec<String> = Vec::new();
    if before_tokens <= target_tokens {
        return ToolPruneResult { entries: result, changed_ids, after_tokens: before_tokens };
    }
    let n = result.len();
    proof {
        assert(deep(result@).len() == n);
    }
    let mut changed: Vec<bool> = Vec::new();
    let mut prunable: Vec<bool> = Vec::new();
    let mut k: usize = 0;
    while k < n
        invariant
            k <= n,
            n == entries@.len(),
            models == deep(entries@),
            changed@.len() == k,
            prunable@.len() == k,
            forall|j: int| 0 <= j < k ==> !#[trigger] changed@[j],
            forall|j: int| 0 <= j < k ==> #[trigger] prunable@[j] == is_prunable(models[j]),
        decreases n - k,
    {
        let entry = &entries[k];
        proof {
            assert(models[k as int] == entry.deep_view());
        }
        changed.push(false);
        prunable.push(
            same(&entry.role, "tool") && chars_of(&entry.content).len() >= TOOL_MIN_PRUNE_CHARS,
        );
        k += 1;
    }
    let mut keep: usize = TOOL_KEEP_CHARS;
    let mut tokens: usize = before_tokens;
    let ghost mut state = start;
    proof {
        assert(changed@ =~= start.changed);
        assert(prunable@ =~= flags);
        assert(deep(changed_ids@) =~= start.ids);
    }
    let mut done = false;
    while !done
        invariant
            counter.wf(),
            n == result@.len(),
            n == changed@.len(),
            n == prunable@.len(),
            prunable@ == flags,
            target == target_tokens,
            state.entries == deep(result@),
            state.changed == changed@,
            state.ids == deep(changed_ids@),
            state.tokens == tokens,
            keep <= TOOL_KEEP_CHARS,
            done ==> state == prune_passes(
                *counter,
                start,
                flags,
                TOOL_KEEP_CHARS as nat,
                target,
            ),
            !done ==> prune_passes(*counter, state, flags, keep as nat, target) == prune_passes(
                *counter,
                start,
                flags,
                TOOL_KEEP_CHARS as nat,
                target,
            ),
        decreases (if done { 0int } else { 1 + keep as int }),
    {
        let ghost before = state;
        let mut changed_this_pass = false;
        let mut index: usize = 0;
        while index < n
            invariant
                counter.wf(),
                index <= n,
                n == result@.len(),
                n == changed@.len(),
                n == prunable@.len(),
                prunable@ == flags,
                target == target_tokens,
                state.entries == deep(result@),
                state.changed == changed@,
                state.ids == deep(changed_ids@),
                state.tokens == tokens,
                before.entries.len() == n,
                changed_this_pass == (state.entries != before.entries),
                forall|j: int| index <= j < n ==> #[trigger] state.entries[j] == before.entries[j],
                prune_pass(*counter, before, flags, 0, keep as nat, target) == prune_pass(
                    *counter,
                    state,
                    flags,
                    index as int,
                    keep as nat,
                    target,
                ),
            decreases n - index,
        {
            if prunable[index] {
                let ghost old_entry = state.entries[index as int];
                proof {
                    assert(old_entry == result@[index as int].deep_view());
                }
                let previous_tokens = estimate_entry(counter, &result[index]);
                let content = compact_text(&result[index].content, keep / 2, keep / 2);
                let ghost next = prune_one(*counter, state, index as int, keep as nat);
                if !same(&content, &result[index].content) {
                    let mut entry = result[index].clone();
                    entry.content = content;
                    proof {
                        assert(entry.deep_view() == shortened(old_entry, keep as nat));
                    }
                    tokens = tokens.saturating_sub(previous_tokens).saturating_add(
                        estimate_entry(counter, &entry),
                    );
                    if !changed[index] {
                        changed_ids.push(entry.id.clone());
                    }
                    changed.set(index, true);
                    result.set(index, entry);
                    changed_this_pass = true;
                    proof {
                        assert(next.entries == deep(result@));
                        assert(next.entries[index as int] != before.entries[index as int]);
                        assert(next.changed == changed@);
                        assert(next.ids == deep(changed_ids@));
                    }
                }
                proof {
                    state = next;
                }
                if tokens <= target_tokens {
                    index = n;
                } else {
                    index += 1;
                }
            } else {
                index += 1;
            }
        }
        proof {
            assert(state == prune_pass(*counter, before, flags, 0, keep as nat, target));
        }
        if tokens <= target_tokens || !changed_this_pass || keep <= TOOL_MIN_KEEP_CHARS {
            done = true;
        } else {
            let next: usize = keep * 3 / 4;
            keep = if next > TOOL_MIN_KEEP_CHARS {
                next
            } else {
                TOOL_MIN_KEEP_CHARS
            };
        }
    }
    ToolPruneResult { entries: result, changed_ids, after_tokens: tokens }
}

} // verus!
