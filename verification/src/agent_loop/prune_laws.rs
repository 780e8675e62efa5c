//! What pruning the results of tools and counting the cost of a history guarantee.

use vstd::prelude::*;

use super::budget::ContextBudget;
use super::compaction::{block_from, block_starts, compactable, tail_start};
use super::context::{request_tokens, tools_tokens};
use super::counter::{capped, TokenCounter};
use super::laws::law_compacting_keeps_head_and_tail;
use super::surface::{
    calls_tokens, compacted, entries_tokens, entry_tokens, is_prunable, next_keep, prunable_flags,
    prune_one, prune_pass, prune_passes, prune_start, pruned, sum_tokens, PruneState,
};
use crate::agent::ToolCallModel;
use crate::json::{Json, JsonModel};
use crate::json_text::compact_json;
use crate::memory::{is_assistant, is_tool, is_user};
use crate::models::EntryModel;

verus! {

// ---- pruning ----

/// The contents of the entries that may be pruned are no longer than `most`.
spec fn short_before(
    entries: Seq<EntryModel>,
    prunable: Seq<bool>,
    from: int,
    to: int,
    most: nat,
) -> bool {
    forall|j: int|
        from <= j < to && prunable[j] ==> (#[trigger] entries[j]).content.len() <= most
}

spec fn all_countable(entries: Seq<EntryModel>) -> bool {
    forall|j: int|
        0 <= j < entries.len() ==> (#[trigger] entries[j]).content.len() <= u64::MAX
}

/// How a pass of pruning relates two states.
spec fn pass_keeps(before: PruneState, after: PruneState) -> bool {
    &&& after.entries.len() == before.entries.len()
    &&& after.changed.len() == before.changed.len()
    &&& forall|j: int|
        0 <= j < before.entries.len() ==> (#[trigger] after.entries[j]).content.len()
            <= before.entries[j].content.len() && after.entries[j].id == before.entries[j].id
}

proof fn lemma_compacted_len(text: Seq<char>, keep: nat)
    requires
        text.len() <= u64::MAX,
    ensures
        compacted(text, keep / 2, keep / 2).len() <= text.len(),
        compacted(text, keep / 2, keep / 2).len() <= keep + 64,
{
    law_compacting_keeps_head_and_tail(text, keep / 2, keep / 2);
    super::laws::lemma_note_len(text.len());
}

proof fn lemma_one<F: Fn(&str) -> usize, G: Fn(&[Json]) -> usize>(
    counter: TokenCounter<F, G>,
    state: PruneState,
    i: int,
    keep: nat,
)
    requires
        0 <= i < state.entries.len(),
        state.changed.len() == state.entries.len(),
        all_countable(state.entries),
    ensures
        pass_keeps(state, prune_one(counter, state, i, keep)),
        prune_one(counter, state, i, keep).entries[i].content.len() <= keep + 64,
        all_countable(prune_one(counter, state, i, keep).entries),
{
    let next = prune_one(counter, state, i, keep);
    lemma_compacted_len(state.entries[i].content, keep);
    assert forall|j: int| 0 <= j < next.entries.len() implies (
    #[trigger] next.entries[j]).content.len() <= u64::MAX by {
        assert(state.entries[j].content.len() <= u64::MAX);
    }
}

proof fn lemma_pass<F: Fn(&str) -> usize, G: Fn(&[Json]) -> usize>(
    counter: TokenCounter<F, G>,
    state: PruneState,
    prunable: Seq<bool>,
    i: int,
    keep: nat,
    target: nat,
)
    requires
        0 <= i <= prunable.len(),
        prunable.len() == state.entries.len(),
        state.changed.len() == state.entries.len(),
        all_countable(state.entries),
        short_before(state.entries, prunable, 0, i, keep + 64),
    ensures
        ({
            let after = prune_pass(counter, state, prunable, i, keep, target);
            &&& pass_keeps(state, after)
            &&& all_countable(after.entries)
            &&& after.tokens > target ==> short_before(
                after.entries,
                prunable,
                0,
                prunable.len() as int,
                keep + 64,
            )
        }),
    decreases prunable.len() - i,
{
    if i < prunable.len() {
        if !prunable[i] {
            lemma_pass(counter, state, prunable, i + 1, keep, target);
        } else {
            let next = prune_one(counter, state, i, keep);
            lemma_one(counter, state, i, keep);
            assert(short_before(next.entries, prunable, 0, i + 1, keep + 64)) by {
                assert forall|j: int| 0 <= j < i + 1 && prunable[j] implies (
                #[trigger] next.entries[j]).content.len() <= keep + 64 by {
                    if j < i {
                        assert(state.entries[j].content.len() <= keep + 64);
                    }
                }
            }
            if next.tokens > target {
                lemma_pass(counter, next, prunable, i + 1, keep, target);
            }
        }
    }
}

proof fn lemma_passes<F: Fn(&str) -> usize, G: Fn(&[Json]) -> usize>(
    counter: TokenCounter<F, G>,
    state: PruneState,
    prunable: Seq<bool>,
    keep: nat,
    target: nat,
)
    requires
        prunable.len() == state.entries.len(),
        state.changed.len() == state.entries.len(),
        all_countable(state.entries),
        keep >= 64,
    ensures
        ({
            let after = prune_passes(counter, state, prunable, keep, target);
            &&& pass_keeps(state, after)
            &&& after.tokens > target ==> short_before(
                after.entries,
                prunable,
                0,
                prunable.len() as int,
                keep + 64,
            )
        }),
    decreases keep,
{
    lemma_pass(counter, state, prunable, 0, keep, target);
    let next = prune_pass(counter, state, prunable, 0, keep, target);
    if !(next.tokens <= target || next.entries == state.entries || keep <= 64) {
        lemma_passes(counter, next, prunable, next_keep(keep), target);
        let after = prune_passes(counter, next, prunable, next_keep(keep), target);
        assert(next_keep(keep) <= keep);
        assert(pass_keeps(state, after)) by {
            assert forall|j: int| 0 <= j < state.entries.len() implies (
            #[trigger] after.entries[j]).content.len() <= state.entries[j].content.len()
                && after.entries[j].id == state.entries[j].id by {
                assert(next.entries[j].content.len() <= state.entries[j].content.len());
            }
        }
    }
}

/// Pruning makes room: no result gets longer, and where the history still costs more than it may
/// afterwards, no long result is left as it was.
pub proof fn law_pruning_shortens_long_results<F: Fn(&str) -> usize, G: Fn(&[Json]) -> usize>(
    counter: TokenCounter<F, G>,
    entries: Seq<EntryModel>,
    target: nat,
    i: int,
)
    requires
        0 <= i < entries.len(),
        forall|j: int|
            0 <= j < entries.len() ==> (#[trigger] entries[j]).content.len() <= u64::MAX,
    ensures
        ({
            let after = pruned(counter, entries, target);
            &&& after.entries.len() == entries.len()
            &&& after.entries[i].content.len() <= entries[i].content.len()
            &&& after.tokens > target && is_prunable(entries[i])
                ==> after.entries[i].content.len() <= 3264
            &&& is_tool(entries[i]) && entries[i].content.len() >= 4096 ==> is_prunable(entries[i])
        }),
{
    let start = prune_start(counter, entries);
    if start.tokens > target {
        let flags = prunable_flags(entries);
        lemma_passes(counter, start, flags, 3200, target);
        let after = pruned(counter, entries, target);
        assert(after.entries[i].content.len() <= start.entries[i].content.len());
        if after.tokens > target && is_prunable(entries[i]) {
            assert(flags[i]);
        }
    }
}

/// The identifiers of the entries that changed are named.
spec fn names_changed(entries: Seq<EntryModel>, state: PruneState) -> bool {
    &&& state.entries.len() == entries.len()
    &&& state.changed.len() == entries.len()
    &&& forall|j: int|
        0 <= j < entries.len() ==> {
            &&& #[trigger] state.entries[j] != entries[j] ==> state.changed[j]
            &&& state.changed[j] ==> state.ids.contains(entries[j].id)
            &&& state.entries[j].id == entries[j].id
        }
}

proof fn lemma_names_one<F: Fn(&str) -> usize, G: Fn(&[Json]) -> usize>(
    counter: TokenCounter<F, G>,
    entries: Seq<EntryModel>,
    state: PruneState,
    i: int,
    keep: nat,
)
    requires
        names_changed(entries, state),
        0 <= i < entries.len(),
    ensures
        names_changed(entries, prune_one(counter, state, i, keep)),
{
    let next = prune_one(counter, state, i, keep);
    let id = state.entries[i].id;
    if next != state {
        assert(next.ids.contains(id)) by {
            if state.changed[i] {
                assert(state.ids.contains(entries[i].id));
            } else {
                assert(next.ids[state.ids.len() as int] == id);
            }
        }
        assert forall|j: int| 0 <= j < entries.len() implies {
            &&& #[trigger] next.entries[j] != entries[j] ==> next.changed[j]
            &&& next.changed[j] ==> next.ids.contains(entries[j].id)
            &&& next.entries[j].id == entries[j].id
        } by {
            assert(state.entries[j].id == entries[j].id);
            if j != i && state.changed[j] {
                let k = choose|k: int| 0 <= k < state.ids.len() && state.ids[k] == entries[j].id;
                assert(next.ids[k] == entries[j].id);
            }
        }
    }
}

proof fn lemma_names_pass<F: Fn(&str) -> usize, G: Fn(&[Json]) -> usize>(
    counter: TokenCounter<F, G>,
    entries: Seq<EntryModel>,
    state: PruneState,
    prunable: Seq<bool>,
    i: int,
    keep: nat,
    target: nat,
)
    requires
        names_changed(entries, state),
        prunable.len() == entries.len(),
        0 <= i <= prunable.len(),
    ensures
        names_changed(entries, prune_pass(counter, state, prunable, i, keep, target)),
    decreases prunable.len() - i,
{
    if i < prunable.len() {
        if !prunable[i] {
            lemma_names_pass(counter, entries, state, prunable, i + 1, keep, target);
        } else {
            lemma_names_one(counter, entries, state, i, keep);
            let next = prune_one(counter, state, i, keep);
            lemma_names_pass(counter, entries, next, prunable, i + 1, keep, target);
        }
    }
}

proof fn lemma_names_passes<F: Fn(&str) -> usize, G: Fn(&[Json]) -> usize>(
    counter: TokenCounter<F, G>,
    entries: Seq<EntryModel>,
    state: PruneState,
    prunable: Seq<bool>,
    keep: nat,
    target: nat,
)
    requires
        names_changed(entries, state),
        prunable.len() == entries.len(),
    ensures
        names_changed(entries, prune_passes(counter, state, prunable, keep, target)),
    decreases keep,
{
    lemma_names_pass(counter, entries, state, prunable, 0, keep, target);
    let next = prune_pass(counter, state, prunable, 0, keep, target);
    if !(next.tokens <= target || next.entries == state.entries || keep <= 64) {
        lemma_names_passes(counter, entries, next, prunable, next_keep(keep), target);
    }
}

/// Pruning names every entry that it changed.
pub proof fn law_pruning_names_what_it_changed<F: Fn(&str) -> usize, G: Fn(&[Json]) -> usize>(
    counter: TokenCounter<F, G>,
    entries: Seq<EntryModel>,
    target: nat,
    i: int,
)
    requires
        0 <= i < entries.len(),
    ensures
        pruned(counter, entries, target).entries[i] != entries[i] ==> pruned(
            counter,
            entries,
            target,
        ).ids.contains(entries[i].id),
{
    let start = prune_start(counter, entries);
    assert(names_changed(entries, start));
    if start.tokens > target {
        lemma_names_passes(counter, entries, start, prunable_flags(entries), 3200, target);
    }
    let after = pruned(counter, entries, target);
    assert(names_changed(entries, after));
    assert(after.entries[i] != entries[i] ==> after.changed[i]);
}

// ---- what is worth a checkpoint ----

proof fn lemma_block_from(entries: Seq<EntryModel>, i: int, k: int)
    requires
        0 <= i <= k < entries.len(),
        is_user(entries[k]) || is_assistant(entries[k]),
    ensures
        block_from(entries, i) <= k,
    decreases k - i,
{
    if i < k && !block_starts(entries, i) {
        lemma_block_from(entries, i + 1, k);
    }
}

proof fn lemma_block_from_is(entries: Seq<EntryModel>, i: int)
    requires
        1 <= i <= entries.len(),
    ensures
        ({
            let k = block_from(entries, i);
            &&& i <= k <= entries.len()
            &&& k < entries.len() ==> is_user(entries[k]) || is_assistant(entries[k])
        }),
    decreases entries.len() - i,
{
    if i < entries.len() && !block_starts(entries, i) {
        lemma_block_from_is(entries, i + 1);
    }
}

/// A history is shortened if and only if more than one block stands before the part that is kept,
/// and these cost enough.
pub proof fn law_long_histories_are_shortened<F: Fn(&str) -> usize, G: Fn(&[Json]) -> usize>(
    counter: TokenCounter<F, G>,
    entries: Seq<EntryModel>,
    budget: ContextBudget,
    k: int,
)
    requires
        entries.len() > 0,
    ensures
        ({
            let start = tail_start(counter, entries, budget.tail());
            let cost = entries_tokens(counter, entries.take(start));
            &&& entries.len() >= 3 && 1 <= k < start < entries.len() && (is_user(entries[k])
                || is_assistant(entries[k])) && cost >= 64 ==> compactable(
                counter,
                entries,
                budget,
            )
            &&& compactable(counter, entries, budget) ==> entries.len() >= 3 && cost >= 64
                && exists|j: int|
                1 <= j < start && (is_user(#[trigger] entries[j]) || is_assistant(entries[j]))
        }),
{
    let start = tail_start(counter, entries, budget.tail());
    if entries.len() >= 3 && 1 <= k < start < entries.len() && (is_user(entries[k])
        || is_assistant(entries[k])) {
        lemma_block_from(entries, 1, k);
    }
    if compactable(counter, entries, budget) {
        super::checkpoint_laws::law_as_much_is_kept_as_fits(counter, entries, budget.tail(), 0);
        lemma_block_from_is(entries, 1);
        let j = block_from(entries, 1);
        assert(1 <= j < start && (is_user(entries[j]) || is_assistant(entries[j])));
    }
}

// ---- costs ----

/// An entry costs what is said in it: its content, its reasoning, its calls and what they answer.
/// A history costs what its parts cost.
pub proof fn law_histories_cost_what_is_said<F: Fn(&str) -> usize, G: Fn(&[Json]) -> usize>(
    counter: TokenCounter<F, G>,
    entry: EntryModel,
    a: Seq<EntryModel>,
    b: Seq<EntryModel>,
    calls: Seq<ToolCallModel>,
    call: ToolCallModel,
)
    ensures
        entry.content.len() > 0 ==> entry_tokens(counter, entry) >= counter.base_message_tokens
            + counter.tokens(entry.role) + counter.tokens(entry.content) + counter.tokens(
            entry.reasoning,
        ) + calls_tokens(counter, entry.tool_calls),
        calls_tokens(counter, calls.push(call)) == calls_tokens(counter, calls) + counter.tokens(
            call.name,
        ) + counter.tokens(call.arguments),
        sum_tokens(counter, a + b) == sum_tokens(counter, a) + sum_tokens(counter, b),
        sum_tokens(counter, seq![entry]) == entry_tokens(counter, entry),
        entries_tokens(counter, a) == counter.format_tokens + sum_tokens(counter, a),
{
    assert(calls.push(call).drop_last() =~= calls);
    super::compaction::lemma_sum_tokens_add(counter, a, b);
    assert(seq![entry].drop_last() =~= Seq::<EntryModel>::empty());
    assert(sum_tokens(counter, seq![entry].drop_last()) == 0);
}

/// A request costs what its messages and the definitions of all its tools cost.
pub proof fn law_requests_cost_messages_and_tools<F: Fn(&str) -> usize, G: Fn(&[Json]) -> usize>(
    counter: TokenCounter<F, G>,
    messages: Seq<JsonModel>,
    tools: Seq<JsonModel>,
    tool: JsonModel,
)
    ensures
        request_tokens(counter, messages, Seq::empty()) == capped(
            counter.messages_tokens(messages),
        ),
        tools_tokens(counter, tools.push(tool)) == tools_tokens(counter, tools) + counter.tokens(
            compact_json(tool),
        ),
        counter.messages_tokens(messages) + tools_tokens(counter, tools) <= usize::MAX
            ==> request_tokens(counter, messages, tools) == counter.messages_tokens(messages)
            + tools_tokens(counter, tools),
{
    assert(tools.push(tool).drop_last() =~= tools);
}

/// What a request may cost is what the window leaves beside the answer and the margin. It is
/// shortened before that is reached, and most of it may then be new.
pub proof fn law_budgets_leave_room(budget: ContextBudget)
    requires
        budget.window >= budget.output_reserve + budget.safety_margin,
        budget.window * 80 <= usize::MAX,
    ensures
        budget.input() + budget.output_reserve + budget.safety_margin == budget.window,
        budget.pressure() == budget.input() * 80 / 100,
        budget.tail() == budget.input() * 16 / 100,
{
}

} // verus!
