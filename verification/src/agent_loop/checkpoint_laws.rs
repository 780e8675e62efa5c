//! What a checkpoint and the history behind it guarantee.

use vstd::prelude::*;

use super::budget::ContextBudget;
use super::compaction::{
    block_at, block_starts, checkpoint, checkpoint_chars, enforced, finalized, is_checkpoint_entry,
    kept_from, last_checkpoint, lemma_block_at, lemma_kept_from, single_tokens, tail_start,
    CompactionPlan,
};
use super::counter::{capped, TokenCounter};
use super::laws::law_pruning_preserves_head_and_tail;
use super::surface::{compacted, entries_tokens, pruned};
use crate::deep::{deep, group_deep};
use crate::json::Json;
use crate::memory::{is_assistant, is_tool, is_user};
use crate::models::EntryModel;
use crate::text::{begins_with, finishes_with, first_chars};

verus! {

broadcast use group_deep;

/// A checkpoint is a message of the user that ends with the summary, and can be told from any
/// other message. Different summaries make different checkpoints.
pub proof fn law_checkpoints_end_with_their_summary(
    id: Seq<char>,
    summary: Seq<char>,
    other: Seq<char>,
    at: i64,
)
    ensures
        ({
            let entry = checkpoint(id, summary, at);
            &&& is_checkpoint_entry(entry)
            &&& is_user(entry)
            &&& entry.content.len() >= summary.len()
            &&& entry.content.skip(entry.content.len() - summary.len()) == summary
            &&& begins_with(entry.content, "[RustPilot context checkpoint]"@)
            &&& finishes_with(entry.id, id)
            &&& entry.created_at == at
            &&& entry.tool_calls.len() == 0
            &&& entry.tool_call_id is None
            &&& summary != other ==> entry.content != checkpoint(id, other, at).content
        }),
{
    let entry = checkpoint(id, summary, at);
    let front = entry.content.len() - summary.len();
    assert(entry.content.skip(front) =~= summary);
    assert(entry.id.skip(entry.id.len() - id.len()) =~= id);
    let prefix = "[RustPilot context checkpoint]"@;
    assert(entry.content.take(prefix.len() as int) =~= prefix);
    if summary != other {
        let second = checkpoint(id, other, at);
        if entry.content == second.content {
            assert(second.content.skip(front) =~= other);
        }
    }
}

/// The last checkpoint of a history is found, and no other entry is taken for one.
pub proof fn law_the_last_checkpoint_is_found(entries: Seq<EntryModel>, i: int)
    requires
        0 <= i < entries.len(),
    ensures
        is_checkpoint_entry(entries[i]) && (forall|j: int|
            i < j < entries.len() ==> !is_checkpoint_entry(#[trigger] entries[j]))
            ==> last_checkpoint(entries) == Some(entries[i].content),
        last_checkpoint(entries) is None ==> !is_checkpoint_entry(entries[i]),
    decreases entries.len(),
{
    let head = entries.drop_last();
    if i < head.len() {
        law_the_last_checkpoint_is_found(head, i);
        assert(head[i] == entries[i]);
        assert(entries[entries.len() - 1] == entries.last());
        assert(forall|j: int| i < j < head.len() ==> head[j] == #[trigger] entries[j]);
    }
}

proof fn lemma_enforced_result<F: Fn(&str) -> usize, G: Fn(&[Json]) -> usize>(
    counter: TokenCounter<F, G>,
    entry: EntryModel,
    shadowed: nat,
    target: nat,
)
    requires
        target > 0,
        target <= usize::MAX,
    ensures
        ({
            let after = enforced(counter, entry, shadowed, target);
            &&& after == (EntryModel { content: after.content, ..entry })
            &&& single_tokens(counter, after) < shadowed || after.content.len() <= 32
            &&& single_tokens(counter, entry) < shadowed ==> after == entry
        }),
    decreases target,
{
    let shorter = EntryModel {
        content: compacted(entry.content, target / 2, (target - target / 2) as nat),
        ..entry
    };
    let lower = capped(target * 3) / 4;
    let cut = EntryModel {
        content: first_chars(
            shorter.content,
            if lower > 32 {
                lower
            } else {
                32
            },
        ),
        ..shorter
    };
    assert(lower < target);
    if lower > 0 {
        lemma_enforced_result(counter, cut, shadowed, lower);
    }
}

/// A checkpoint that costs less than what it replaces is kept whole. Any other one is cut down
/// until it costs less, or has at most 32 characters; nothing but its content changes.
pub proof fn law_checkpoints_are_cut_only_where_they_must_be<
    F: Fn(&str) -> usize,
    G: Fn(&[Json]) -> usize,
>(counter: TokenCounter<F, G>, entry: EntryModel, shadowed: nat)
    requires
        shadowed <= usize::MAX,
    ensures
        ({
            let after = enforced(counter, entry, shadowed, checkpoint_chars(shadowed));
            &&& after == (EntryModel { content: after.content, ..entry })
            &&& single_tokens(counter, entry) < shadowed ==> after == entry
            &&& single_tokens(counter, after) < shadowed || after.content.len() <= 32
        }),
{
    lemma_enforced_result(counter, entry, shadowed, checkpoint_chars(shadowed));
}

/// An entry that was shortened, if it was, lost nothing but reasoning and the middle of a tool's
/// result.
pub open spec fn lighter(before: EntryModel, after: EntryModel) -> bool {
    &&& after == (EntryModel { content: after.content, reasoning: after.reasoning, ..before })
    &&& !is_tool(before) ==> after.content == before.content
    &&& !is_assistant(before) ==> after.reasoning == before.reasoning
}

/// The shortened history is the checkpoint and the whole kept part behind it: no entry is lost,
/// none is added, and nothing is changed but the results of tools and the reasoning. Where all of
/// it is within the budget nothing is changed at all. Where the checkpoint costs less than what it
/// replaces, the first entry ends with the whole summary.
pub proof fn law_compaction_keeps_the_summary_and_the_tail<
    F: Fn(&str) -> usize,
    G: Fn(&[Json]) -> usize,
>(
    counter: TokenCounter<F, G>,
    plan: CompactionPlan,
    summary: Seq<char>,
    budget: ContextBudget,
    created_at: i64,
    i: int,
)
    ensures
        ({
            let (entries, ids) = finalized(counter, plan, summary, budget, created_at);
            let tail = deep(plan.tail_entries@);
            let whole = checkpoint(plan.compaction_id@, summary, created_at);
            &&& entries.len() == 1 + tail.len()
            &&& is_user(entries[0])
            &&& entries[0].id == "checkpoint-"@ + plan.compaction_id@
            &&& single_tokens(counter, whole) < plan.shadowed_tokens ==> {
                &&& entries[0] == whole
                &&& entries[0].content.len() >= summary.len()
                &&& entries[0].content.skip(entries[0].content.len() - summary.len()) == summary
                &&& entries_tokens(counter, seq![whole] + tail) <= budget.input() ==> entries
                    == seq![whole] + tail && ids.len() == 0
            }
            &&& 0 <= i < tail.len() ==> lighter(tail[i], entries[i + 1])
        }),
{
    let tail = deep(plan.tail_entries@);
    let whole = checkpoint(plan.compaction_id@, summary, created_at);
    let shadowed = plan.shadowed_tokens as nat;
    let head = enforced(counter, whole, shadowed, checkpoint_chars(shadowed));
    law_checkpoints_are_cut_only_where_they_must_be(counter, whole, shadowed);
    law_checkpoints_end_with_their_summary(plan.compaction_id@, summary, summary, created_at);
    let all = seq![head] + tail;
    law_pruning_preserves_head_and_tail(counter, all, budget.input());
    let state = pruned(counter, all, budget.input());
    let entries = finalized(counter, plan, summary, budget, created_at).0;
    crate::memory::lemma_roles_differ(head);
    assert(all[0] == head);
    assert(state.entries[0] == (EntryModel { content: state.entries[0].content, ..all[0] }));
    assert(state.entries[0] == head);
    if 0 <= i < tail.len() {
        assert(all[i + 1] == tail[i]);
        assert(state.entries[i + 1] == (EntryModel {
            content: state.entries[i + 1].content,
            ..all[i + 1]
        }));
        crate::memory::lemma_roles_differ(tail[i]);
    }
}

proof fn lemma_kept_from_fits<F: Fn(&str) -> usize, G: Fn(&[Json]) -> usize>(
    counter: TokenCounter<F, G>,
    entries: Seq<EntryModel>,
    start: int,
    limit: nat,
)
    requires
        0 <= start < entries.len(),
        block_starts(entries, start),
    ensures
        ({
            let first = kept_from(counter, entries, start, limit);
            &&& first < start ==> entries_tokens(counter, entries.skip(first)) <= limit
            &&& first > 0 ==> entries_tokens(
                counter,
                entries.skip(block_at(entries, first - 1)),
            ) > limit
        }),
    decreases start,
{
    if start > 0 {
        lemma_block_at(entries, start - 1);
        let previous = block_at(entries, start - 1);
        if entries_tokens(counter, entries.skip(previous)) <= limit {
            lemma_kept_from_fits(counter, entries, previous, limit);
            lemma_kept_from(counter, entries, previous, limit);
        }
    }
}

/// As much of a history is kept as its limit allows: what is kept costs no more than the limit, or
/// is the last block alone; together with the block before it, it would cost more.
pub proof fn law_as_much_is_kept_as_fits<F: Fn(&str) -> usize, G: Fn(&[Json]) -> usize>(
    counter: TokenCounter<F, G>,
    entries: Seq<EntryModel>,
    limit: nat,
    k: int,
)
    requires
        entries.len() > 0,
    ensures
        ({
            let start = tail_start(counter, entries, limit);
            &&& 0 <= start < entries.len()
            &&& start == 0 || is_user(entries[start]) || is_assistant(entries[start])
            &&& entries_tokens(counter, entries.skip(start)) <= limit || forall|j: int|
                start < j < entries.len() ==> !is_user(#[trigger] entries[j]) && !is_assistant(
                    entries[j],
                )
            &&& 0 <= k < start && (k == 0 || is_user(entries[k]) || is_assistant(entries[k]))
                && (forall|j: int|
                k < j < start ==> !is_user(#[trigger] entries[j]) && !is_assistant(entries[j]))
                ==> entries_tokens(counter, entries.skip(k)) > limit
        }),
{
    let last = block_at(entries, entries.len() - 1);
    lemma_block_at(entries, entries.len() - 1);
    lemma_kept_from(counter, entries, last, limit);
    lemma_kept_from_fits(counter, entries, last, limit);
    let start = tail_start(counter, entries, limit);
    if start == last && !(entries_tokens(counter, entries.skip(start)) <= limit) {
        assert forall|j: int| start < j < entries.len() implies !is_user(#[trigger] entries[j])
            && !is_assistant(entries[j]) by {
            assert(!block_starts(entries, j));
        }
    }
    if 0 <= k < start && (k == 0 || is_user(entries[k]) || is_assistant(entries[k])) && (forall|
        j: int,
    |
        k < j < start ==> !is_user(#[trigger] entries[j]) && !is_assistant(entries[j])) {
        lemma_block_at(entries, start - 1);
        let previous = block_at(entries, start - 1);
        if previous < k {
            assert(!block_starts(entries, k));
        } else if previous > k {
            assert(block_starts(entries, previous));
        }
    }
}

} // verus!
