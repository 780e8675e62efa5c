//! What shortening a history guarantees.

use vstd::prelude::*;

use super::budget::ContextBudget;
use super::compaction::{
    block_at, block_starts, checkpoint, checkpoint_chars, compactable, enforced, entry_utterance,
    entry_utterances, finalized, kept_from, lemma_block_at, lemma_kept_from, pairs_error, reduced,
    tail_start, CompactionPlan,
};
use super::counter::TokenCounter;
use super::surface::{
    compacted, is_prunable, next_keep, prunable_flags, prune_one, prune_pass, prune_passes,
    prune_start, pruned, shortened, PruneState, PRUNED_PREFIX, PRUNED_SUFFIX,
};
use crate::json::Json;
use crate::memory::{is_assistant, is_user, lemma_roles_differ};
use crate::models::EntryModel;
use crate::number::decimal;
use crate::pairs::{heard, heard_all, FaultModel, Pending};

verus! {

// ---- compacting a text ----

proof fn lemma_decimal_len(n: nat, k: nat)
    requires
        k >= 1,
        n < vstd::arithmetic::power::pow(10, k),
    ensures
        decimal(n).len() <= k,
    decreases k,
{
    vstd::arithmetic::power::lemma_pow1(10);
    if n >= 10 {
        if k == 1 {
            assert(false);
        }
        vstd::arithmetic::power::lemma_pow_adds(10, 1, (k - 1) as nat);
        let p = vstd::arithmetic::power::pow(10, (k - 1) as nat);
        assert(n / 10 < p) by (nonlinear_arith)
            requires
                n < 10 * p,
        ;
        lemma_decimal_len(n / 10, (k - 1) as nat);
    }
}

pub proof fn lemma_note_len(n: nat)
    requires
        n <= u64::MAX,
    ensures
        (PRUNED_PREFIX@ + decimal(n) + PRUNED_SUFFIX@).len() < 64,
{
    reveal_strlit("\n[tool output pruned: ");
    reveal_strlit(" characters]\n");
    assert(n < vstd::arithmetic::power::pow(10, 20)) by {
        reveal(vstd::arithmetic::power::pow);
        reveal_with_fuel(vstd::arithmetic::power::pow, 21);
    }
    lemma_decimal_len(n, 20);
}

/// A compacted text is never longer than the text; where it is not the text itself, it is
/// shorter, and it begins and ends as the text does.
pub proof fn law_compacting_keeps_head_and_tail(text: Seq<char>, head: nat, tail: nat)
    requires
        text.len() <= u64::MAX,
    ensures
        compacted(text, head, tail).len() <= text.len(),
        compacted(text, head, tail) != text ==> {
            let short = compacted(text, head, tail);
            &&& head + tail <= short.len() < text.len()
            &&& short.take(head as int) == text.take(head as int)
            &&& short.skip(short.len() - tail) == text.skip(text.len() - tail)
        },
{
    if text.len() > head + tail + 64 {
        lemma_note_len(text.len());
        let note = PRUNED_PREFIX@ + decimal(text.len()) + PRUNED_SUFFIX@;
        let short = compacted(text, head, tail);
        assert(short =~= text.take(head as int) + note + text.skip(text.len() - tail));
        assert(short.take(head as int) =~= text.take(head as int));
        assert(short.skip(short.len() - tail) =~= text.skip(text.len() - tail));
    }
}

// ---- pruning ----

/// The part of a tool's output that pruning never touches, at either end.
pub open spec fn kept_end() -> int {
    32
}

/// `b` begins and ends as `a` does.
pub open spec fn keeps_ends(a: Seq<char>, b: Seq<char>) -> bool {
    &&& b.len() >= 2 * kept_end()
    &&& b.take(kept_end()) == a.take(kept_end())
    &&& b.skip(b.len() - kept_end()) == a.skip(a.len() - kept_end())
}

/// `b` is `a`, except that the content of long tool results may have lost its middle.
pub open spec fn only_outputs_pruned(a: Seq<EntryModel>, b: Seq<EntryModel>) -> bool {
    &&& a.len() == b.len()
    &&& forall|i: int|
        0 <= i < a.len() ==> {
            &&& #[trigger] b[i] == (EntryModel { content: b[i].content, ..a[i] })
            &&& b[i].content == a[i].content || (is_prunable(a[i]) && keeps_ends(
                a[i].content,
                b[i].content,
            ))
        }
}

proof fn lemma_prune_one<F: Fn(&str) -> usize, G: Fn(&[Json]) -> usize>(
    counter: TokenCounter<F, G>,
    entries: Seq<EntryModel>,
    state: PruneState,
    i: int,
    keep: nat,
)
    requires
        only_outputs_pruned(entries, state.entries),
        0 <= i < entries.len(),
        is_prunable(entries[i]),
        keep >= 64,
    ensures
        only_outputs_pruned(entries, prune_one(counter, state, i, keep).entries),
{
    let old_entry = state.entries[i];
    let new_entry = shortened(old_entry, keep);
    let next = prune_one(counter, state, i, keep);
    assert(old_entry == (EntryModel { content: old_entry.content, ..entries[i] }));
    if new_entry.content != old_entry.content {
        let c = old_entry.content;
        let h = keep / 2;
        let short = new_entry.content;
        assert(c.len() > h + h + 64);
        let note = PRUNED_PREFIX@ + decimal(c.len()) + PRUNED_SUFFIX@;
        assert(short =~= c.take(h as int) + note + c.skip(c.len() - h));
        assert(short.take(32) =~= c.take(32));
        assert(short.skip(short.len() - 32) =~= c.skip(c.len() - 32));
        assert forall|j: int| 0 <= j < entries.len() implies {
            &&& #[trigger] next.entries[j] == (EntryModel {
                content: next.entries[j].content,
                ..entries[j]
            })
            &&& next.entries[j].content == entries[j].content || (is_prunable(entries[j])
                && keeps_ends(entries[j].content, next.entries[j].content))
        } by {
            if j != i {
                assert(next.entries[j] == state.entries[j]);
            }
        }
    }
}

proof fn lemma_prune_pass<F: Fn(&str) -> usize, G: Fn(&[Json]) -> usize>(
    counter: TokenCounter<F, G>,
    entries: Seq<EntryModel>,
    state: PruneState,
    i: int,
    keep: nat,
    target: nat,
)
    requires
        only_outputs_pruned(entries, state.entries),
        0 <= i <= entries.len(),
        keep >= 64,
    ensures
        only_outputs_pruned(
            entries,
            prune_pass(counter, state, prunable_flags(entries), i, keep, target).entries,
        ),
    decreases entries.len() - i,
{
    if i < entries.len() {
        if !prunable_flags(entries)[i] {
            lemma_prune_pass(counter, entries, state, i + 1, keep, target);
        } else {
            lemma_prune_one(counter, entries, state, i, keep);
            let next = prune_one(counter, state, i, keep);
            lemma_prune_pass(counter, entries, next, i + 1, keep, target);
        }
    }
}

proof fn lemma_prune_passes<F: Fn(&str) -> usize, G: Fn(&[Json]) -> usize>(
    counter: TokenCounter<F, G>,
    entries: Seq<EntryModel>,
    state: PruneState,
    keep: nat,
    target: nat,
)
    requires
        only_outputs_pruned(entries, state.entries),
        keep >= 64,
    ensures
        only_outputs_pruned(
            entries,
            prune_passes(counter, state, prunable_flags(entries), keep, target).entries,
        ),
    decreases keep,
{
    lemma_prune_pass(counter, entries, state, 0, keep, target);
    let next = prune_pass(counter, state, prunable_flags(entries), 0, keep, target);
    if !(next.tokens <= target || next.entries == state.entries || keep <= 64) {
        lemma_prune_passes(counter, entries, next, next_keep(keep), target);
    }
}

/// Pruning changes nothing but the content of long tool results, and these keep their beginning
/// and their end.
pub proof fn law_pruning_preserves_head_and_tail<
    F: Fn(&str) -> usize,
    G: Fn(&[Json]) -> usize,
>(counter: TokenCounter<F, G>, entries: Seq<EntryModel>, target: nat)
    ensures
        only_outputs_pruned(entries, pruned(counter, entries, target).entries),
{
    let start = prune_start(counter, entries);
    if start.tokens > target {
        lemma_prune_passes(counter, entries, start, 3200, target);
    }
}

/// A history that is within the budget is not pruned.
pub proof fn law_pruning_leaves_short_histories_alone<
    F: Fn(&str) -> usize,
    G: Fn(&[Json]) -> usize,
>(counter: TokenCounter<F, G>, entries: Seq<EntryModel>, target: nat)
    requires
        prune_start(counter, entries).tokens <= target,
    ensures
        pruned(counter, entries, target).entries == entries,
        pruned(counter, entries, target).ids == Seq::<Seq<char>>::empty(),
{
}

// ---- tool calls and their results ----

/// No call waits for its result.
spec fn settled() -> Pending {
    Ok(Set::empty())
}

/// What the entries do to the calls that wait for their result.
spec fn told(pending: Pending, entries: Seq<EntryModel>) -> Pending {
    heard_all(pending, entry_utterances(entries), false)
}

proof fn lemma_told_add(pending: Pending, a: Seq<EntryModel>, b: Seq<EntryModel>)
    ensures
        told(pending, a + b) == told(told(pending, a), b),
    decreases b.len(),
{
    if b.len() == 0 {
        assert(a + b =~= a);
    } else {
        assert(entry_utterances(a + b).drop_last() =~= entry_utterances(a + b.drop_last()));
        assert(entry_utterances(a + b).last() == entry_utterance(b.last()));
        assert(entry_utterances(b).drop_last() =~= entry_utterances(b.drop_last()));
        assert(entry_utterances(b).last() == entry_utterance(b.last()));
        lemma_told_add(pending, a, b.drop_last());
    }
}

proof fn lemma_told_one(pending: Set<Seq<char>>, entry: EntryModel)
    ensures
        told(Ok(pending), seq![entry]) == heard(pending, entry_utterance(entry), false),
{
    let said = entry_utterances(seq![entry]);
    assert(said.drop_last().len() == 0);
    assert(heard_all(Ok(pending), said.drop_last(), false) == Ok::<Set<Seq<char>>, FaultModel>(
        pending,
    ));
}

proof fn lemma_told_fault(pending: Pending, entries: Seq<EntryModel>)
    requires
        pending is Err,
    ensures
        told(pending, entries) == pending,
    decreases entries.len(),
{
    if entries.len() > 0 {
        assert(entry_utterances(entries).drop_last() =~= entry_utterances(entries.drop_last()));
        lemma_told_fault(pending, entries.drop_last());
    }
}

/// Where a block begins, a history can be cut.
proof fn lemma_cut(a: Seq<EntryModel>, b: Seq<EntryModel>)
    requires
        pairs_error(a + b) is None,
        b.len() > 0,
        a.len() == 0 || is_user(b[0]) || is_assistant(b[0]),
    ensures
        pairs_error(b) is None,
{
    if a.len() == 0 {
        assert(a + b =~= b);
    } else {
        lemma_told_add(settled(), a, b);
        let before = told(settled(), a);
        lemma_roles_differ(b[0]);
        let rest = b.skip(1);
        assert(b =~= seq![b[0]] + rest);
        lemma_told_add(before, seq![b[0]], rest);
        match before {
            Ok(set) => {
                lemma_told_one(set, b[0]);
                if set != Set::<Seq<char>>::empty() {
                    lemma_told_fault(heard(set, entry_utterance(b[0]), false), rest);
                }
            },
            Err(_) => {
                lemma_told_fault(before, b);
            },
        }
    }
}

/// The part of a history that is kept begins with a block: with the user or the assistant, never
/// with the result of a tool. Together with the part that is replaced it is the whole history.
pub proof fn law_kept_part_begins_with_a_block<F: Fn(&str) -> usize, G: Fn(&[Json]) -> usize>(
    counter: TokenCounter<F, G>,
    entries: Seq<EntryModel>,
    budget: ContextBudget,
)
    requires
        compactable(counter, entries, budget),
    ensures
        ({
            let start = tail_start(counter, entries, budget.tail());
            &&& 0 < start < entries.len()
            &&& is_user(entries[start]) || is_assistant(entries[start])
            &&& entries.take(start) + entries.skip(start) == entries
        }),
{
    let last = block_at(entries, entries.len() - 1);
    lemma_block_at(entries, entries.len() - 1);
    lemma_kept_from(counter, entries, last, budget.tail());
    let start = tail_start(counter, entries, budget.tail());
    lemma_block_from_positive(entries, 1);
    assert(entries.take(start) + entries.skip(start) =~= entries);
}

proof fn lemma_block_from_positive(entries: Seq<EntryModel>, i: int)
    requires
        0 <= i <= entries.len(),
    ensures
        i <= super::compaction::block_from(entries, i),
    decreases entries.len() - i,
{
    if i < entries.len() && !block_starts(entries, i) {
        lemma_block_from_positive(entries, i + 1);
    }
}

proof fn lemma_enforced<F: Fn(&str) -> usize, G: Fn(&[Json]) -> usize>(
    counter: TokenCounter<F, G>,
    entry: EntryModel,
    shadowed: nat,
    target: nat,
)
    ensures
        enforced(counter, entry, shadowed, target) == (EntryModel {
            content: enforced(counter, entry, shadowed, target).content,
            ..entry
        }),
    decreases target,
{
    let shorter = EntryModel {
        content: compacted(entry.content, target / 2, (target - target / 2) as nat),
        ..entry
    };
    let lower = super::counter::capped(target * 3) / 4;
    let cut = EntryModel {
        content: crate::text::first_chars(
            shorter.content,
            if lower > 32 {
                lower
            } else {
                32
            },
        ),
        ..shorter
    };
    if lower < target {
        lemma_enforced(counter, cut, shadowed, lower);
    }
}

/// A history whose tool calls all have their results keeps this property when its older part is
/// replaced by a checkpoint, whatever the summary says.
pub proof fn law_compaction_keeps_tool_pairs<F: Fn(&str) -> usize, G: Fn(&[Json]) -> usize>(
    counter: TokenCounter<F, G>,
    entries: Seq<EntryModel>,
    plan: CompactionPlan,
    summary: Seq<char>,
    budget: ContextBudget,
    created_at: i64,
)
    requires
        pairs_error(entries) is None,
        compactable(counter, entries, budget),
        plan.plans(counter, entries, budget),
    ensures
        pairs_error(finalized(counter, plan, summary, budget, created_at).0) is None,
{
    let start = tail_start(counter, entries, budget.tail());
    law_kept_part_begins_with_a_block(counter, entries, budget);
    let tail = entries.skip(start);
    lemma_cut(entries.take(start), tail);
    let shadowed = plan.shadowed_tokens as nat;
    let first = checkpoint(plan.compaction_id@, summary, created_at);
    let head = enforced(counter, first, shadowed, checkpoint_chars(shadowed));
    lemma_enforced(counter, first, shadowed, checkpoint_chars(shadowed));
    assert(is_user(head));
    lemma_roles_differ(head);
    let all = seq![head] + tail;
    lemma_told_add(settled(), seq![head], tail);
    lemma_told_one(Set::empty(), head);
    assert(pairs_error(all) is None);
    let state = pruned(counter, all, budget.input());
    law_pruning_preserves_head_and_tail(counter, all, budget.input());
    assert(entry_utterances(state.entries) =~= entry_utterances(all));
    assert(entry_utterances(reduced(state.entries)) =~= entry_utterances(all));
}

} // verus!
