//! Replacing the older part of a history by a checkpoint.

use vstd::prelude::*;
use vstd::utf8::encode_utf8;

use super::budget::{saturating_product, ContextBudget};
use super::counter::{capped, TokenCounter};
use super::surface::{
    compact_text, compacted, entries_tokens, entry_tokens, estimate_entries, estimate_entry,
    prune_tool_results, pruned, sum_tokens, PruneState, CHECKPOINT_PREFIX,
};
use super::wire::{surface_hash, surface_hash_text};
use crate::deep::{copy_all, deep, group_deep};
use crate::ids::{is_uuid, new_uuid};
use crate::json::Json;
use crate::memory::{is_assistant, is_tool, is_user};
use crate::models::{copy_entries, plain_entry, same_entries, AgentMemoryEntry, EntryModel};
use crate::pairs::{heard, heard_all, lemma_heard_next, Fault, FaultModel, OpenCalls, Utterance};
use crate::text::{begins_with, chars_of, first_chars, same, starts_with, take_chars};

verus! {

broadcast use group_deep;

/// Text between the prefix of a checkpoint and its summary.
pub const CHECKPOINT_NOTE: &'static str =
    "\nThis checkpoint replaces older execution history. Treat it as authoritative context and continue from the newest preserved messages.\n\n";

/// A history that costs less is not worth a checkpoint.
pub const MIN_SHADOWED_TOKENS: usize = 64;

// ---- checkpoints ----

pub open spec fn is_checkpoint_entry(entry: EntryModel) -> bool {
    is_user(entry) && begins_with(entry.content, CHECKPOINT_PREFIX@)
}

/// The checkpoint with the summary `summary`.
pub open spec fn checkpoint(
    compaction_id: Seq<char>,
    summary: Seq<char>,
    created_at: i64,
) -> EntryModel {
    plain_entry(
        "checkpoint-"@ + compaction_id,
        "user"@,
        CHECKPOINT_PREFIX@ + CHECKPOINT_NOTE@ + summary,
        created_at,
    )
}

/// The checkpoint with the summary `summary`.
pub fn summary_message(compaction_id: &str, summary: &str, created_at: i64) -> (r: AgentMemoryEntry)
    ensures
        r.deep_view() == checkpoint(compaction_id@, summary@, created_at),
{
    let mut id = "checkpoint-".to_owned();
    id.append(compaction_id);
    let mut content = CHECKPOINT_PREFIX.to_owned();
    content.append(CHECKPOINT_NOTE);
    content.append(summary);
    AgentMemoryEntry::plain(id, "user", content, created_at)
}

pub fn is_checkpoint(entry: &AgentMemoryEntry) -> (r: bool)
    ensures
        r == is_checkpoint_entry(entry.deep_view()),
{
    same(&entry.role, "user") && starts_with(&entry.content, CHECKPOINT_PREFIX)
}

/// The content of the last checkpoint.
pub open spec fn last_checkpoint(entries: Seq<EntryModel>) -> Option<Seq<char>>
    decreases entries.len(),
{
    if entries.len() == 0 {
        None
    } else if is_checkpoint_entry(entries.last()) {
        Some(entries.last().content)
    } else {
        last_checkpoint(entries.drop_last())
    }
}

/// The content of the last checkpoint.
pub fn latest_checkpoint(entries: &[AgentMemoryEntry]) -> (r: Option<String>)
    ensures
        r.deep_view() == last_checkpoint(deep(entries@)),
{
    let ghost models = deep(entries@);
    let mut i: usize = entries.len();
    proof {
        assert(models.take(i as int) =~= models);
    }
    while i > 0
        invariant
            i <= entries@.len(),
            models == deep(entries@),
            last_checkpoint(models) == last_checkpoint(models.take(i as int)),
        decreases i,
    {
        proof {
            assert(models.take(i as int).last() == entries@[i - 1].deep_view());
            assert(models.take(i as int).drop_last() =~= models.take(i - 1));
        }
        if is_checkpoint(&entries[i - 1]) {
            return Some(entries[i - 1].content.clone());
        }
        i -= 1;
    }
    None
}

// ---- where the kept part begins ----

/// Whether a block begins at `i`: with the first entry, and with each entry of the user or of
/// the assistant. The results of tools belong to the block before them.
pub open spec fn block_starts(entries: Seq<EntryModel>, i: int) -> bool {
    i == 0 || is_user(entries[i]) || is_assistant(entries[i])
}

/// The last block that begins at or before `i`.
pub open spec fn block_at(entries: Seq<EntryModel>, i: int) -> int
    decreases i,
{
    if i <= 0 {
        0
    } else if block_starts(entries, i) {
        i
    } else {
        block_at(entries, i - 1)
    }
}

/// The first block that begins at or behind `i`; the number of entries where there is none.
pub open spec fn block_from(entries: Seq<EntryModel>, i: int) -> int
    decreases entries.len() - i,
{
    if i >= entries.len() {
        entries.len() as int
    } else if block_starts(entries, i) {
        i
    } else {
        block_from(entries, i + 1)
    }
}

/// Where the kept part begins, if the part from the block `start` on is kept: with the earliest
/// block such that all from there on costs no more than `limit`.
pub open spec fn kept_from<F: Fn(&str) -> usize, G: Fn(&[Json]) -> usize>(
    counter: TokenCounter<F, G>,
    entries: Seq<EntryModel>,
    start: int,
    limit: nat,
) -> int
    decreases start,
{
    if start <= 0 {
        0
    } else {
        let previous = block_at(entries, start - 1);
        if 0 <= previous < start && entries_tokens(counter, entries.skip(previous)) <= limit {
            kept_from(counter, entries, previous, limit)
        } else {
            start
        }
    }
}

/// Where the kept part of a history begins. The last block is kept in any case.
pub open spec fn tail_start<F: Fn(&str) -> usize, G: Fn(&[Json]) -> usize>(
    counter: TokenCounter<F, G>,
    entries: Seq<EntryModel>,
    limit: nat,
) -> int {
    kept_from(counter, entries, block_at(entries, entries.len() - 1), limit)
}

pub proof fn lemma_block_at(entries: Seq<EntryModel>, i: int)
    requires
        0 <= i < entries.len(),
    ensures
        0 <= block_at(entries, i) <= i,
        block_starts(entries, block_at(entries, i)),
        forall|j: int| block_at(entries, i) < j <= i ==> !#[trigger] block_starts(entries, j),
    decreases i,
{
    if i > 0 && !block_starts(entries, i) {
        lemma_block_at(entries, i - 1);
    }
}

pub proof fn lemma_kept_from<F: Fn(&str) -> usize, G: Fn(&[Json]) -> usize>(
    counter: TokenCounter<F, G>,
    entries: Seq<EntryModel>,
    start: int,
    limit: nat,
)
    requires
        0 <= start < entries.len(),
        block_starts(entries, start),
    ensures
        0 <= kept_from(counter, entries, start, limit) <= start,
        block_starts(entries, kept_from(counter, entries, start, limit)),
    decreases start,
{
    if start > 0 {
        lemma_block_at(entries, start - 1);
        let previous = block_at(entries, start - 1);
        if entries_tokens(counter, entries.skip(previous)) <= limit {
            lemma_kept_from(counter, entries, previous, limit);
        }
    }
}

pub proof fn lemma_sum_tokens_add<F: Fn(&str) -> usize, G: Fn(&[Json]) -> usize>(
    counter: TokenCounter<F, G>,
    a: Seq<EntryModel>,
    b: Seq<EntryModel>,
)
    ensures
        sum_tokens(counter, a + b) == sum_tokens(counter, a) + sum_tokens(counter, b),
    decreases b.len(),
{
    if b.len() == 0 {
        assert(a + b =~= a);
    } else {
        assert((a + b).drop_last() =~= a + b.drop_last());
        assert((a + b).last() == b.last());
        lemma_sum_tokens_add(counter, a, b.drop_last());
    }
}

/// The last block that begins at or before `i`.
fn find_block(entries: &[AgentMemoryEntry], i: usize) -> (r: usize)
    requires
        i < entries@.len(),
    ensures
        r == block_at(deep(entries@), i as int),
        r <= i,
{
    let mut k: usize = i;
    while k > 0 && !(same(&entries[k].role, "user") || same(&entries[k].role, "assistant"))
        invariant
            k <= i < entries@.len(),
            block_at(deep(entries@), i as int) == block_at(deep(entries@), k as int),
        decreases k,
    {
        proof {
            assert(deep(entries@)[k as int] == entries@[k as int].deep_view());
        }
        k -= 1;
    }
    proof {
        assert(deep(entries@)[k as int] == entries@[k as int].deep_view());
    }
    k
}

/// Where the kept part of a history begins.
fn find_tail<F: Fn(&str) -> usize, G: Fn(&[Json]) -> usize>(
    counter: &TokenCounter<F, G>,
    entries: &[AgentMemoryEntry],
    limit: usize,
) -> (r: usize)
    requires
        counter.wf(),
        entries@.len() > 0,
        limit < usize::MAX,
    ensures
        r == tail_start(*counter, deep(entries@), limit as nat),
        r < entries@.len(),
{
    let ghost models = deep(entries@);
    let mut start = find_block(entries, entries.len() - 1);
    let mut cost: usize = 0;
    let mut k: usize = entries.len();
    proof {
        assert(models.skip(k as int) =~= Seq::<EntryModel>::empty());
    }
    while k > start
        invariant
            counter.wf(),
            start <= k <= entries@.len(),
            models == deep(entries@),
            cost == capped(sum_tokens(*counter, models.skip(k as int))),
        decreases k,
    {
        k -= 1;
        cost = cost.saturating_add(estimate_entry(counter, &entries[k]));
        proof {
            assert(models.skip(k as int) =~= seq![models[k as int]] + models.skip(k + 1));
            lemma_sum_tokens_add(*counter, seq![models[k as int]], models.skip(k + 1));
            assert(seq![models[k as int]].drop_last() =~= Seq::<EntryModel>::empty());
            assert(sum_tokens(*counter, seq![models[k as int]].drop_last()) == 0);
            assert(sum_tokens(*counter, seq![models[k as int]]) == entry_tokens(
                *counter,
                models[k as int],
            ));
        }
    }
    let ghost first = start as int;
    let mut done = false;
    while start > 0 && !done
        invariant
            counter.wf(),
            limit < usize::MAX,
            start <= first < entries@.len(),
            models == deep(entries@),
            cost == capped(sum_tokens(*counter, models.skip(start as int))),
            !done ==> kept_from(*counter, models, first, limit as nat) == kept_from(
                *counter,
                models,
                start as int,
                limit as nat,
            ),
            done ==> kept_from(*counter, models, first, limit as nat) == start,
        decreases (if done { 0int } else { 1 + start as int }),
    {
        let previous = find_block(entries, start - 1);
        let mut wider = cost;
        let mut j: usize = start;
        while j > previous
            invariant
                counter.wf(),
                previous <= j <= start < entries@.len(),
                models == deep(entries@),
                wider == capped(sum_tokens(*counter, models.skip(j as int))),
            decreases j,
        {
            j -= 1;
            wider = wider.saturating_add(estimate_entry(counter, &entries[j]));
            proof {
                assert(models.skip(j as int) =~= seq![models[j as int]] + models.skip(j + 1));
                lemma_sum_tokens_add(*counter, seq![models[j as int]], models.skip(j + 1));
                assert(seq![models[j as int]].drop_last() =~= Seq::<EntryModel>::empty());
                assert(sum_tokens(*counter, seq![models[j as int]].drop_last()) == 0);
                assert(sum_tokens(*counter, seq![models[j as int]]) == entry_tokens(
                    *counter,
                    models[j as int],
                ));
            }
        }
        if counter.format_tokens.saturating_add(wider) <= limit {
            start = previous;
            cost = wider;
        } else {
            done = true;
        }
    }
    start
}

// ---- what is handed to the summary ----

/// How many characters of a tool's result the summary gets at either end.
pub const SUMMARY_KEEP_CHARS: usize = 1600;

/// Reasoning that takes fewer bytes is left alone.
pub const LONG_REASONING_BYTES: usize = 1024;

/// At either end, how many characters of long reasoning are kept.
pub const REASONING_KEEP_CHARS: usize = 512;

/// The summary's input is not made shorter than this many tokens.
pub const MIN_SUMMARY_TOKENS: usize = 512;

/// An entry made shorter for the summary.
pub open spec fn summarized_entry(entry: EntryModel) -> EntryModel {
    if is_tool(entry) {
        EntryModel {
            content: compacted(
                entry.content,
                SUMMARY_KEEP_CHARS as nat,
                SUMMARY_KEEP_CHARS as nat,
            ),
            ..entry
        }
    } else if is_assistant(entry) && encode_utf8(entry.reasoning).len() > LONG_REASONING_BYTES {
        EntryModel {
            reasoning: compacted(
                entry.reasoning,
                REASONING_KEEP_CHARS as nat,
                REASONING_KEEP_CHARS as nat,
            ),
            ..entry
        }
    } else {
        entry
    }
}

/// The entries made shorter for the summary.
pub open spec fn summarized(entries: Seq<EntryModel>) -> Seq<EntryModel> {
    entries.map_values(|e: EntryModel| summarized_entry(e))
}

/// Shortens the entries, aiming lower each time, until they cost no more than is aimed at.
pub open spec fn prepared<F: Fn(&str) -> usize, G: Fn(&[Json]) -> usize>(
    counter: TokenCounter<F, G>,
    state: PruneState,
    target: nat,
) -> Seq<EntryModel>
    decreases target,
{
    if state.tokens > target && target > MIN_SUMMARY_TOKENS {
        let lower = capped(target * 3) / 4;
        if lower < target {
            prepared(counter, pruned(counter, summarized(state.entries), lower), lower)
        } else {
            state.entries
        }
    } else {
        state.entries
    }
}

/// What the summary gets to see of the entries.
pub open spec fn summary_input<F: Fn(&str) -> usize, G: Fn(&[Json]) -> usize>(
    counter: TokenCounter<F, G>,
    entries: Seq<EntryModel>,
    target: nat,
) -> Seq<EntryModel> {
    prepared(counter, pruned(counter, entries, target), target)
}

fn shorten_for_summary(entries: &Vec<AgentMemoryEntry>) -> (r: Vec<AgentMemoryEntry>)
    ensures
        deep(r@) == summarized(deep(entries@)),
{
    let mut r: Vec<AgentMemoryEntry> = Vec::new();
    let mut i: usize = 0;
    while i < entries.len()
        invariant
            i <= entries@.len(),
            r@.len() == i,
            forall|j: int|
                0 <= j < i ==> #[trigger] deep(r@)[j] == summarized_entry(deep(entries@)[j]),
        decreases entries@.len() - i,
    {
        let mut entry = entries[i].clone();
        let ghost model = entry.deep_view();
        if same(&entry.role, "tool") {
            let content = compact_text(&entry.content, SUMMARY_KEEP_CHARS, SUMMARY_KEEP_CHARS);
            entry.content = content;
        } else if same(&entry.role, "assistant") && entry.reasoning.as_str().as_bytes().len()
            > LONG_REASONING_BYTES {
            let reasoning = compact_text(
                &entry.reasoning,
                REASONING_KEEP_CHARS,
                REASONING_KEEP_CHARS,
            );
            entry.reasoning = reasoning;
        }
        proof {
            assert(entry.deep_view() == summarized_entry(model));
        }
        let ghost before = deep(r@);
        r.push(entry);
        proof {
            assert(deep(r@) == before.push(entry.deep_view()));
        }
        i += 1;
    }
    proof {
        assert(deep(r@) =~= summarized(deep(entries@)));
    }
    r
}

/// What the summary gets to see of the entries.
pub fn prepare_summary_entries<F: Fn(&str) -> usize, G: Fn(&[Json]) -> usize>(
    counter: &TokenCounter<F, G>,
    entries: &Vec<AgentMemoryEntry>,
    target_tokens: usize,
) -> (r: Vec<AgentMemoryEntry>)
    requires
        counter.wf(),
    ensures
        deep(r@) == summary_input(*counter, deep(entries@), target_tokens as nat),
{
    let mut target: usize = target_tokens;
    let mut result = prune_tool_results(counter, entries, target);
    let ghost mut state = pruned(*counter, deep(entries@), target as nat);
    while result.after_tokens > target && target > MIN_SUMMARY_TOKENS
        invariant
            counter.wf(),
            result.shows(state),
            prepared(*counter, state, target as nat) == summary_input(
                *counter,
                deep(entries@),
                target_tokens as nat,
            ),
        decreases target,
    {
        let lower: usize = saturating_product(target, 3) / 4;
        let shorter = shorten_for_summary(&result.entries);
        result = prune_tool_results(counter, &shorter, lower);
        proof {
            state = pruned(*counter, summarized(state.entries), lower as nat);
        }
        target = lower;
    }
    result.entries
}

// ---- the plan ----

/// How a history is to be shortened: what a checkpoint replaces, what the summary gets to see of
/// it, and what is kept.
#[derive(Debug, PartialEq, Eq)]
pub struct CompactionPlan {
    pub compaction_id: String,
    pub source_entries: Vec<AgentMemoryEntry>,
    pub summary_entries: Vec<AgentMemoryEntry>,
    pub tail_entries: Vec<AgentMemoryEntry>,
    pub source_hash: String,
    pub expected_surface_hash: String,
    pub source_start: Option<String>,
    pub source_end: Option<String>,
    pub before_tokens: usize,
    pub shadowed_tokens: usize,
    pub tail_tokens: usize,
}

/// Whether a history is worth to be shortened: the kept part leaves out more than one block, and
/// what it leaves out is not cheap.
pub open spec fn compactable<F: Fn(&str) -> usize, G: Fn(&[Json]) -> usize>(
    counter: TokenCounter<F, G>,
    entries: Seq<EntryModel>,
    budget: ContextBudget,
) -> bool {
    let start = tail_start(counter, entries, budget.tail());
    &&& entries.len() >= 3
    &&& block_from(entries, 1) < start
    &&& entries_tokens(counter, entries.take(start)) >= MIN_SHADOWED_TOKENS
}

/// The identifiers of the first and of the last entry.
pub open spec fn span(entries: Seq<EntryModel>) -> (Option<Seq<char>>, Option<Seq<char>>) {
    if entries.len() == 0 {
        (None, None)
    } else {
        (Some(entries.first().id), Some(entries.last().id))
    }
}

impl CompactionPlan {
    /// The plan for a history. Its identifier may be any.
    pub open spec fn plans<F: Fn(&str) -> usize, G: Fn(&[Json]) -> usize>(
        &self,
        counter: TokenCounter<F, G>,
        entries: Seq<EntryModel>,
        budget: ContextBudget,
    ) -> bool {
        let start = tail_start(counter, entries, budget.tail());
        let source = entries.take(start);
        let tail = entries.skip(start);
        &&& is_uuid(self.compaction_id@)
        &&& deep(self.source_entries@) == source
        &&& deep(self.summary_entries@) == summary_input(counter, source, budget.input())
        &&& deep(self.tail_entries@) == tail
        &&& self.source_hash@ == surface_hash_text(source)
        &&& self.expected_surface_hash@ == surface_hash_text(entries)
        &&& (self.source_start.deep_view(), self.source_end.deep_view()) == span(source)
        &&& self.before_tokens == capped(entries_tokens(counter, entries))
        &&& self.shadowed_tokens == capped(entries_tokens(counter, source))
        &&& self.tail_tokens == capped(entries_tokens(counter, tail))
    }
}

/// The identifiers of the first and of the last entry.
pub fn source_span(entries: &[AgentMemoryEntry]) -> (r: (Option<String>, Option<String>))
    ensures
        (r.0.deep_view(), r.1.deep_view()) == span(deep(entries@)),
{
    let n = entries.len();
    if n == 0 {
        (None, None)
    } else {
        proof {
            assert(deep(entries@).first() == entries@[0].deep_view());
            assert(deep(entries@).last() == entries@[n - 1].deep_view());
        }
        (Some(entries[0].id.clone()), Some(entries[n - 1].id.clone()))
    }
}

/// Plans how a history is to be shortened, where that is worth it.
pub fn build_compaction_plan<F: Fn(&str) -> usize, G: Fn(&[Json]) -> usize>(
    counter: &TokenCounter<F, G>,
    entries: &[AgentMemoryEntry],
    budget: ContextBudget,
) -> (r: Option<CompactionPlan>)
    requires
        counter.wf(),
    ensures
        r is Some == compactable(*counter, deep(entries@), budget),
        r matches Some(plan) ==> plan.plans(*counter, deep(entries@), budget),
{
    let ghost models = deep(entries@);
    let n = entries.len();
    if n < 3 {
        return None;
    }
    let before_tokens = estimate_entries(counter, entries);
    let mut second: usize = 1;
    while second < n && !(same(&entries[second].role, "user") || same(
        &entries[second].role,
        "assistant",
    ))
        invariant
            1 <= second <= n,
            n == entries@.len(),
            models == deep(entries@),
            block_from(models, 1) == block_from(models, second as int),
        decreases n - second,
    {
        proof {
            assert(models[second as int] == entries@[second as int].deep_view());
        }
        second += 1;
    }
    proof {
        if second < n {
            assert(models[second as int] == entries@[second as int].deep_view());
        }
        assert(block_from(models, 1) == second);
    }
    let limit = budget.tail_limit();
    let start = find_tail(counter, entries, limit);
    if start <= second {
        return None;
    }
    let source_entries = copy_entries(entries, 0, start);
    let tail_entries = copy_entries(entries, start, n);
    proof {
        assert(models.subrange(0, start as int) =~= models.take(start as int));
        assert(models.subrange(start as int, n as int) =~= models.skip(start as int));
    }
    let shadowed_tokens = estimate_entries(counter, &source_entries);
    if shadowed_tokens < MIN_SHADOWED_TOKENS {
        return None;
    }
    let summary_entries = prepare_summary_entries(counter, &source_entries, budget.input_limit());
    let tail_tokens = estimate_entries(counter, &tail_entries);
    let (source_start, source_end) = source_span(&source_entries);
    let source_hash = surface_hash(&source_entries);
    let expected_surface_hash = surface_hash(entries);
    Some(
        CompactionPlan {
            compaction_id: new_uuid(),
            source_entries,
            summary_entries,
            tail_entries,
            source_hash,
            expected_surface_hash,
            source_start,
            source_end,
            before_tokens,
            shadowed_tokens,
            tail_tokens,
        },
    )
}

// ---- carrying out the plan ----

/// What one entry costs as a history of its own.
pub open spec fn single_tokens<F: Fn(&str) -> usize, G: Fn(&[Json]) -> usize>(
    counter: TokenCounter<F, G>,
    entry: EntryModel,
) -> nat {
    capped(entries_tokens(counter, seq![entry]))
}

/// A checkpoint cut down until it costs less than what it replaces, or has no more than 32
/// characters. At first `target` characters are kept.
pub open spec fn enforced<F: Fn(&str) -> usize, G: Fn(&[Json]) -> usize>(
    counter: TokenCounter<F, G>,
    entry: EntryModel,
    shadowed: nat,
    target: nat,
) -> EntryModel
    decreases target,
{
    if single_tokens(counter, entry) >= shadowed && entry.content.len() > 32 {
        let shorter = EntryModel {
            content: compacted(entry.content, target / 2, (target - target / 2) as nat),
            ..entry
        };
        if single_tokens(counter, shorter) >= shadowed {
            let lower = capped(target * 3) / 4;
            let cut = EntryModel {
                content: first_chars(
                    shorter.content,
                    if lower > 32 {
                        lower
                    } else {
                        32
                    },
                ),
                ..shorter
            };
            if lower < target {
                enforced(counter, cut, shadowed, lower)
            } else {
                cut
            }
        } else {
            shorter
        }
    } else {
        entry
    }
}

/// How many characters of a checkpoint are kept at first.
pub open spec fn checkpoint_chars(shadowed: nat) -> nat {
    let tokens = if shadowed > 2 {
        (shadowed - 1) as nat
    } else {
        1
    };
    let chars = capped(tokens * 3);
    if chars > 32 {
        chars
    } else {
        32
    }
}

/// What one entry costs as a history of its own.
fn estimate_single<F: Fn(&str) -> usize, G: Fn(&[Json]) -> usize>(
    counter: &TokenCounter<F, G>,
    entry: &AgentMemoryEntry,
) -> (r: usize)
    requires
        counter.wf(),
    ensures
        r == single_tokens(*counter, entry.deep_view()),
{
    let cost = estimate_entry(counter, entry);
    proof {
        let one = seq![entry.deep_view()];
        assert(one.drop_last() =~= Seq::<EntryModel>::empty());
        assert(sum_tokens(*counter, one.drop_last()) == 0);
        assert(sum_tokens(*counter, one) == entry_tokens(*counter, entry.deep_view()));
    }
    counter.format_tokens.saturating_add(cost)
}

/// Cuts a checkpoint down until it costs less than what it replaces.
pub fn enforce_checkpoint_size<F: Fn(&str) -> usize, G: Fn(&[Json]) -> usize>(
    counter: &TokenCounter<F, G>,
    checkpoint: &mut AgentMemoryEntry,
    shadowed_tokens: usize,
)
    requires
        counter.wf(),
    ensures
        final(checkpoint).deep_view() == enforced(
            *counter,
            old(checkpoint).deep_view(),
            shadowed_tokens as nat,
            checkpoint_chars(shadowed_tokens as nat),
        ),
{
    let tokens: usize = if shadowed_tokens > 2 {
        shadowed_tokens - 1
    } else {
        1
    };
    let chars = saturating_product(tokens, 3);
    let mut target: usize = if chars > 32 {
        chars
    } else {
        32
    };
    let ghost start = checkpoint.deep_view();
    let ghost shadowed = shadowed_tokens as nat;
    let ghost wanted = enforced(*counter, start, shadowed, checkpoint_chars(shadowed));
    while estimate_single(counter, checkpoint) >= shadowed_tokens && chars_of(
        &checkpoint.content,
    ).len() > 32
        invariant
            counter.wf(),
            shadowed == shadowed_tokens,
            wanted == enforced(
                *counter,
                old(checkpoint).deep_view(),
                shadowed,
                checkpoint_chars(shadowed),
            ),
            enforced(*counter, checkpoint.deep_view(), shadowed, target as nat) == wanted,
        decreases target,
    {
        let ghost entry = checkpoint.deep_view();
        let ghost before = target as nat;
        let content = compact_text(&checkpoint.content, target / 2, target - target / 2);
        checkpoint.content = content;
        let ghost shorter = checkpoint.deep_view();
        if estimate_single(counter, checkpoint) < shadowed_tokens {
            return;
        }
        let lower: usize = saturating_product(target, 3) / 4;
        let keep: usize = if lower > 32 {
            lower
        } else {
            32
        };
        let content = take_chars(&checkpoint.content, keep);
        checkpoint.content = content;
        proof {
            assert(checkpoint.deep_view() == (EntryModel {
                content: first_chars(shorter.content, keep as nat),
                ..shorter
            }));
        }
        if lower >= target {
            return;
        }
        target = lower;
    }
}

/// How many characters of a tool's result are kept at either end when the input is too long.
pub const REDUCED_KEEP_CHARS: usize = 512;

/// An entry without reasoning, and with little of a tool's result.
pub open spec fn reduced_entry(entry: EntryModel) -> EntryModel {
    EntryModel {
        reasoning: if is_assistant(entry) {
            Seq::empty()
        } else {
            entry.reasoning
        },
        content: if is_tool(entry) {
            compacted(entry.content, REDUCED_KEEP_CHARS as nat, REDUCED_KEEP_CHARS as nat)
        } else {
            entry.content
        },
        ..entry
    }
}

/// The entries without reasoning, and with little of the results of tools.
pub open spec fn reduced(entries: Seq<EntryModel>) -> Seq<EntryModel> {
    entries.map_values(|e: EntryModel| reduced_entry(e))
}

/// The shortened history: the checkpoint and the kept part, with the results of tools pruned as
/// far as the budget asks for it.
pub open spec fn finalized<F: Fn(&str) -> usize, G: Fn(&[Json]) -> usize>(
    counter: TokenCounter<F, G>,
    plan: CompactionPlan,
    summary: Seq<char>,
    budget: ContextBudget,
    created_at: i64,
) -> (Seq<EntryModel>, Seq<Seq<char>>) {
    let shadowed = plan.shadowed_tokens as nat;
    let head = enforced(
        counter,
        checkpoint(plan.compaction_id@, summary, created_at),
        shadowed,
        checkpoint_chars(shadowed),
    );
    let all = seq![head] + deep(plan.tail_entries@);
    let state = pruned(counter, all, budget.input());
    let ids = if state.entries != all {
        state.ids
    } else {
        Seq::empty()
    };
    if capped(entries_tokens(counter, state.entries)) > budget.input() {
        (reduced(state.entries), ids)
    } else {
        (state.entries, ids)
    }
}

fn reduce_entries(entries: &Vec<AgentMemoryEntry>) -> (r: Vec<AgentMemoryEntry>)
    ensures
        deep(r@) == reduced(deep(entries@)),
{
    let mut r: Vec<AgentMemoryEntry> = Vec::new();
    let mut i: usize = 0;
    while i < entries.len()
        invariant
            i <= entries@.len(),
            r@.len() == i,
            forall|j: int| 0 <= j < i ==> #[trigger] deep(r@)[j] == reduced_entry(
                deep(entries@)[j],
            ),
        decreases entries@.len() - i,
    {
        let mut entry = entries[i].clone();
        let ghost model = entry.deep_view();
        if same(&entry.role, "assistant") {
            entry.reasoning = String::new();
        }
        if same(&entry.role, "tool") {
            let content = compact_text(&entry.content, REDUCED_KEEP_CHARS, REDUCED_KEEP_CHARS);
            entry.content = content;
        }
        proof {
            assert(entry.deep_view() == reduced_entry(model));
        }
        let ghost before = deep(r@);
        r.push(entry);
        proof {
            assert(deep(r@) == before.push(entry.deep_view()));
        }
        i += 1;
    }
    proof {
        assert(deep(r@) =~= reduced(deep(entries@)));
    }
    r
}

/// The shortened history, and the identifiers of the tool results that were pruned.
pub fn finalize_compaction<F: Fn(&str) -> usize, G: Fn(&[Json]) -> usize>(
    counter: &TokenCounter<F, G>,
    plan: &CompactionPlan,
    summary: &str,
    budget: ContextBudget,
    created_at: i64,
) -> (r: (Vec<AgentMemoryEntry>, Vec<String>))
    requires
        counter.wf(),
    ensures
        (deep(r.0@), deep(r.1@)) == finalized(*counter, *plan, summary@, budget, created_at),
{
    let mut head = summary_message(&plan.compaction_id, summary, created_at);
    enforce_checkpoint_size(counter, &mut head, plan.shadowed_tokens);
    let ghost head_model = head.deep_view();
    let mut entries: Vec<AgentMemoryEntry> = Vec::new();
    entries.push(head);
    let mut tail = copy_all(&plan.tail_entries);
    entries.append(&mut tail);
    proof {
        assert(deep(entries@) =~= seq![head_model] + deep(plan.tail_entries@));
    }
    let result = prune_tool_results(counter, &entries, budget.input_limit());
    let ids = if same_entries(&result.entries, &entries) {
        Vec::new()
    } else {
        result.changed_ids
    };
    proof {
        assert(deep(Seq::<String>::empty()) =~= Seq::<Seq<char>>::empty());
    }
    if estimate_entries(counter, &result.entries) > budget.input_limit() {
        (reduce_entries(&result.entries), ids)
    } else {
        (result.entries, ids)
    }
}

// ---- checking the outcome ----

/// What an entry says, as far as the rule of a conversation is concerned.
pub open spec fn entry_utterance(entry: EntryModel) -> Utterance {
    Utterance { role: entry.role, calls: entry.tool_calls, tool_call_id: entry.tool_call_id }
}

/// What the entries say, as far as the rule of a conversation is concerned.
pub open spec fn entry_utterances(entries: Seq<EntryModel>) -> Seq<Utterance> {
    entries.map_values(|e: EntryModel| entry_utterance(e))
}

/// How a fault in a shortened history is reported.
pub open spec fn pair_fault_text(fault: FaultModel) -> Seq<char> {
    match fault {
        FaultModel::MissingResult => "Compaction split an assistant/tool pair."@,
        FaultModel::BadCallId => "Compaction produced invalid tool-call ids."@,
        FaultModel::NoCallId => "Compaction produced a tool result without an id."@,
        FaultModel::UnknownCall(_) => "Compaction produced an unmatched tool result."@,
        FaultModel::UnsupportedRole => "Compaction produced an unsupported message role."@,
    }
}

/// What is wrong with the tool calls of a shortened history.
pub open spec fn pairs_error(entries: Seq<EntryModel>) -> Option<Seq<char>> {
    match heard_all(Ok(Set::empty()), entry_utterances(entries), false) {
        Ok(pending) => if pending == Set::<Seq<char>>::empty() {
            None
        } else {
            Some("Compaction left an unfinished tool call."@)
        },
        Err(fault) => Some(pair_fault_text(fault)),
    }
}

/// Checks the tool calls of a shortened history.
pub fn validate_tool_pairs(entries: &[AgentMemoryEntry]) -> (r: Result<(), String>)
    ensures
        match r {
            Ok(_) => pairs_error(deep(entries@)) is None,
            Err(error) => pairs_error(deep(entries@)) == Some(error@),
        },
{
    let ghost said = entry_utterances(deep(entries@));
    let mut open = OpenCalls::new();
    let ghost mut set: Set<Seq<char>> = Set::empty();
    let mut i: usize = 0;
    proof {
        assert(said.take(0) =~= Seq::<Utterance>::empty());
    }
    while i < entries.len()
        invariant
            i <= entries@.len(),
            said == entry_utterances(deep(entries@)),
            open.are(set),
            heard_all(Ok(Set::empty()), said.take(i as int), false) == Ok::<
                Set<Seq<char>>,
                FaultModel,
            >(set),
        decreases entries@.len() - i,
    {
        let entry = &entries[i];
        proof {
            assert(said[i as int] == entry_utterance(entry.deep_view()));
            lemma_heard_next(Ok(Set::empty()), said, false, i as int);
        }
        match open.hear(&entry.role, &entry.tool_calls, &entry.tool_call_id, false, Ghost(set)) {
            Some(fault) => {
                return Err(
                    match fault {
                        Fault::MissingResult => {
                            "Compaction split an assistant/tool pair.".to_owned()
                        },
                        Fault::BadCallId => "Compaction produced invalid tool-call ids.".to_owned(),
                        Fault::NoCallId => {
                            "Compaction produced a tool result without an id.".to_owned()
                        },
                        Fault::UnknownCall(_) => {
                            "Compaction produced an unmatched tool result.".to_owned()
                        },
                        Fault::UnsupportedRole => {
                            "Compaction produced an unsupported message role.".to_owned()
                        },
                    },
                );
            },
            None => {},
        }
        proof {
            set = heard(set, said[i as int], false)->Ok_0;
        }
        i += 1;
    }
    proof {
        assert(said.take(entries@.len() as int) =~= said);
    }
    if open.none(Ghost(set)) {
        Ok(())
    } else {
        Err("Compaction left an unfinished tool call.".to_owned())
    }
}

/// What is wrong with a shortened history.
pub open spec fn compaction_error<F: Fn(&str) -> usize, G: Fn(&[Json]) -> usize>(
    counter: TokenCounter<F, G>,
    plan: CompactionPlan,
    entries: Seq<EntryModel>,
    budget: ContextBudget,
) -> Option<Seq<char>> {
    if entries.len() == 0 {
        Some("Compaction produced an empty model surface."@)
    } else if !is_checkpoint_entry(entries[0]) {
        Some("Compaction surface does not start with a checkpoint."@)
    } else if single_tokens(counter, entries[0]) >= plan.shadowed_tokens {
        Some("Compaction checkpoint is not smaller than its replaced history."@)
    } else if capped(entries_tokens(counter, entries)) > budget.input() {
        Some("Compaction surface still exceeds the input budget."@)
    } else {
        pairs_error(entries)
    }
}

/// Checks a shortened history.
pub fn validate_compaction_result<F: Fn(&str) -> usize, G: Fn(&[Json]) -> usize>(
    counter: &TokenCounter<F, G>,
    plan: &CompactionPlan,
    entries: &[AgentMemoryEntry],
    budget: ContextBudget,
) -> (r: Result<(), String>)
    requires
        counter.wf(),
    ensures
        match r {
            Ok(_) => compaction_error(*counter, *plan, deep(entries@), budget) is None,
            Err(error) => compaction_error(*counter, *plan, deep(entries@), budget) == Some(error@),
        },
{
    if entries.len() == 0 {
        return Err("Compaction produced an empty model surface.".to_owned());
    }
    proof {
        assert(deep(entries@)[0] == entries@[0].deep_view());
    }
    if !is_checkpoint(&entries[0]) {
        return Err("Compaction surface does not start with a checkpoint.".to_owned());
    }
    if estimate_single(counter, &entries[0]) >= plan.shadowed_tokens {
        return Err("Compaction checkpoint is not smaller than its replaced history.".to_owned());
    }
    if estimate_entries(counter, entries) > budget.input_limit() {
        return Err("Compaction surface still exceeds the input budget.".to_owned());
    }
    validate_tool_pairs(entries)
}

} // verus!
