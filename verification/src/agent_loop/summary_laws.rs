//! What the summary of a history guarantees.

use vstd::prelude::*;

use super::budget::ContextBudget;
use super::checkpoint_laws::law_compaction_keeps_the_summary_and_the_tail;
use super::compaction::{
    compaction_error, finalized, prepared, summarized, summarized_entry, summary_input, CompactionPlan, MIN_SUMMARY_TOKENS,
};
use super::counter::{capped, TokenCounter};
use super::laws::law_pruning_preserves_head_and_tail;
use super::prepare::{finished, SummaryFailure};
use super::summary::{
    completions, evidence, full_fallback, instruction, normalized, objective, request_from,
    request_without, summary_request, tool_label,
};
use super::surface::{compacted, entries_tokens, pruned, PruneState};
use super::wire::{entries_json, entry_json};
use crate::agent::calls_json;
use crate::deep::deep;
use crate::json::{Json, JsonModel};
use crate::json_model::{lemma_with_get, lemma_with_get_other};
use crate::memory::{is_assistant, is_tool, is_user, lemma_roles_differ};
use crate::models::EntryModel;
use crate::text::{begins_with, has_part, is_blank, occurs_at, trimmed};

verus! {

// ---- what the summary gets to see ----

/// What the summary gets to see of an entry: the entry, at most with less of its content or of its
/// reasoning.
pub open spec fn same_but_shorter(before: EntryModel, after: EntryModel) -> bool {
    &&& after == (EntryModel { content: after.content, reasoning: after.reasoning, ..before })
    &&& !is_tool(before) ==> after.content == before.content
    &&& !is_assistant(before) ==> after.reasoning == before.reasoning
}

spec fn all_same_but_shorter(before: Seq<EntryModel>, after: Seq<EntryModel>) -> bool {
    &&& before.len() == after.len()
    &&& forall|i: int| 0 <= i < before.len() ==> same_but_shorter(#[trigger] before[i], after[i])
}

proof fn lemma_pruned_same<F: Fn(&str) -> usize, G: Fn(&[Json]) -> usize>(
    counter: TokenCounter<F, G>,
    before: Seq<EntryModel>,
    entries: Seq<EntryModel>,
    target: nat,
)
    requires
        all_same_but_shorter(before, entries),
    ensures
        all_same_but_shorter(before, pruned(counter, entries, target).entries),
{
    law_pruning_preserves_head_and_tail(counter, entries, target);
    let after = pruned(counter, entries, target).entries;
    assert forall|i: int| 0 <= i < before.len() implies same_but_shorter(
        #[trigger] before[i],
        after[i],
    ) by {
        assert(same_but_shorter(before[i], entries[i]));
        assert(after[i] == (EntryModel { content: after[i].content, ..entries[i] }));
        lemma_roles_differ(before[i]);
    }
}

proof fn lemma_prepared_same<F: Fn(&str) -> usize, G: Fn(&[Json]) -> usize>(
    counter: TokenCounter<F, G>,
    before: Seq<EntryModel>,
    state: PruneState,
    target: nat,
)
    requires
        all_same_but_shorter(before, state.entries),
    ensures
        all_same_but_shorter(before, prepared(counter, state, target)),
    decreases target,
{
    if state.tokens > target && target > MIN_SUMMARY_TOKENS {
        let lower = capped(target * 3) / 4;
        if lower < target {
            let shorter = summarized(state.entries);
            assert forall|i: int| 0 <= i < before.len() implies same_but_shorter(
                #[trigger] before[i],
                shorter[i],
            ) by {
                assert(same_but_shorter(before[i], state.entries[i]));
                assert(shorter[i] == summarized_entry(state.entries[i]));
                lemma_roles_differ(before[i]);
            }
            lemma_pruned_same(counter, before, shorter, lower);
            lemma_prepared_same(counter, before, pruned(counter, shorter, lower), lower);
        }
    }
}

/// The summary gets to see every entry that it is to replace, in order. Of an entry of the user
/// nothing is left out, of one of the assistant at most reasoning, of one of a tool at most the
/// middle of its result.
pub proof fn law_the_summary_sees_every_entry<F: Fn(&str) -> usize, G: Fn(&[Json]) -> usize>(
    counter: TokenCounter<F, G>,
    entries: Seq<EntryModel>,
    target: nat,
    i: int,
)
    requires
        0 <= i < entries.len(),
    ensures
        summary_input(counter, entries, target).len() == entries.len(),
        same_but_shorter(entries[i], summary_input(counter, entries, target)[i]),
        capped(entries_tokens(counter, entries)) <= target ==> summary_input(
            counter,
            entries,
            target,
        ) == entries,
{
    assert forall|k: int| 0 <= k < entries.len() implies same_but_shorter(
        #[trigger] entries[k],
        entries[k],
    ) by {}
    lemma_pruned_same(counter, entries, entries, target);
    lemma_prepared_same(counter, entries, pruned(counter, entries, target), target);
}

proof fn lemma_request_from<F: Fn(&str) -> usize, G: Fn(&[Json]) -> usize>(
    counter: TokenCounter<F, G>,
    system: Seq<JsonModel>,
    entries: Seq<JsonModel>,
    ask: JsonModel,
    limit: nat,
    k: int,
) -> (n: int)
    requires
        0 <= k <= entries.len(),
    ensures
        k <= n <= entries.len(),
        request_from(counter, system, entries, ask, limit, k) == (system + entries.skip(n)).push(
            ask,
        ),
        n == entries.len() || counter.messages_tokens((system + entries.skip(n)).push(ask))
            <= limit,
        forall|j: int|
            k <= j < n ==> counter.messages_tokens(
                #[trigger] request_without(system, entries, ask, j),
            ) > limit,
    decreases entries.len() - k,
{
    let request = request_without(system, entries, ask, k);
    if k < entries.len() && counter.messages_tokens(request) > limit {
        lemma_request_from(counter, system, entries, ask, limit, k + 1)
    } else {
        k
    }
}

/// The request for a summary tells what the system says, then the entries, then what is asked for.
/// Entries are left out only where the request would cost too much, the oldest first, and no more
/// than has to be.
pub proof fn law_summary_requests_tell_what_fits<F: Fn(&str) -> usize, G: Fn(&[Json]) -> usize>(
    counter: TokenCounter<F, G>,
    system: Seq<JsonModel>,
    entries: Seq<EntryModel>,
    budget: ContextBudget,
)
    ensures
        ({
            let request = summary_request(counter, system, entries, budget);
            let ask = instruction(capped(entries_tokens(counter, entries)));
            let told = entries.map_values(|e: EntryModel| entry_json(e));
            exists|n: int|
                {
                    &&& 0 <= n <= told.len()
                    &&& request == (system + #[trigger] told.skip(n)).push(ask)
                    &&& n < told.len() ==> counter.messages_tokens(request) <= budget.input()
                    &&& n > 0 ==> counter.messages_tokens(
                        (system + told.skip(n - 1)).push(ask),
                    ) > budget.input()
                }
        }),
{
    let ask = instruction(capped(entries_tokens(counter, entries)));
    let told = entries.map_values(|e: EntryModel| entry_json(e));
    let n = lemma_request_from(counter, system, entries_json(entries), ask, budget.input(), 0);
    assert(entries_json(entries) =~= told);
    assert(summary_request(counter, system, entries, budget) == (system + told.skip(n)).push(ask));
    if n > 0 {
        assert(counter.messages_tokens(request_without(system, told, ask, n - 1))
            > budget.input());
    }
}

/// An entry is sent with its role, its content, its calls and the call that it answers.
pub proof fn law_entries_are_sent_with_all_they_say(entry: EntryModel)
    ensures
        entry_json(entry).text("role"@) == Some(entry.role),
        entry.content.len() > 0 ==> entry_json(entry).text("content"@) == Some(entry.content),
        entry.tool_calls.len() > 0 ==> entry_json(entry).get("tool_calls"@) == Some(
            calls_json(entry.tool_calls),
        ),
        entry.tool_calls.len() == 0 ==> entry_json(entry).get("tool_calls"@) is None,
        entry.tool_call_id is Some ==> entry_json(entry).text("tool_call_id"@)
            == entry.tool_call_id,
        is_assistant(entry) && entry.reasoning.len() > 0 ==> entry_json(entry).text(
            "reasoning_content"@,
        ) == Some(entry.reasoning),
{
    reveal_strlit("role");
    reveal_strlit("content");
    reveal_strlit("reasoning_content");
    reveal_strlit("reasoning_opaque");
    reveal_strlit("tool_calls");
    reveal_strlit("tool_call_id");
    reveal_strlit("name");
    reveal_strlit("attachments");
    assert("role"@.len() == 4 && "content"@.len() == 7 && "reasoning_content"@.len() == 17
        && "reasoning_opaque"@.len() == 16 && "tool_calls"@.len() == 10 && "tool_call_id"@.len()
        == 12 && "name"@.len() == 4 && "attachments"@.len() == 11);
    assert("role"@[0] == 'r' && "name"@[0] == 'n');
    assert forall|json: JsonModel, key: Seq<char>, value: JsonModel, other: Seq<char>|
        json is Object implies #[trigger] json.with(key, value).get(other) == if key == other {
        Some(value)
    } else {
        json.get(other)
    } by {
        if key == other {
            lemma_with_get(json, key, value);
        } else {
            lemma_with_get_other(json, key, value, other);
        }
    }
    let role = JsonModel::Object(seq![("role"@, JsonModel::Str(entry.role))]);
    let members = seq![("role"@, JsonModel::Str(entry.role))];
    crate::json_model::lemma_member_index_is(members, "role"@, 0);
    assert(role.get("role"@) == Some(JsonModel::Str(entry.role)));
    assert(role.get("tool_calls"@) is None) by {
        crate::json_model::lemma_member_index(members, "tool_calls"@);
    }
}

// ---- summaries that are made without a model ----

/// What the user asked for first is the objective; checkpoints are no requests.
pub proof fn law_the_first_request_is_the_objective(entries: Seq<EntryModel>, i: int)
    requires
        0 <= i < entries.len(),
        is_user(entries[i]),
        !begins_with(entries[i].content, "[RustPilot context"@),
        forall|j: int|
            0 <= j < i ==> !is_user(#[trigger] entries[j]) || begins_with(
                entries[j].content,
                "[RustPilot context"@,
            ),
    ensures
        objective(entries) == compacted(entries[i].content, 1600, 800),
        entries[i].content.len() <= 2464 ==> objective(entries) == entries[i].content,
    decreases entries.len(),
{
    if i > 0 {
        assert(!is_user(entries[0]) || begins_with(entries[0].content, "[RustPilot context"@));
        let rest = entries.drop_first();
        assert forall|j: int| 0 <= j < i - 1 implies !is_user(#[trigger] rest[j]) || begins_with(
            rest[j].content,
            "[RustPilot context"@,
        ) by {
            assert(rest[j] == entries[j + 1]);
        }
        law_the_first_request_is_the_objective(rest, i - 1);
    }
}

/// All that the assistant said and all that the tools put out is taken into account, in order.
pub proof fn law_nothing_said_is_overlooked(entries: Seq<EntryModel>)
    ensures
        completions(entries) == entries.filter(
            |e: EntryModel| is_assistant(e) && !is_blank(e.content),
        ).map_values(|e: EntryModel| compacted(e.content, 800, 400)),
        evidence(entries) == entries.filter(|e: EntryModel| is_tool(e)).map_values(
            |e: EntryModel| "- "@ + tool_label(e) + ": "@ + compacted(e.content, 500, 300),
        ),
    decreases entries.len(),
{
    reveal(Seq::filter);
    let said = |e: EntryModel| is_assistant(e) && !is_blank(e.content);
    let text = |e: EntryModel| compacted(e.content, 800, 400);
    let put_out = |e: EntryModel| is_tool(e);
    let line = |e: EntryModel|
        "- "@ + tool_label(e) + ": "@ + compacted(e.content, 500, 300);
    if entries.len() > 0 {
        law_nothing_said_is_overlooked(entries.drop_last());
    }
    assert(completions(entries) =~= entries.filter(said).map_values(text));
    assert(evidence(entries) =~= entries.filter(put_out).map_values(line));
}

proof fn lemma_middle_part(a: Seq<char>, part: Seq<char>, b: Seq<char>)
    ensures
        has_part(a + part + b, part),
{
    let all = a + part + b;
    assert(all.subrange(a.len() as int, a.len() + part.len() as int) =~= part);
    assert(occurs_at(all, part, a.len() as int));
}

/// A summary that is made without a model names the objective.
pub proof fn law_summaries_name_the_objective(entries: Seq<EntryModel>)
    ensures
        has_part(full_fallback(entries), objective(entries)),
        begins_with(full_fallback(entries), "Objective\n"@),
{
    let full = full_fallback(entries);
    let head = "Objective\n"@;
    let goal = objective(entries);
    let rest = full.skip((head + goal).len() as int);
    assert(full.take(head.len() as int) =~= head);
    assert(full.take((head + goal).len() as int) =~= head + goal);
    assert(full =~= head + goal + rest);
    lemma_middle_part(head, goal, rest);
}

/// A summary that is not too long and costs less than what it replaces enters the checkpoint as it
/// is, but for the white space around it.
pub proof fn law_short_summaries_stay<F: Fn(&str) -> usize, G: Fn(&[Json]) -> usize>(
    counter: TokenCounter<F, G>,
    summary: Seq<char>,
    shadowed: nat,
)
    requires
        !is_blank(summary),
        trimmed(summary).len() <= 2 * super::summary::SUMMARY_HALF_CHARS + 64,
        counter.tokens(trimmed(summary)) < shadowed,
    ensures
        normalized(counter, summary, shadowed) == trimmed(summary),
{
    crate::text::lemma_blank_trim(summary);
}

/// The reply of the model becomes the summary where the outcome is sound; whatever comes of a
/// reply is sound, and is the checkpoint with a summary and the kept part behind it. A run that was
/// cancelled changes nothing.
pub proof fn law_replies_become_the_summary<F: Fn(&str) -> usize, G: Fn(&[Json]) -> usize>(
    counter: TokenCounter<F, G>,
    plan: CompactionPlan,
    reply: Result<Seq<char>, SummaryFailure>,
    budget: ContextBudget,
    created_at: i64,
)
    ensures
        finished(counter, plan, reply, budget, created_at) matches Ok(surface) ==> {
            &&& compaction_error(counter, plan, surface.entries, budget) is None
            &&& surface.summary is Some
            &&& surface.entries == finalized(
                counter,
                plan,
                surface.summary->0,
                budget,
                created_at,
            ).0
            &&& surface.entries.len() == 1 + deep(plan.tail_entries@).len()
            &&& surface.before_tokens == plan.before_tokens
            &&& surface.after_tokens == capped(entries_tokens(counter, surface.entries))
            &&& !surface.summary_fallback ==> reply is Ok && surface.summary->0 == normalized(
                counter,
                reply->Ok_0,
                plan.shadowed_tokens as nat,
            )
        },
        reply matches Ok(text) ==> {
            let summary = normalized(counter, text, plan.shadowed_tokens as nat);
            compaction_error(
                counter,
                plan,
                finalized(counter, plan, summary, budget, created_at).0,
                budget,
            ) is None ==> finished(counter, plan, reply, budget, created_at) is Ok && finished(
                counter,
                plan,
                reply,
                budget,
                created_at,
            )->Ok_0.summary == Some(summary)
        },
        reply == Err::<Seq<char>, SummaryFailure>(SummaryFailure::Cancelled) <==> finished(
            counter,
            plan,
            reply,
            budget,
            created_at,
        ) == Err::<super::prepare::SurfaceModel, Option<Seq<char>>>(None),
{
    if let Ok(surface) = finished(counter, plan, reply, budget, created_at) {
        law_compaction_keeps_the_summary_and_the_tail(
            counter,
            plan,
            surface.summary->0,
            budget,
            created_at,
            0,
        );
    }
}

} // verus!
