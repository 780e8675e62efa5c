//! Making a history fit for the next request: first by pruning the results of tools, then by a
//! checkpoint.

use vstd::prelude::*;

use super::budget::ContextBudget;
use super::compaction::{
    build_compaction_plan, compactable, compaction_error, finalize_compaction, finalized,
    validate_compaction_result, CompactionPlan,
};
use super::counter::{capped, TokenCounter};
use super::summary::{fallback, fallback_summary, normalize, normalized};
use super::surface::{
    entries_tokens, estimate_entries, prune_tool_results, pruned, PruneState,
};
use crate::deep::{deep, group_deep};
use crate::json::Json;
use crate::models::{AgentMemoryEntry, EntryModel};

verus! {

broadcast use group_deep;

/// Why there is no summary.
#[derive(Debug, PartialEq, Eq)]
pub enum SummaryFailure {
    Cancelled,
    Unavailable(String),
}

/// A history that was made shorter.
#[derive(Debug, PartialEq, Eq)]
pub struct PreparedSurface {
    pub entries: Vec<AgentMemoryEntry>,
    pub before_tokens: usize,
    pub after_tokens: usize,
    pub changed_ids: Vec<String>,
    pub summary: Option<String>,
    pub summary_fallback: bool,
}

/// What a shortened history is.
pub struct SurfaceModel {
    pub entries: Seq<EntryModel>,
    pub before_tokens: nat,
    pub after_tokens: nat,
    pub changed_ids: Seq<Seq<char>>,
    pub summary: Option<Seq<char>>,
    pub summary_fallback: bool,
}

impl DeepView for PreparedSurface {
    type V = SurfaceModel;

    open spec fn deep_view(&self) -> SurfaceModel {
        SurfaceModel {
            entries: deep(self.entries@),
            before_tokens: self.before_tokens as nat,
            after_tokens: self.after_tokens as nat,
            changed_ids: deep(self.changed_ids@),
            summary: self.summary.deep_view(),
            summary_fallback: self.summary_fallback,
        }
    }
}

/// The history that pruning left.
pub open spec fn pruned_surface(before_tokens: nat, state: PruneState) -> SurfaceModel {
    SurfaceModel {
        entries: state.entries,
        before_tokens,
        after_tokens: state.tokens,
        changed_ids: state.ids,
        summary: None,
        summary_fallback: false,
    }
}

/// Prunes the results of tools, where the history is long and this is enough to make it short.
pub fn prepare_prune<F: Fn(&str) -> usize, G: Fn(&[Json]) -> usize>(
    counter: &TokenCounter<F, G>,
    entries: &Vec<AgentMemoryEntry>,
    budget: ContextBudget,
) -> (r: Option<PreparedSurface>)
    requires
        counter.wf(),
    ensures
        ({
            let before = capped(entries_tokens(*counter, deep(entries@)));
            let state = pruned(*counter, deep(entries@), budget.pressure());
            if before > budget.pressure() && state.ids.len() > 0 && state.tokens
                <= budget.pressure() {
                r is Some && r->0.deep_view() == pruned_surface(before, state)
            } else {
                r is None
            }
        }),
{
    let before_tokens = estimate_entries(counter, entries);
    let limit = budget.pressure_limit();
    if before_tokens <= limit {
        return None;
    }
    let result = prune_tool_results(counter, entries, limit);
    if result.changed_ids.is_empty() || result.after_tokens > limit {
        return None;
    }
    Some(
        PreparedSurface {
            entries: result.entries,
            before_tokens,
            after_tokens: result.after_tokens,
            changed_ids: result.changed_ids,
            summary: None,
            summary_fallback: false,
        },
    )
}

/// Plans a checkpoint, where that is worth it.
pub fn build_plan<F: Fn(&str) -> usize, G: Fn(&[Json]) -> usize>(
    counter: &TokenCounter<F, G>,
    entries: &[AgentMemoryEntry],
    budget: ContextBudget,
) -> (r: Option<CompactionPlan>)
    requires
        counter.wf(),
    ensures
        r is Some == compactable(*counter, deep(entries@), budget),
        r matches Some(plan) ==> plan.plans(*counter, deep(entries@), budget),
{
    build_compaction_plan(counter, entries, budget)
}

/// Prunes the results of tools as far as the budget asks for it. This is what is left to do where
/// there can be no checkpoint.
pub fn fallback_surface<F: Fn(&str) -> usize, G: Fn(&[Json]) -> usize>(
    counter: &TokenCounter<F, G>,
    entries: &Vec<AgentMemoryEntry>,
    budget: ContextBudget,
) -> (r: PreparedSurface)
    requires
        counter.wf(),
    ensures
        r.deep_view() == pruned_surface(
            capped(entries_tokens(*counter, deep(entries@))),
            pruned(*counter, deep(entries@), budget.input()),
        ),
{
    let before_tokens = estimate_entries(counter, entries);
    let result = prune_tool_results(counter, entries, budget.input_limit());
    PreparedSurface {
        entries: result.entries,
        before_tokens,
        after_tokens: result.after_tokens,
        changed_ids: result.changed_ids,
        summary: None,
        summary_fallback: false,
    }
}

/// The history with the checkpoint that holds `summary`.
pub open spec fn checkpoint_surface<F: Fn(&str) -> usize, G: Fn(&[Json]) -> usize>(
    counter: TokenCounter<F, G>,
    plan: CompactionPlan,
    summary: Seq<char>,
    summary_fallback: bool,
    budget: ContextBudget,
    created_at: i64,
) -> SurfaceModel {
    let (entries, changed_ids) = finalized(counter, plan, summary, budget, created_at);
    SurfaceModel {
        entries,
        before_tokens: plan.before_tokens as nat,
        after_tokens: capped(entries_tokens(counter, entries)),
        changed_ids,
        summary: Some(summary),
        summary_fallback,
    }
}

/// What the reply of the summary's model comes to: the summary that was made without a model
/// takes its place where there is none, or where the outcome would not be sound.
pub open spec fn finished<F: Fn(&str) -> usize, G: Fn(&[Json]) -> usize>(
    counter: TokenCounter<F, G>,
    plan: CompactionPlan,
    reply: Result<Seq<char>, SummaryFailure>,
    budget: ContextBudget,
    created_at: i64,
) -> Result<SurfaceModel, Option<Seq<char>>> {
    let shadowed = plan.shadowed_tokens as nat;
    let own = fallback(counter, deep(plan.source_entries@), shadowed);
    if reply == Err::<Seq<char>, SummaryFailure>(SummaryFailure::Cancelled) {
        Err(None)
    } else {
        let summary = normalized(
            counter,
            match reply {
                Ok(text) => text,
                Err(_) => own,
            },
            shadowed,
        );
        let first = checkpoint_surface(counter, plan, summary, reply is Err, budget, created_at);
        let second = checkpoint_surface(
            counter,
            plan,
            normalized(counter, own, shadowed),
            true,
            budget,
            created_at,
        );
        let error = compaction_error(counter, plan, first.entries, budget);
        let second_error = compaction_error(counter, plan, second.entries, budget);
        if error is None {
            Ok(first)
        } else if second_error is None {
            Ok(second)
        } else {
            Err(
                Some(
                    "Context compaction invariant failed ("@ + error->0 + "); fallback failed ("@
                        + second_error->0 + ")."@,
                ),
            )
        }
    }
}

/// The text of a reply that is one.
pub open spec fn reply_text(reply: Result<String, SummaryFailure>) -> Result<
    Seq<char>,
    SummaryFailure,
> {
    match reply {
        Ok(text) => Ok(text@),
        Err(failure) => Err(failure),
    }
}

/// Carries out a plan, once the summary's model has replied.
pub fn finish_plan<F: Fn(&str) -> usize, G: Fn(&[Json]) -> usize>(
    counter: &TokenCounter<F, G>,
    plan: &CompactionPlan,
    reply: Result<String, SummaryFailure>,
    budget: ContextBudget,
    created_at: i64,
) -> (r: Result<PreparedSurface, SummaryFailure>)
    requires
        counter.wf(),
    ensures
        match finished(*counter, *plan, reply_text(reply), budget, created_at) {
            Ok(surface) => r is Ok && r->Ok_0.deep_view() == surface,
            Err(None) => r == Err::<PreparedSurface, SummaryFailure>(SummaryFailure::Cancelled),
            Err(Some(error)) => r is Err && r->Err_0 is Unavailable && r->Err_0->Unavailable_0@
                == error,
        },
{
    let own = fallback_summary(counter, &plan.source_entries, plan.shadowed_tokens);
    let (summary, summary_fallback) = match reply {
        Ok(text) => (normalize(counter, &text, plan.shadowed_tokens), false),
        Err(SummaryFailure::Cancelled) => {
            return Err(SummaryFailure::Cancelled);
        },
        Err(SummaryFailure::Unavailable(_)) => (
            normalize(counter, &own, plan.shadowed_tokens),
            true,
        ),
    };
    let (entries, changed_ids) = finalize_compaction(counter, plan, &summary, budget, created_at);
    let error = match validate_compaction_result(counter, plan, &entries, budget) {
        Ok(_) => {
            let after_tokens = estimate_entries(counter, &entries);
            return Ok(
                PreparedSurface {
                    entries,
                    before_tokens: plan.before_tokens,
                    after_tokens,
                    changed_ids,
                    summary: Some(summary),
                    summary_fallback,
                },
            );
        },
        Err(error) => error,
    };
    let summary = normalize(counter, &own, plan.shadowed_tokens);
    let (entries, changed_ids) = finalize_compaction(counter, plan, &summary, budget, created_at);
    match validate_compaction_result(counter, plan, &entries, budget) {
        Ok(_) => {
            let after_tokens = estimate_entries(counter, &entries);
            Ok(
                PreparedSurface {
                    entries,
                    before_tokens: plan.before_tokens,
                    after_tokens,
                    changed_ids,
                    summary: Some(summary),
                    summary_fallback: true,
                },
            )
        },
        Err(second_error) => {
            let mut message = "Context compaction invariant failed (".to_owned();
            message.append(&error);
            message.append("); fallback failed (");
            message.append(&second_error);
            message.append(").");
            Err(SummaryFailure::Unavailable(message))
        },
    }
}

} // verus!
