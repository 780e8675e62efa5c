//! Fitting the messages of a request into the budget.

use vstd::prelude::*;

use super::budget::{saturating_product, ContextBudget};
use super::counter::{capped, TokenCounter};
use super::surface::minus;
use crate::deep::{deep, group_deep};
use crate::json::{group_json, Json, JsonModel};
use crate::json_text::compact_json;
use crate::number::{decimal, number_text};
use crate::text::{chars_of, same, substring};

verus! {

broadcast use {group_deep, group_json};

pub const TRUNCATED_NOTE: &'static str = "\n[context truncated]";

pub const OVER_BUDGET: &'static str =
    "Conversation context exceeds the configured input budget (";

pub const STILL_OVER_BUDGET: &'static str =
    "Conversation context still exceeds the configured input budget (";

pub const BUDGET_SUFFIX: &'static str = " tokens).";

/// What fitting did to the messages.
#[derive(Debug, Clone, Copy, PartialEq, Eq)]
pub struct ContextReport {
    pub before_tokens: usize,
    pub after_tokens: usize,
    pub dropped_messages: usize,
    pub compacted: bool,
}

// ---- what a request costs ----

/// What the definitions of the tools cost.
pub open spec fn tools_tokens<F: Fn(&str) -> usize, G: Fn(&[Json]) -> usize>(
    counter: TokenCounter<F, G>,
    tools: Seq<JsonModel>,
) -> nat
    decreases tools.len(),
{
    if tools.len() == 0 {
        0
    } else {
        tools_tokens(counter, tools.drop_last()) + counter.tokens(compact_json(tools.last()))
    }
}

/// What a request costs.
pub open spec fn request_tokens<F: Fn(&str) -> usize, G: Fn(&[Json]) -> usize>(
    counter: TokenCounter<F, G>,
    messages: Seq<JsonModel>,
    tools: Seq<JsonModel>,
) -> nat {
    capped(counter.messages_tokens(messages) + tools_tokens(counter, tools))
}

/// What a request costs.
pub fn total_tokens<F: Fn(&str) -> usize, G: Fn(&[Json]) -> usize>(
    counter: &TokenCounter<F, G>,
    messages: &[Json],
    tools: &[Json],
) -> (r: usize)
    requires
        counter.wf(),
    ensures
        r == request_tokens(*counter, deep(messages@), deep(tools@)),
{
    let mut sum: usize = 0;
    let mut i: usize = 0;
    while i < tools.len()
        invariant
            counter.wf(),
            i <= tools@.len(),
            sum == capped(tools_tokens(*counter, deep(tools@).take(i as int))),
        decreases tools@.len() - i,
    {
        let cost = counter.count_text(&tools[i].to_text());
        sum = sum.saturating_add(cost);
        i += 1;
        proof {
            assert(deep(tools@).take(i as int).drop_last() =~= deep(tools@).take(i - 1));
            assert(deep(tools@).take(i as int).last() == tools@[i - 1].deep_view());
        }
    }
    proof {
        assert(deep(tools@).take(tools@.len() as int) =~= deep(tools@));
    }
    counter.count_messages(messages).saturating_add(sum)
}

// ---- the shape of a conversation ----

/// Whether a message has the role `role`.
pub open spec fn has_role(message: JsonModel, role: Seq<char>) -> bool {
    message.text("role"@) == Some(role)
}

/// Whether a message is one of the assistant that calls tools.
pub open spec fn calls_tools(message: JsonModel) -> bool {
    has_role(message, "assistant"@) && match message.items("tool_calls"@) {
        Some(calls) => calls.len() > 0,
        None => false,
    }
}

/// How many messages of the system stand from `i` on, and before the first other one.
pub open spec fn system_end(messages: Seq<JsonModel>, i: int) -> int
    decreases messages.len() - i,
{
    if i < messages.len() && has_role(messages[i], "system"@) {
        system_end(messages, i + 1)
    } else {
        i
    }
}

/// Where the tool results that begin at `i` end.
pub open spec fn results_end(messages: Seq<JsonModel>, i: int) -> int
    decreases messages.len() - i,
{
    if i < messages.len() && has_role(messages[i], "tool"@) {
        results_end(messages, i + 1)
    } else {
        i
    }
}

/// Where the block that begins at `i` ends: a message, and, where it calls tools, their results.
pub open spec fn block_end(messages: Seq<JsonModel>, i: int) -> int {
    if calls_tools(messages[i]) {
        results_end(messages, i + 1)
    } else {
        i + 1
    }
}

/// How many messages stand at the beginning in any case: those of the system, and the first
/// block behind them.
pub open spec fn prefix_end(messages: Seq<JsonModel>) -> int {
    let system = system_end(messages, 0);
    if system < messages.len() {
        block_end(messages, system)
    } else {
        system
    }
}

/// The blocks from `i` on, each by its beginning.
pub open spec fn block_list(messages: Seq<JsonModel>, i: int) -> Seq<int>
    decreases messages.len() - i,
{
    if i < 0 || i >= messages.len() || block_end(messages, i) <= i || block_end(messages, i)
        > messages.len() {
        Seq::empty()
    } else {
        seq![i] + block_list(messages, block_end(messages, i))
    }
}

pub proof fn lemma_results_end(messages: Seq<JsonModel>, i: int)
    requires
        0 <= i <= messages.len(),
    ensures
        i <= results_end(messages, i) <= messages.len(),
    decreases messages.len() - i,
{
    if i < messages.len() && has_role(messages[i], "tool"@) {
        lemma_results_end(messages, i + 1);
    }
}

pub proof fn lemma_system_end(messages: Seq<JsonModel>, i: int)
    requires
        0 <= i <= messages.len(),
    ensures
        i <= system_end(messages, i) <= messages.len(),
    decreases messages.len() - i,
{
    if i < messages.len() && has_role(messages[i], "system"@) {
        lemma_system_end(messages, i + 1);
    }
}

fn check_role(message: &Json, role: &str) -> (r: bool)
    ensures
        r == has_role(message.deep_view(), role@),
{
    match message.text("role") {
        Some(text) => same(text, role),
        None => false,
    }
}

fn check_calls(message: &Json) -> (r: bool)
    ensures
        r == calls_tools(message.deep_view()),
{
    check_role(message, "assistant") && match message.items("tool_calls") {
        Some(calls) => calls.len() > 0,
        None => false,
    }
}

fn leading_system_len(messages: &[Json]) -> (r: usize)
    ensures
        r == system_end(deep(messages@), 0),
        r <= messages@.len(),
{
    let ghost models = deep(messages@);
    let mut i: usize = 0;
    while i < messages.len() && check_role(&messages[i], "system")
        invariant
            i <= messages@.len(),
            models == deep(messages@),
            system_end(models, 0) == system_end(models, i as int),
        decreases messages@.len() - i,
    {
        proof {
            assert(models[i as int] == messages@[i as int].deep_view());
        }
        i += 1;
    }
    proof {
        if i < messages@.len() {
            assert(models[i as int] == messages@[i as int].deep_view());
        }
    }
    i
}

fn find_block_end(messages: &[Json], i: usize) -> (r: usize)
    requires
        i < messages@.len(),
    ensures
        r == block_end(deep(messages@), i as int),
        i < r <= messages@.len(),
{
    let ghost models = deep(messages@);
    let n = messages.len();
    let mut k: usize = i + 1;
    proof {
        assert(models[i as int] == messages@[i as int].deep_view());
    }
    if check_calls(&messages[i]) {
        while k < n && check_role(&messages[k], "tool")
            invariant
                i < k <= n,
                n == messages@.len(),
                models == deep(messages@),
                results_end(models, i + 1) == results_end(models, k as int),
            decreases messages@.len() - k,
        {
            proof {
                assert(models[k as int] == messages@[k as int].deep_view());
            }
            k += 1;
        }
        proof {
            if k < messages@.len() {
                assert(models[k as int] == messages@[k as int].deep_view());
            }
        }
    }
    k
}

fn stable_prefix_len(messages: &[Json]) -> (r: usize)
    ensures
        r == prefix_end(deep(messages@)),
        r <= messages@.len(),
{
    let system = leading_system_len(messages);
    if system < messages.len() {
        find_block_end(messages, system)
    } else {
        system
    }
}

/// The blocks from `start` on, each by its beginning.
fn history_blocks(messages: &[Json], start: usize) -> (r: Vec<usize>)
    requires
        start <= messages@.len(),
    ensures
        r@.len() == block_list(deep(messages@), start as int).len(),
        forall|j: int|
            0 <= j < r@.len() ==> #[trigger] r@[j] == block_list(deep(messages@), start as int)[j],
        forall|j: int| 0 <= j < r@.len() ==> #[trigger] r@[j] < messages@.len(),
        start < messages@.len() ==> r@.len() > 0,
{
    let ghost models = deep(messages@);
    let ghost all = block_list(models, start as int);
    let mut r: Vec<usize> = Vec::new();
    let mut i: usize = start;
    while i < messages.len()
        invariant
            start <= i <= messages@.len(),
            models == deep(messages@),
            all == block_list(models, start as int),
            r@.len() + block_list(models, i as int).len() == all.len(),
            forall|j: int| 0 <= j < r@.len() ==> #[trigger] r@[j] == all[j],
            forall|j: int| 0 <= j < r@.len() ==> #[trigger] r@[j] < messages@.len(),
            forall|j: int|
                0 <= j < block_list(models, i as int).len() ==> #[trigger] block_list(
                    models,
                    i as int,
                )[j] == all[r@.len() + j],
            i > start ==> r@.len() > 0,
        decreases messages@.len() - i,
    {
        let end = find_block_end(messages, i);
        let ghost before = r@;
        let ghost here = block_list(models, i as int);
        let ghost rest = block_list(models, end as int);
        r.push(i);
        proof {
            assert(here == seq![i as int] + rest);
            assert(here[0] == all[before.len() as int]);
            assert forall|j: int| 0 <= j < rest.len() implies #[trigger] rest[j] == all[r@.len()
                + j] by {
                assert(here[j + 1] == all[before.len() + (j + 1)]);
            }
        }
        i = end;
    }
    r
}

// ---- cutting a block down ----

/// A content cut to `keep` characters.
pub open spec fn cut_content(content: Seq<char>, keep: nat) -> Seq<char> {
    if keep < content.len() {
        content.take(keep as int) + TRUNCATED_NOTE@
    } else {
        content
    }
}

/// The block with another content of the message `i`.
pub open spec fn with_content(
    block: Seq<JsonModel>,
    i: int,
    content: Seq<char>,
) -> Seq<JsonModel> {
    block.update(i, block[i].with("content"@, JsonModel::Str(content)))
}

/// How many characters are kept after a try with `keep`.
pub open spec fn next_cut(keep: nat) -> nat
    recommends
        keep > 0,
{
    let next = capped(keep * 3) / 4;
    if next <= keep - 1 {
        next
    } else {
        (keep - 1) as nat
    }
}

/// The block with the content of the message `i` cut down, from `keep` characters on, until the
/// block costs no more than `target`, or nothing of the content is left.
pub open spec fn cut_message<F: Fn(&str) -> usize, G: Fn(&[Json]) -> usize>(
    counter: TokenCounter<F, G>,
    block: Seq<JsonModel>,
    i: int,
    content: Seq<char>,
    keep: nat,
    target: nat,
) -> Seq<JsonModel>
    decreases keep,
{
    let cut = with_content(block, i, cut_content(content, keep));
    if counter.messages_tokens(cut) <= target || keep == 0 {
        cut
    } else {
        cut_message(counter, cut, i, content, next_cut(keep), target)
    }
}

/// The message without its reasoning.
pub open spec fn without_reasoning(message: JsonModel) -> JsonModel {
    if message.get("reasoning_content"@) is Some {
        message.with("reasoning_content"@, JsonModel::Null)
    } else {
        message
    }
}

/// The block with its first `n` messages cut down, the last first, until it costs no more than
/// `target`.
pub open spec fn cut_block<F: Fn(&str) -> usize, G: Fn(&[Json]) -> usize>(
    counter: TokenCounter<F, G>,
    block: Seq<JsonModel>,
    n: int,
    target: nat,
) -> Seq<JsonModel>
    decreases n,
{
    if n <= 0 || counter.messages_tokens(block) <= target {
        block
    } else {
        let i = n - 1;
        let cut = match block[i].text("content"@) {
            Some(content) => cut_message(
                counter,
                block,
                i,
                content,
                if content.len() <= capped(target * 4) {
                    content.len()
                } else {
                    capped(target * 4)
                },
                target,
            ),
            None => block,
        };
        cut_block(counter, cut.update(i, without_reasoning(cut[i])), i, target)
    }
}

/// The block cut down to `target` tokens, as far as that can be.
pub open spec fn compacted_block<F: Fn(&str) -> usize, G: Fn(&[Json]) -> usize>(
    counter: TokenCounter<F, G>,
    block: Seq<JsonModel>,
    target: nat,
) -> Seq<JsonModel> {
    if target == 0 {
        block
    } else {
        cut_block(counter, block, block.len() as int, target)
    }
}

/// Replaces the message `i` by itself with the member `key` set.
fn set_member(block: &mut Vec<Json>, i: usize, key: &str, value: Json)
    requires
        i < old(block)@.len(),
    ensures
        deep(final(block)@) == deep(old(block)@).update(
            i as int,
            deep(old(block)@)[i as int].with(key@, value.deep_view()),
        ),
        final(block)@.len() == old(block)@.len(),
{
    let mut message = block[i].clone();
    message.set(key, value);
    block.set(i, message);
}

/// Cuts a block down to `target_tokens`, as far as that can be.
pub fn compact_block<F: Fn(&str) -> usize, G: Fn(&[Json]) -> usize>(
    counter: &TokenCounter<F, G>,
    block: &mut Vec<Json>,
    target_tokens: usize,
)
    requires
        counter.wf(),
    ensures
        deep(final(block)@) == compacted_block(*counter, deep(old(block)@), target_tokens as nat),
        final(block)@.len() == old(block)@.len(),
{
    if target_tokens == 0 {
        return;
    }
    let ghost wanted = cut_block(*counter, deep(block@), block@.len() as int, target_tokens as nat);
    let n = block.len();
    let mut left: usize = n;
    while left > 0 && counter.count_messages(block) > target_tokens
        invariant
            counter.wf(),
            left <= n,
            n == block@.len(),
            cut_block(*counter, deep(block@), left as int, target_tokens as nat) == wanted,
        decreases left,
    {
        let i: usize = left - 1;
        let ghost before = deep(block@);
        proof {
            assert(before[i as int] == block@[i as int].deep_view());
        }
        let content = match block[i].text("content") {
            Some(text) => Some(text.clone()),
            None => None,
        };
        let ghost mut cut = before;
        if let Some(text) = content {
            let chars = chars_of(&text);
            let most = saturating_product(target_tokens, 4);
            let mut keep: usize = if chars.len() <= most {
                chars.len()
            } else {
                most
            };
            proof {
                cut =
                cut_message(*counter, before, i as int, text@, keep as nat, target_tokens as nat);
            }
            let mut done = false;
            while !done
                invariant
                    counter.wf(),
                    i < n,
                    n == block@.len(),
                    keep <= chars@.len(),
                    chars@ == text@,
                    !done ==> cut_message(
                        *counter,
                        deep(block@),
                        i as int,
                        text@,
                        keep as nat,
                        target_tokens as nat,
                    ) == cut,
                    done ==> deep(block@) == cut,
                decreases (if done { 0int } else { 1 + keep as int }),
            {
                let mut short = substring(&chars, 0, keep);
                if keep < chars.len() {
                    short.append(TRUNCATED_NOTE);
                }
                proof {
                    assert(short@ =~= cut_content(text@, keep as nat));
                }
                set_member(block, i, "content", Json::Str(short));
                if counter.count_messages(block) <= target_tokens || keep == 0 {
                    done = true;
                } else {
                    let next: usize = saturating_product(keep, 3) / 4;
                    keep = if next <= keep - 1 {
                        next
                    } else {
                        keep - 1
                    };
                }
            }
        }
        proof {
            assert(deep(block@) == cut);
            assert(cut[i as int] == block@[i as int].deep_view());
        }
        if block[i].get("reasoning_content").is_some() {
            set_member(block, i, "reasoning_content", Json::Null);
        } else {
            proof {
                assert(cut.update(i as int, cut[i as int]) =~= cut);
            }
        }
        left = i;
    }
}

// ---- fitting a request ----

/// The first of the kept blocks, if the blocks from `k` on are kept: earlier ones are kept as
/// long as the request stays within `limit`.
pub open spec fn first_kept<F: Fn(&str) -> usize, G: Fn(&[Json]) -> usize>(
    counter: TokenCounter<F, G>,
    messages: Seq<JsonModel>,
    tools: Seq<JsonModel>,
    prefix: Seq<JsonModel>,
    limit: nat,
    blocks: Seq<int>,
    k: int,
) -> int
    decreases k,
{
    if k > 0 && request_tokens(counter, prefix + messages.skip(blocks[k - 1]), tools) <= limit {
        first_kept(counter, messages, tools, prefix, limit, blocks, k - 1)
    } else {
        k
    }
}

/// The messages at the beginning, with their first block cut down where they alone cost more
/// than `limit`.
pub open spec fn fitted_prefix<F: Fn(&str) -> usize, G: Fn(&[Json]) -> usize>(
    counter: TokenCounter<F, G>,
    prefix: Seq<JsonModel>,
    tools: Seq<JsonModel>,
    limit: nat,
) -> Seq<JsonModel> {
    if request_tokens(counter, prefix, tools) > limit {
        let system = system_end(prefix, 0);
        prefix.take(system) + compacted_block(
            counter,
            prefix.skip(system),
            minus(limit, request_tokens(counter, prefix.take(system), tools)),
        )
    } else {
        prefix
    }
}

/// The latest blocks that fit behind the prefix. Where not even the last one fits, that one is
/// cut down.
pub open spec fn fitted_history<F: Fn(&str) -> usize, G: Fn(&[Json]) -> usize>(
    counter: TokenCounter<F, G>,
    messages: Seq<JsonModel>,
    tools: Seq<JsonModel>,
    prefix: Seq<JsonModel>,
    limit: nat,
    blocks: Seq<int>,
) -> Seq<JsonModel> {
    let last = blocks.len() - 1;
    if last_fits(counter, messages, tools, prefix, limit, blocks) {
        messages.skip(
            blocks[first_kept(counter, messages, tools, prefix, limit, blocks, last)],
        )
    } else {
        compacted_block(
            counter,
            messages.skip(blocks[last]),
            minus(limit, request_tokens(counter, prefix, tools)),
        )
    }
}

/// Whether the last block fits behind the prefix.
pub open spec fn last_fits<F: Fn(&str) -> usize, G: Fn(&[Json]) -> usize>(
    counter: TokenCounter<F, G>,
    messages: Seq<JsonModel>,
    tools: Seq<JsonModel>,
    prefix: Seq<JsonModel>,
    limit: nat,
    blocks: Seq<int>,
) -> bool {
    request_tokens(counter, prefix + messages.skip(blocks[blocks.len() - 1]), tools) <= limit
}

/// The messages of a fitted request, whether something was cut down, or what to report.
pub open spec fn fitted<F: Fn(&str) -> usize, G: Fn(&[Json]) -> usize>(
    counter: TokenCounter<F, G>,
    messages: Seq<JsonModel>,
    tools: Seq<JsonModel>,
    limit: nat,
) -> Result<(Seq<JsonModel>, bool), Seq<char>> {
    if request_tokens(counter, messages, tools) <= limit {
        Ok((messages, false))
    } else {
        let n = prefix_end(messages);
        let whole = messages.take(n);
        let prefix = fitted_prefix(counter, whole, tools, limit);
        let prefix_cut = request_tokens(counter, prefix, tools) < request_tokens(
            counter,
            whole,
            tools,
        );
        if request_tokens(counter, prefix, tools) > limit {
            Err(OVER_BUDGET@ + decimal(limit) + BUDGET_SUFFIX@)
        } else if n >= messages.len() {
            Ok((prefix, prefix_cut))
        } else {
            let blocks = block_list(messages, n);
            let history = fitted_history(counter, messages, tools, prefix, limit, blocks);
            let block_cut = !last_fits(counter, messages, tools, prefix, limit, blocks)
                && counter.messages_tokens(history) < counter.messages_tokens(
                messages.skip(blocks[blocks.len() - 1]),
            );
            if request_tokens(counter, prefix + history, tools) > limit {
                Err(STILL_OVER_BUDGET@ + decimal(limit) + BUDGET_SUFFIX@)
            } else {
                Ok((prefix + history, prefix_cut || block_cut))
            }
        }
    }
}

/// Copies of the messages from `from` up to, but not including, `to`.
fn copy_messages(messages: &[Json], from: usize, to: usize) -> (r: Vec<Json>)
    requires
        from <= to <= messages@.len(),
    ensures
        deep(r@) == deep(messages@).subrange(from as int, to as int),
{
    let mut r: Vec<Json> = Vec::new();
    let mut i: usize = from;
    while i < to
        invariant
            from <= i <= to <= messages@.len(),
            deep(r@) == deep(messages@).subrange(from as int, i as int),
        decreases to - i,
    {
        r.push(messages[i].clone());
        i += 1;
        proof {
            assert(deep(messages@).subrange(from as int, i as int) =~= deep(messages@).subrange(
                from as int,
                i - 1,
            ).push(deep(messages@)[i - 1]));
        }
    }
    r
}

/// The prefix, and the messages from `start` on.
fn with_history(prefix: &Vec<Json>, messages: &[Json], start: usize) -> (r: Vec<Json>)
    requires
        start <= messages@.len(),
    ensures
        deep(r@) == deep(prefix@) + deep(messages@).skip(start as int),
{
    let mut r = copy_messages(prefix, 0, prefix.len());
    let mut rest = copy_messages(messages, start, messages.len());
    r.append(&mut rest);
    proof {
        assert(deep(r@) =~= deep(prefix@) + deep(messages@).skip(start as int));
    }
    r
}

fn budget_error(text: &str, limit: usize) -> (r: String)
    ensures
        r@ == text@ + decimal(limit as nat) + BUDGET_SUFFIX@,
{
    let mut error = text.to_owned();
    error.append(&number_text(limit as u64));
    error.append(BUDGET_SUFFIX);
    error
}

/// Cuts the prefix down where it alone costs more than `limit`.
fn fit_prefix<F: Fn(&str) -> usize, G: Fn(&[Json]) -> usize>(
    counter: &TokenCounter<F, G>,
    prefix: Vec<Json>,
    tools: &[Json],
    limit: usize,
) -> (r: Vec<Json>)
    requires
        counter.wf(),
    ensures
        deep(r@) == fitted_prefix(*counter, deep(prefix@), deep(tools@), limit as nat),
        r@.len() == prefix@.len(),
{
    if total_tokens(counter, &prefix, tools) <= limit {
        return prefix;
    }
    let system = leading_system_len(&prefix);
    let mut r = copy_messages(&prefix, 0, system);
    let mut anchor = copy_messages(&prefix, system, prefix.len());
    proof {
        assert(deep(r@) =~= deep(prefix@).take(system as int));
        assert(deep(anchor@) =~= deep(prefix@).skip(system as int));
    }
    let target = limit.saturating_sub(total_tokens(counter, &r, tools));
    compact_block(counter, &mut anchor, target);
    let ghost cut = deep(anchor@);
    proof {
        assert(deep(r@).len() + cut.len() == prefix@.len());
    }
    r.append(&mut anchor);
    r
}

/// The place in the list of the first of the kept blocks, if the last one is kept.
fn find_first_kept<F: Fn(&str) -> usize, G: Fn(&[Json]) -> usize>(
    counter: &TokenCounter<F, G>,
    messages: &[Json],
    tools: &[Json],
    prefix: &Vec<Json>,
    limit: usize,
    starts: &Vec<usize>,
    Ghost(blocks): Ghost<Seq<int>>,
) -> (r: usize)
    requires
        counter.wf(),
        starts@.len() > 0,
        starts@.len() == blocks.len(),
        forall|j: int| 0 <= j < starts@.len() ==> #[trigger] starts@[j] == blocks[j],
        forall|j: int| 0 <= j < starts@.len() ==> #[trigger] starts@[j] < messages@.len(),
    ensures
        r == first_kept(
            *counter,
            deep(messages@),
            deep(tools@),
            deep(prefix@),
            limit as nat,
            blocks,
            blocks.len() - 1,
        ),
        r < starts@.len(),
{
    let mut k: usize = starts.len() - 1;
    let mut done = false;
    while k > 0 && !done
        invariant
            counter.wf(),
            k < starts@.len(),
            starts@.len() == blocks.len(),
            forall|j: int| 0 <= j < starts@.len() ==> #[trigger] starts@[j] == blocks[j],
            forall|j: int| 0 <= j < starts@.len() ==> #[trigger] starts@[j] < messages@.len(),
            !done ==> first_kept(
                *counter,
                deep(messages@),
                deep(tools@),
                deep(prefix@),
                limit as nat,
                blocks,
                blocks.len() - 1,
            ) == first_kept(
                *counter,
                deep(messages@),
                deep(tools@),
                deep(prefix@),
                limit as nat,
                blocks,
                k as int,
            ),
            done ==> first_kept(
                *counter,
                deep(messages@),
                deep(tools@),
                deep(prefix@),
                limit as nat,
                blocks,
                blocks.len() - 1,
            ) == k,
        decreases (if done { 0int } else { 1 + k as int }),
    {
        let wider = with_history(prefix, messages, starts[k - 1]);
        if total_tokens(counter, &wider, tools) <= limit {
            k -= 1;
        } else {
            done = true;
        }
    }
    k
}

/// Fits the messages of a request into the budget: the messages of the system and the first
/// block stay at the beginning, the latest blocks that fit stay behind them, and a block that
/// must stay is cut down where it has to be.
pub fn fit_openai_messages<F: Fn(&str) -> usize, G: Fn(&[Json]) -> usize>(
    counter: &TokenCounter<F, G>,
    messages: &mut Vec<Json>,
    tools: &[Json],
    budget: ContextBudget,
) -> (r: Result<ContextReport, String>)
    requires
        counter.wf(),
    ensures
        match fitted(*counter, deep(old(messages)@), deep(tools@), budget.input()) {
            Ok((kept, cut)) => {
                &&& r is Ok
                &&& deep(final(messages)@) == kept
                &&& r->Ok_0.before_tokens == request_tokens(
                    *counter,
                    deep(old(messages)@),
                    deep(tools@),
                )
                &&& r->Ok_0.after_tokens == request_tokens(*counter, kept, deep(tools@))
                &&& r->Ok_0.dropped_messages == minus(old(messages)@.len(), kept.len())
                &&& r->Ok_0.compacted == cut
            },
            Err(error) => r is Err && r->Err_0@ == error && *final(messages) == *old(messages),
        },
{
    let before_tokens = total_tokens(counter, messages, tools);
    let limit = budget.input_limit();
    if before_tokens <= limit {
        return Ok(
            ContextReport {
                before_tokens,
                after_tokens: before_tokens,
                dropped_messages: 0,
                compacted: false,
            },
        );
    }
    let ghost models = deep(messages@);
    let ghost tool_models = deep(tools@);
    let n = messages.len();
    let prefix_len = stable_prefix_len(messages);
    let whole = copy_messages(messages, 0, prefix_len);
    proof {
        assert(deep(whole@) =~= models.take(prefix_len as int));
    }
    let whole_tokens = total_tokens(counter, &whole, tools);
    let prefix = fit_prefix(counter, whole, tools, limit);
    let prefix_tokens = total_tokens(counter, &prefix, tools);
    let prefix_cut = prefix_tokens < whole_tokens;
    if prefix_tokens > limit {
        return Err(budget_error(OVER_BUDGET, limit));
    }
    if prefix_len >= n {
        *messages = prefix;
        proof {
            assert(deep(messages@).len() == models.len());
        }
        return Ok(
            ContextReport {
                before_tokens,
                after_tokens: prefix_tokens,
                dropped_messages: 0,
                compacted: prefix_cut,
            },
        );
    }
    let starts = history_blocks(messages, prefix_len);
    let ghost blocks = block_list(models, prefix_len as int);
    let last = starts[starts.len() - 1];
    let mut bounded = with_history(&prefix, messages, last);
    let mut block_cut = false;
    if total_tokens(counter, &bounded, tools) <= limit {
        let k = find_first_kept(counter, messages, tools, &prefix, limit, &starts, Ghost(blocks));
        bounded = with_history(&prefix, messages, starts[k]);
    } else {
        let mut block = copy_messages(messages, last, n);
        proof {
            assert(deep(block@) =~= models.skip(last as int));
        }
        let block_tokens = counter.count_messages(&block);
        compact_block(counter, &mut block, limit.saturating_sub(prefix_tokens));
        block_cut = counter.count_messages(&block) < block_tokens;
        bounded = prefix;
        bounded.append(&mut block);
    }
    proof {
        assert(deep(bounded@) == deep(prefix@) + fitted_history(
            *counter,
            models,
            tool_models,
            deep(prefix@),
            limit as nat,
            blocks,
        ));
    }
    let after_tokens = total_tokens(counter, &bounded, tools);
    if after_tokens > limit {
        return Err(budget_error(STILL_OVER_BUDGET, limit));
    }
    let dropped_messages = n.saturating_sub(bounded.len());
    proof {
        assert(deep(bounded@).len() == bounded@.len());
    }
    *messages = bounded;
    Ok(
        ContextReport {
            before_tokens,
            after_tokens,
            dropped_messages,
            compacted: prefix_cut || block_cut,
        },
    )
}

} // verus!
