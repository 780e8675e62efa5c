//! What fitting a request guarantees.

use vstd::prelude::*;

use super::context::{
    block_end, block_list, calls_tools, compacted_block, cut_block, cut_content, cut_message,
    first_kept, fitted, fitted_history, fitted_prefix, has_role, last_fits, lemma_results_end,
    lemma_system_end, next_cut, prefix_end, request_tokens, results_end, system_end, with_content,
    without_reasoning,
};
use super::counter::{capped, TokenCounter};
use super::surface::minus;
use crate::json::{Json, JsonModel};
use crate::json_model::lemma_with_get_other;

verus! {

/// A fitted request costs no more than it may.
pub proof fn law_fitted_request_is_within_budget<F: Fn(&str) -> usize, G: Fn(&[Json]) -> usize>(
    counter: TokenCounter<F, G>,
    messages: Seq<JsonModel>,
    tools: Seq<JsonModel>,
    limit: nat,
)
    ensures
        fitted(counter, messages, tools, limit) matches Ok((kept, cut)) ==> request_tokens(
            counter,
            kept,
            tools,
        ) <= limit,
{
}

/// A request that is within the budget stays as it is.
pub proof fn law_short_request_stays<F: Fn(&str) -> usize, G: Fn(&[Json]) -> usize>(
    counter: TokenCounter<F, G>,
    messages: Seq<JsonModel>,
    tools: Seq<JsonModel>,
    limit: nat,
)
    requires
        request_tokens(counter, messages, tools) <= limit,
    ensures
        fitted(counter, messages, tools, limit) == Ok::<(Seq<JsonModel>, bool), Seq<char>>(
            (messages, false),
        ),
{
}

/// What cutting down leaves alone: everything but the content and the reasoning.
spec fn untouched(key: Seq<char>) -> bool {
    key != "content"@ && key != "reasoning_content"@
}

/// The messages agree on the member `key`.
spec fn agree(a: Seq<JsonModel>, b: Seq<JsonModel>, key: Seq<char>) -> bool {
    &&& a.len() == b.len()
    &&& forall|i: int| 0 <= i < a.len() ==> (#[trigger] a[i]).get(key) == b[i].get(key)
}

proof fn lemma_with_untouched(
    json: JsonModel,
    name: Seq<char>,
    value: JsonModel,
    key: Seq<char>,
)
    requires
        name != key,
    ensures
        json.with(name, value).get(key) == json.get(key),
{
    if json is Object {
        lemma_with_get_other(json, name, value, key);
    }
}

proof fn lemma_cut_message<F: Fn(&str) -> usize, G: Fn(&[Json]) -> usize>(
    counter: TokenCounter<F, G>,
    block: Seq<JsonModel>,
    i: int,
    content: Seq<char>,
    keep: nat,
    target: nat,
    key: Seq<char>,
)
    requires
        untouched(key),
        0 <= i < block.len(),
    ensures
        agree(block, cut_message(counter, block, i, content, keep, target), key),
    decreases keep,
{
    let short = cut_content(content, keep);
    let cut = with_content(block, i, short);
    lemma_with_untouched(block[i], "content"@, JsonModel::Str(short), key);
    assert(agree(block, cut, key));
    if !(counter.messages_tokens(cut) <= target || keep == 0) {
        lemma_cut_message(counter, cut, i, content, next_cut(keep), target, key);
    }
}

proof fn lemma_cut_block<F: Fn(&str) -> usize, G: Fn(&[Json]) -> usize>(
    counter: TokenCounter<F, G>,
    block: Seq<JsonModel>,
    n: int,
    target: nat,
    key: Seq<char>,
)
    requires
        untouched(key),
        0 <= n <= block.len(),
    ensures
        agree(block, cut_block(counter, block, n, target), key),
    decreases n,
{
    if n > 0 && counter.messages_tokens(block) > target {
        let i = n - 1;
        let cut = match block[i].text("content"@) {
            Some(content) => cut_message(
                counter,
                block,
                i,
                content,
                if content.len() <= capped(target * 4) {
                    content.len()
                } else {
                    capped(target * 4)
                },
                target,
            ),
            None => block,
        };
        if let Some(content) = block[i].text("content"@) {
            let keep = if content.len() <= capped(target * 4) {
                content.len()
            } else {
                capped(target * 4)
            };
            lemma_cut_message(counter, block, i, content, keep, target, key);
        }
        assert(agree(block, cut, key));
        lemma_with_untouched(cut[i], "reasoning_content"@, JsonModel::Null, key);
        let plain = cut.update(i, without_reasoning(cut[i]));
        assert(agree(cut, plain, key));
        lemma_cut_block(counter, plain, i, target, key);
        assert(agree(block, cut_block(counter, plain, i, target), key)) by {
            let last = cut_block(counter, plain, i, target);
            assert forall|j: int| 0 <= j < block.len() implies (#[trigger] block[j]).get(key)
                == last[j].get(key) by {
                assert(cut[j].get(key) == plain[j].get(key));
                assert(plain[j].get(key) == last[j].get(key));
            }
        }
    }
}

/// Cutting a block down touches nothing but the content and the reasoning of its messages: no
/// message is lost, and roles, tool calls and their identifiers stay.
pub proof fn law_cutting_keeps_roles_and_calls<F: Fn(&str) -> usize, G: Fn(&[Json]) -> usize>(
    counter: TokenCounter<F, G>,
    block: Seq<JsonModel>,
    target: nat,
    key: Seq<char>,
    i: int,
)
    requires
        key != "content"@,
        key != "reasoning_content"@,
        0 <= i < block.len(),
    ensures
        compacted_block(counter, block, target).len() == block.len(),
        compacted_block(counter, block, target)[i].get(key) == block[i].get(key),
{
    if target > 0 {
        lemma_cut_block(counter, block, block.len() as int, target, key);
        assert(block[i].get(key) == cut_block(counter, block, block.len() as int, target)[i].get(
            key,
        ));
    }
}

proof fn lemma_block_end(messages: Seq<JsonModel>, i: int)
    requires
        0 <= i < messages.len(),
    ensures
        i < block_end(messages, i) <= messages.len(),
{
    lemma_results_end(messages, i + 1);
}

/// The blocks behind the place `n` cover the conversation without a gap: the first begins at
/// `n`, each other one where the one before it ends, and the last ends with the conversation. A
/// request keeps whole blocks, so that a tool call is never parted from its results.
pub proof fn law_blocks_cover_the_history(messages: Seq<JsonModel>, n: int, k: int)
    requires
        0 <= n < messages.len(),
        0 <= k < block_list(messages, n).len(),
    ensures
        block_list(messages, n)[0] == n,
        block_end(messages, block_list(messages, n)[k]) == if k + 1 < block_list(
            messages,
            n,
        ).len() {
            block_list(messages, n)[k + 1]
        } else {
            messages.len() as int
        },
    decreases messages.len() - n,
{
    lemma_block_end(messages, n);
    let end = block_end(messages, n);
    let rest = block_list(messages, end);
    assert(block_list(messages, n) == seq![n] + rest);
    if end < messages.len() {
        lemma_block_end(messages, end);
        assert(rest.len() > 0 && rest[0] == end);
        if k > 0 {
            law_blocks_cover_the_history(messages, end, k - 1);
        }
    } else {
        assert(rest.len() == 0);
    }
}

proof fn lemma_system_end_take(messages: Seq<JsonModel>, n: int, i: int)
    requires
        0 <= i <= n <= messages.len(),
        system_end(messages, i) <= n,
    ensures
        system_end(messages.take(n), i) == system_end(messages, i),
    decreases n - i,
{
    lemma_system_end(messages, i);
    if i < n && has_role(messages[i], "system"@) {
        assert(messages.take(n)[i] == messages[i]);
        lemma_system_end_take(messages, n, i + 1);
    }
}

/// The messages of the system stay at the beginning of a fitted request, as they are.
pub proof fn law_system_messages_stay<F: Fn(&str) -> usize, G: Fn(&[Json]) -> usize>(
    counter: TokenCounter<F, G>,
    messages: Seq<JsonModel>,
    tools: Seq<JsonModel>,
    limit: nat,
)
    ensures
        fitted(counter, messages, tools, limit) matches Ok((kept, cut)) ==> {
            let system = system_end(messages, 0);
            kept.len() >= system && kept.take(system) == messages.take(system)
        },
{
    let system = system_end(messages, 0);
    lemma_system_end(messages, 0);
    if request_tokens(counter, messages, tools) > limit {
        let n = prefix_end(messages);
        if system < messages.len() {
            lemma_block_end(messages, system);
        }
        let whole = messages.take(n);
        let prefix = fitted_prefix(counter, whole, tools, limit);
        lemma_system_end_take(messages, n, 0);
        assert(system_end(whole, 0) == system);
        assert(prefix.take(system) =~= messages.take(system));
        if let Ok((kept, cut)) = fitted(counter, messages, tools, limit) {
            assert(kept.take(system) =~= prefix.take(system));
        }
    }
}

/// Every tool result follows another one, or the message that calls the tools.
pub open spec fn paired(messages: Seq<JsonModel>) -> bool {
    forall|i: int|
        0 <= i < messages.len() && has_role(#[trigger] messages[i], "tool"@) ==> i > 0 && (has_role(
            messages[i - 1],
            "tool"@,
        ) || calls_tools(messages[i - 1]))
}

proof fn lemma_results_stop(messages: Seq<JsonModel>, i: int)
    requires
        0 <= i <= messages.len(),
    ensures
        ({
            let end = results_end(messages, i);
            end < messages.len() ==> !has_role(messages[end], "tool"@)
        }),
    decreases messages.len() - i,
{
    if i < messages.len() && has_role(messages[i], "tool"@) {
        lemma_results_stop(messages, i + 1);
    }
}

/// What follows a block is no tool result.
proof fn lemma_block_stops(messages: Seq<JsonModel>, i: int)
    requires
        paired(messages),
        0 <= i < messages.len(),
        !has_role(messages[i], "tool"@),
    ensures
        ({
            let end = block_end(messages, i);
            end < messages.len() ==> !has_role(messages[end], "tool"@)
        }),
{
    lemma_results_stop(messages, i + 1);
    if !calls_tools(messages[i]) && i + 1 < messages.len() && has_role(messages[i + 1], "tool"@) {
        assert(messages[i + 1 - 1] == messages[i]);
    }
}

proof fn lemma_no_block_begins_with_a_result(messages: Seq<JsonModel>, n: int, k: int)
    requires
        paired(messages),
        0 <= n < messages.len(),
        !has_role(messages[n], "tool"@),
        0 <= k < block_list(messages, n).len(),
    ensures
        n <= block_list(messages, n)[k] < messages.len(),
        !has_role(messages[block_list(messages, n)[k]], "tool"@),
    decreases messages.len() - n,
{
    lemma_block_end(messages, n);
    lemma_block_stops(messages, n);
    let end = block_end(messages, n);
    let rest = block_list(messages, end);
    assert(block_list(messages, n) == seq![n] + rest);
    if k > 0 {
        assert(block_list(messages, n)[k] == rest[k - 1]);
        lemma_no_block_begins_with_a_result(messages, end, k - 1);
    }
}

proof fn lemma_prefix_stops(messages: Seq<JsonModel>)
    requires
        paired(messages),
        prefix_end(messages) < messages.len(),
    ensures
        0 < prefix_end(messages),
        !has_role(messages[prefix_end(messages)], "tool"@),
{
    reveal_strlit("tool");
    reveal_strlit("system");
    reveal_strlit("assistant");
    assert("tool"@.len() == 4 && "system"@.len() == 6 && "assistant"@.len() == 9);
    let system = system_end(messages, 0);
    lemma_system_end(messages, 0);
    lemma_before_system_end(messages, 0);
    if system < messages.len() {
        if has_role(messages[system], "tool"@) {
            assert(has_role(messages[system - 1], "system"@));
        }
        lemma_block_end(messages, system);
        lemma_block_stops(messages, system);
    }
}

proof fn lemma_before_system_end(messages: Seq<JsonModel>, i: int)
    requires
        0 <= i <= messages.len(),
        i == 0 || has_role(messages[i - 1], "system"@),
    ensures
        ({
            let end = system_end(messages, i);
            end == 0 || has_role(messages[end - 1], "system"@)
        }),
    decreases messages.len() - i,
{
    if i < messages.len() && has_role(messages[i], "system"@) {
        lemma_before_system_end(messages, i + 1);
    }
}

proof fn lemma_first_kept<F: Fn(&str) -> usize, G: Fn(&[Json]) -> usize>(
    counter: TokenCounter<F, G>,
    messages: Seq<JsonModel>,
    tools: Seq<JsonModel>,
    prefix: Seq<JsonModel>,
    limit: nat,
    blocks: Seq<int>,
    k: int,
)
    requires
        0 <= k,
    ensures
        0 <= first_kept(counter, messages, tools, prefix, limit, blocks, k) <= k,
    decreases k,
{
    if k > 0 && request_tokens(counter, prefix + messages.skip(blocks[k - 1]), tools) <= limit {
        lemma_first_kept(counter, messages, tools, prefix, limit, blocks, k - 1);
    }
}

proof fn lemma_compacted_agrees<F: Fn(&str) -> usize, G: Fn(&[Json]) -> usize>(
    counter: TokenCounter<F, G>,
    block: Seq<JsonModel>,
    target: nat,
    key: Seq<char>,
)
    requires
        untouched(key),
    ensures
        agree(block, compacted_block(counter, block, target), key),
{
    if target > 0 {
        lemma_cut_block(counter, block, block.len() as int, target, key);
    }
}

/// Where the history that is kept behind the prefix begins.
pub open spec fn kept_from<F: Fn(&str) -> usize, G: Fn(&[Json]) -> usize>(
    counter: TokenCounter<F, G>,
    messages: Seq<JsonModel>,
    tools: Seq<JsonModel>,
    limit: nat,
) -> int {
    let n = prefix_end(messages);
    if request_tokens(counter, messages, tools) <= limit || n >= messages.len() {
        n
    } else {
        let prefix = fitted_prefix(counter, messages.take(n), tools, limit);
        let blocks = block_list(messages, n);
        let last = blocks.len() - 1;
        if last_fits(counter, messages, tools, prefix, limit, blocks) {
            blocks[first_kept(counter, messages, tools, prefix, limit, blocks, last)]
        } else {
            blocks[last]
        }
    }
}

proof fn lemma_kept_from<F: Fn(&str) -> usize, G: Fn(&[Json]) -> usize>(
    counter: TokenCounter<F, G>,
    messages: Seq<JsonModel>,
    tools: Seq<JsonModel>,
    limit: nat,
) -> (k: int)
    ensures
        ({
            let n = prefix_end(messages);
            let blocks = block_list(messages, n);
            let start = kept_from(counter, messages, tools, limit);
            &&& 0 <= n <= messages.len()
            &&& n == messages.len() ==> start == n
            &&& n < messages.len() ==> 0 <= k < blocks.len() && start == blocks[k]
        }),
{
    let n = prefix_end(messages);
    lemma_system_end(messages, 0);
    let system = system_end(messages, 0);
    if system < messages.len() {
        lemma_block_end(messages, system);
    }
    if n < messages.len() {
        lemma_block_end(messages, n);
        let blocks = block_list(messages, n);
        assert(blocks[0] == n);
        if request_tokens(counter, messages, tools) <= limit {
            0
        } else {
            let prefix = fitted_prefix(counter, messages.take(n), tools, limit);
            let last = blocks.len() - 1;
            lemma_first_kept(counter, messages, tools, prefix, limit, blocks, last);
            if last_fits(counter, messages, tools, prefix, limit, blocks) {
                first_kept(counter, messages, tools, prefix, limit, blocks, last)
            } else {
                last
            }
        }
    } else {
        0
    }
}

proof fn lemma_block_place(messages: Seq<JsonModel>, n: int, k: int)
    requires
        0 <= n < messages.len(),
        0 <= k < block_list(messages, n).len(),
    ensures
        n <= block_list(messages, n)[k] < messages.len(),
    decreases messages.len() - n,
{
    lemma_block_end(messages, n);
    let rest = block_list(messages, block_end(messages, n));
    assert(block_list(messages, n) == seq![n] + rest);
    if k > 0 {
        assert(block_list(messages, n)[k] == rest[k - 1]);
        lemma_block_place(messages, block_end(messages, n), k - 1);
    }
}

/// A fitted request is made of whole blocks: those of the beginning, and the latest ones. Nothing
/// but the content and the reasoning of a message is ever changed, and where there is a history
/// its last block stays.
pub proof fn law_fitted_request_is_made_of_whole_blocks<
    F: Fn(&str) -> usize,
    G: Fn(&[Json]) -> usize,
>(
    counter: TokenCounter<F, G>,
    messages: Seq<JsonModel>,
    tools: Seq<JsonModel>,
    limit: nat,
    key: Seq<char>,
    i: int,
)
    requires
        key != "content"@,
        key != "reasoning_content"@,
    ensures
        fitted(counter, messages, tools, limit) matches Ok((kept, cut)) ==> {
            let n = prefix_end(messages);
            let start = kept_from(counter, messages, tools, limit);
            &&& n <= start <= messages.len()
            &&& n < messages.len() ==> start < messages.len() && block_list(messages, n).contains(
                start,
            )
            &&& kept.len() == n + messages.len() - start
            &&& 0 <= i < n ==> kept[i].get(key) == messages[i].get(key)
            &&& n <= i < kept.len() ==> kept[i].get(key) == messages[start + i - n].get(key)
        },
{
    let n = prefix_end(messages);
    let start = kept_from(counter, messages, tools, limit);
    let k = lemma_kept_from(counter, messages, tools, limit);
    let blocks = block_list(messages, n);
    if n < messages.len() {
        lemma_block_place(messages, n, k);
        assert(blocks.contains(blocks[k]));
    }
    if request_tokens(counter, messages, tools) > limit {
        let system = system_end(messages, 0);
        lemma_system_end(messages, 0);
        if system < messages.len() {
            lemma_block_end(messages, system);
        }
        let whole = messages.take(n);
        lemma_system_end_take(messages, n, 0);
        let prefix = fitted_prefix(counter, whole, tools, limit);
        lemma_compacted_agrees(
            counter,
            whole.skip(system),
            minus(limit, request_tokens(counter, whole.take(system), tools)),
            key,
        );
        assert(whole =~= whole.take(system) + whole.skip(system));
        assert(agree(whole, prefix, key));
        if 0 <= i < n {
            assert(whole[i].get(key) == prefix[i].get(key));
        }
        if n < messages.len() {
            let rest = messages.skip(start);
            let history = fitted_history(counter, messages, tools, prefix, limit, blocks);
            lemma_compacted_agrees(
                counter,
                rest,
                minus(limit, request_tokens(counter, prefix, tools)),
                key,
            );
            assert(agree(rest, history, key));
            if n <= i < n + history.len() {
                assert(rest[i - n].get(key) == history[i - n].get(key));
                assert((prefix + history)[i] == history[i - n]);
            }
        }
    }
}

/// The messages of the prefix and those from `start` on are paired, where `start` is no result.
proof fn lemma_kept_paired(messages: Seq<JsonModel>, n: int, start: int, kept: Seq<JsonModel>)
    requires
        paired(messages),
        0 <= n <= start <= messages.len(),
        start < messages.len() ==> !has_role(messages[start], "tool"@),
        agree(messages.take(n) + messages.skip(start), kept, "role"@),
        agree(messages.take(n) + messages.skip(start), kept, "tool_calls"@),
    ensures
        paired(kept),
{
    let whole = messages.take(n) + messages.skip(start);
    assert forall|i: int| 0 <= i < kept.len() && has_role(#[trigger] kept[i], "tool"@) implies i
        > 0 && (has_role(kept[i - 1], "tool"@) || calls_tools(kept[i - 1])) by {
        assert(whole[i].get("role"@) == kept[i].get("role"@));
        assert(has_role(whole[i], "tool"@));
        if i < n {
            assert(whole[i] == messages[i]);
            assert(whole[i - 1] == messages[i - 1]);
        } else {
            assert(whole[i] == messages[start + i - n]);
            assert(i > n);
            assert(whole[i - 1] == messages[start + i - n - 1]);
        }
        assert(whole[i - 1].get("role"@) == kept[i - 1].get("role"@));
        assert(whole[i - 1].get("tool_calls"@) == kept[i - 1].get("tool_calls"@));
    }
}

/// Fitting a request never parts a tool call from its results: where every result followed its
/// call before, every result that is kept follows its call.
pub proof fn law_fitted_request_keeps_tool_pairs<F: Fn(&str) -> usize, G: Fn(&[Json]) -> usize>(
    counter: TokenCounter<F, G>,
    messages: Seq<JsonModel>,
    tools: Seq<JsonModel>,
    limit: nat,
)
    requires
        paired(messages),
    ensures
        fitted(counter, messages, tools, limit) matches Ok((kept, cut)) ==> paired(kept),
{
    reveal_strlit("role");
    reveal_strlit("tool_calls");
    reveal_strlit("content");
    reveal_strlit("reasoning_content");
    assert("role"@.len() == 4 && "tool_calls"@.len() == 10 && "content"@.len() == 7
        && "reasoning_content"@.len() == 17);
    if let Ok((kept, cut)) = fitted(counter, messages, tools, limit) {
        let n = prefix_end(messages);
        let start = kept_from(counter, messages, tools, limit);
        let k = lemma_kept_from(counter, messages, tools, limit);
        if n < messages.len() {
            lemma_prefix_stops(messages);
            lemma_no_block_begins_with_a_result(messages, n, k);
        }
        let whole = messages.take(n) + messages.skip(start);
        law_fitted_request_is_made_of_whole_blocks(counter, messages, tools, limit, "role"@, 0);
        assert forall|i: int| 0 <= i < whole.len() implies (#[trigger] whole[i]).get("role"@)
            == kept[i].get("role"@) by {
            law_fitted_request_is_made_of_whole_blocks(counter, messages, tools, limit, "role"@, i);
        }
        assert forall|i: int| 0 <= i < whole.len() implies (#[trigger] whole[i]).get(
            "tool_calls"@,
        ) == kept[i].get("tool_calls"@) by {
            law_fitted_request_is_made_of_whole_blocks(
                counter,
                messages,
                tools,
                limit,
                "tool_calls"@,
                i,
            );
        }
        lemma_kept_paired(messages, n, start, kept);
    }
}

proof fn lemma_first_kept_is_first<F: Fn(&str) -> usize, G: Fn(&[Json]) -> usize>(
    counter: TokenCounter<F, G>,
    messages: Seq<JsonModel>,
    tools: Seq<JsonModel>,
    prefix: Seq<JsonModel>,
    limit: nat,
    blocks: Seq<int>,
    k: int,
)
    requires
        0 <= k,
    ensures
        ({
            let first = first_kept(counter, messages, tools, prefix, limit, blocks, k);
            first > 0 ==> request_tokens(
                counter,
                prefix + messages.skip(blocks[first - 1]),
                tools,
            ) > limit
        }),
    decreases k,
{
    if k > 0 && request_tokens(counter, prefix + messages.skip(blocks[k - 1]), tools) <= limit {
        lemma_first_kept_is_first(counter, messages, tools, prefix, limit, blocks, k - 1);
    }
}

/// No block is dropped that would fit: where a fitted request lacks messages, and its last block
/// was not cut, the beginning of the request together with the history from the block just before
/// the first kept one costs more than the limit. The last block is cut only where it does not fit
/// behind the beginning, and then it alone is kept. The beginning is cut only where it alone costs
/// more than the limit.
pub proof fn law_no_block_is_dropped_that_fits<F: Fn(&str) -> usize, G: Fn(&[Json]) -> usize>(
    counter: TokenCounter<F, G>,
    messages: Seq<JsonModel>,
    tools: Seq<JsonModel>,
    limit: nat,
)
    ensures
        fitted(counter, messages, tools, limit) matches Ok((kept, cut)) ==> {
            let n = prefix_end(messages);
            let blocks = block_list(messages, n);
            let start = n + messages.len() - kept.len();
            let head = kept.take(n);
            &&& n <= kept.len() <= messages.len()
            &&& request_tokens(counter, messages.take(n), tools) <= limit ==> head
                == messages.take(n)
            &&& start > n && kept.skip(n) == messages.skip(start) ==> exists|k: int|
                0 < k < blocks.len() && #[trigger] blocks[k] == start && request_tokens(
                    counter,
                    head + messages.skip(blocks[k - 1]),
                    tools,
                ) > limit
            &&& request_tokens(counter, messages, tools) > limit && n < messages.len()
                && kept.skip(n) != messages.skip(start) ==> start == blocks.last()
                && request_tokens(counter, head + messages.skip(start), tools) > limit
        },
{
    if let Ok((kept, cut)) = fitted(counter, messages, tools, limit) {
        let n = prefix_end(messages);
        let blocks = block_list(messages, n);
        let from = kept_from(counter, messages, tools, limit);
        let k = lemma_kept_from(counter, messages, tools, limit);
        reveal_strlit("content");
        reveal_strlit("reasoning_content");
        assert(""@.len() == 0) by {
            reveal_strlit("");
        }
        assert("content"@.len() == 7 && "reasoning_content"@.len() == 17);
        law_fitted_request_is_made_of_whole_blocks(counter, messages, tools, limit, ""@, 0);
        let start = n + messages.len() - kept.len();
        assert(start == from);
        if request_tokens(counter, messages, tools) > limit {
            let whole = messages.take(n);
            let prefix = fitted_prefix(counter, whole, tools, limit);
            assert(prefix.len() == n) by {
                let system = system_end(messages, 0);
                lemma_system_end(messages, 0);
                if system < messages.len() {
                    lemma_block_end(messages, system);
                }
                lemma_system_end_take(messages, n, 0);
                lemma_compacted_agrees(
                    counter,
                    whole.skip(system),
                    minus(limit, request_tokens(counter, whole.take(system), tools)),
                    ""@,
                );
            }
            if n < messages.len() {
                let last = blocks.len() - 1;
                let history = fitted_history(counter, messages, tools, prefix, limit, blocks);
                assert(kept.take(n) =~= prefix);
                assert(kept.skip(n) =~= history);
                lemma_first_kept_is_first(counter, messages, tools, prefix, limit, blocks, last);
                lemma_first_kept(counter, messages, tools, prefix, limit, blocks, last);
                if last_fits(counter, messages, tools, prefix, limit, blocks) {
                    let first = first_kept(counter, messages, tools, prefix, limit, blocks, last);
                    assert(blocks[first] == start);
                    assert(blocks[0] == n) by {
                        law_blocks_cover_the_history(messages, n, 0);
                    }
                } else if history == messages.skip(start) {
                    assert(false);
                }
            } else {
                assert(kept.take(n) =~= prefix);
                assert(kept.skip(n) =~= messages.skip(start));
            }
        } else {
            assert(messages.take(n) =~= kept.take(n));
        }
    }
}

/// A request whose beginning and last block fit together is not refused.
pub proof fn law_requests_that_can_fit_are_sent<F: Fn(&str) -> usize, G: Fn(&[Json]) -> usize>(
    counter: TokenCounter<F, G>,
    messages: Seq<JsonModel>,
    tools: Seq<JsonModel>,
    limit: nat,
)
    requires
        ({
            let n = prefix_end(messages);
            let blocks = block_list(messages, n);
            &&& request_tokens(counter, messages.take(n), tools) <= limit
            &&& n < messages.len() ==> request_tokens(
                counter,
                messages.take(n) + messages.skip(blocks.last()),
                tools,
            ) <= limit
        }),
    ensures
        fitted(counter, messages, tools, limit) is Ok,
{
    let n = prefix_end(messages);
    let blocks = block_list(messages, n);
    let prefix = messages.take(n);
    if n < messages.len() {
        let last = blocks.len() - 1;
        let k = lemma_kept_from(counter, messages, tools, limit);
        lemma_first_kept_fits(counter, messages, tools, prefix, limit, blocks, last);
    }
}

proof fn lemma_first_kept_fits<F: Fn(&str) -> usize, G: Fn(&[Json]) -> usize>(
    counter: TokenCounter<F, G>,
    messages: Seq<JsonModel>,
    tools: Seq<JsonModel>,
    prefix: Seq<JsonModel>,
    limit: nat,
    blocks: Seq<int>,
    k: int,
)
    requires
        0 <= k,
        request_tokens(counter, prefix + messages.skip(blocks[k]), tools) <= limit,
    ensures
        request_tokens(
            counter,
            prefix + messages.skip(
                blocks[first_kept(counter, messages, tools, prefix, limit, blocks, k)],
            ),
            tools,
        ) <= limit,
    decreases k,
{
    if k > 0 && request_tokens(counter, prefix + messages.skip(blocks[k - 1]), tools) <= limit {
        lemma_first_kept_fits(counter, messages, tools, prefix, limit, blocks, k - 1);
    }
}

proof fn lemma_system_end_reaches(messages: Seq<JsonModel>, i: int, k: int)
    requires
        0 <= i <= k <= messages.len(),
        forall|j: int| i <= j < k ==> has_role(#[trigger] messages[j], "system"@),
        k < messages.len() ==> !has_role(messages[k], "system"@),
    ensures
        system_end(messages, i) == k,
    decreases k - i,
{
    if i < k {
        assert(has_role(messages[i], "system"@));
        lemma_system_end_reaches(messages, i + 1, k);
    }
}

/// What the system says first, and the message behind it, are never dropped: the messages of the
/// system stay as they are, and the first other message stays at its place, as it is where the
/// beginning fits.
pub proof fn law_the_first_request_stays<F: Fn(&str) -> usize, G: Fn(&[Json]) -> usize>(
    counter: TokenCounter<F, G>,
    messages: Seq<JsonModel>,
    tools: Seq<JsonModel>,
    limit: nat,
    k: int,
    i: int,
)
    requires
        0 <= k < messages.len(),
        forall|j: int| 0 <= j < k ==> (#[trigger] messages[j]).text("role"@) == Some("system"@),
        messages[k].text("role"@) != Some("system"@),
    ensures
        fitted(counter, messages, tools, limit) matches Ok((kept, cut)) ==> {
            &&& kept.len() > k
            &&& 0 <= i < k ==> kept[i] == messages[i]
            &&& kept[k].get("role"@) == messages[k].get("role"@)
            &&& kept[k].get("tool_calls"@) == messages[k].get("tool_calls"@)
            &&& request_tokens(counter, messages.take(prefix_end(messages)), tools) <= limit
                ==> kept[k] == messages[k]
        },
{
    reveal_strlit("role");
    reveal_strlit("tool_calls");
    reveal_strlit("content");
    reveal_strlit("reasoning_content");
    assert("role"@.len() == 4 && "tool_calls"@.len() == 10 && "content"@.len() == 7
        && "reasoning_content"@.len() == 17);
    assert forall|j: int| 0 <= j < k implies has_role(#[trigger] messages[j], "system"@) by {}
    lemma_system_end_reaches(messages, 0, k);
    lemma_block_end(messages, k);
    if let Ok((kept, cut)) = fitted(counter, messages, tools, limit) {
        law_system_messages_stay(counter, messages, tools, limit);
        law_fitted_request_is_made_of_whole_blocks(counter, messages, tools, limit, "role"@, k);
        law_fitted_request_is_made_of_whole_blocks(
            counter,
            messages,
            tools,
            limit,
            "tool_calls"@,
            k,
        );
        law_no_block_is_dropped_that_fits(counter, messages, tools, limit);
        let n = prefix_end(messages);
        if 0 <= i < k {
            assert(kept.take(k)[i] == messages.take(k)[i]);
        }
        if request_tokens(counter, messages.take(n), tools) <= limit {
            assert(kept.take(n)[k] == messages.take(n)[k]);
        }
    }
}

} // verus!
