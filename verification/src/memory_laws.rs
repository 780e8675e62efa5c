//! What repairing and shortening a memory guarantees.

use vstd::prelude::*;

use crate::agent::ToolCallModel;
use crate::chat::{chat, chat_of, context_error, speaks, utterance, utterances, ChatModel};
use crate::memory::{
    answer_slot, answers, answers_change, first_unused, fit_all, fits, has_call, is_assistant,
    is_tool, is_user, last_turn, leading_users, lemma_pick, lemma_roles_differ, lemma_tools_end,
    matches_id, next_assistant, next_user, none_used, normalized_from, normalizing_changes, pick,
    reduced_turn, tools_end, use_result, valid_calls, within_budget, Slot,
};
use crate::models::EntryModel;
use crate::pairs::{heard, heard_all, with_calls, FaultModel, Pending};
use crate::text::is_blank;

verus! {

/// No call waits for its result.
pub open spec fn settled() -> Pending {
    Ok(Set::empty())
}

/// A memory can be sent to a model: its messages keep the rule of a conversation.
pub open spec fn replayable(entries: Seq<EntryModel>) -> bool {
    context_error(chat(entries)) is None
}

proof fn lemma_chat_add(a: Seq<EntryModel>, b: Seq<EntryModel>)
    ensures
        chat(a + b) == chat(a) + chat(b),
    decreases b.len(),
{
    if b.len() == 0 {
        assert(a + b =~= a);
        assert(chat(a) + chat(b) =~= chat(a));
    } else {
        assert((a + b).drop_last() =~= a + b.drop_last());
        assert((a + b).last() == b.last());
        lemma_chat_add(a, b.drop_last());
        assert(chat(a + b) =~= chat(a) + chat(b));
    }
}

proof fn lemma_chat_one(entry: EntryModel)
    requires
        speaks(entry),
    ensures
        chat(seq![entry]) == seq![chat_of(entry)],
{
    assert(seq![entry].drop_last() =~= Seq::<EntryModel>::empty());
    assert(chat(seq![entry].drop_last()) =~= Seq::<ChatModel>::empty());
    assert(chat(seq![entry]) =~= seq![chat_of(entry)]);
}

/// What the messages do to the calls that wait for their result.
spec fn told(pending: Pending, messages: Seq<ChatModel>) -> Pending {
    heard_all(pending, utterances(messages), true)
}

proof fn lemma_told_add(pending: Pending, a: Seq<ChatModel>, b: Seq<ChatModel>)
    ensures
        told(pending, a + b) == told(told(pending, a), b),
    decreases b.len(),
{
    if b.len() == 0 {
        assert(a + b =~= a);
    } else {
        assert(utterances(a + b).drop_last() =~= utterances(a + b.drop_last()));
        assert(utterances(a + b).last() == utterance(b.last()));
        assert(utterances(b).drop_last() =~= utterances(b.drop_last()));
        assert(utterances(b).last() == utterance(b.last()));
        lemma_told_add(pending, a, b.drop_last());
    }
}

proof fn lemma_told_one(pending: Set<Seq<char>>, message: ChatModel)
    ensures
        told(Ok(pending), seq![message]) == heard(pending, utterance(message), true),
{
    let said = utterances(seq![message]);
    assert(said.drop_last().len() == 0);
    assert(heard_all(Ok(pending), said.drop_last(), true) == Ok::<Set<Seq<char>>, FaultModel>(
        pending,
    ));
}

/// After a fault there is only that fault.
proof fn lemma_told_fault(pending: Pending, messages: Seq<ChatModel>)
    requires
        pending is Err,
    ensures
        told(pending, messages) == pending,
    decreases messages.len(),
{
    if messages.len() > 0 {
        assert(utterances(messages).drop_last() =~= utterances(messages.drop_last()));
        lemma_told_fault(pending, messages.drop_last());
    }
}

/// The conversation `a + b` keeps the rule where `a` and `b` do.
proof fn lemma_replayable_add(a: Seq<EntryModel>, b: Seq<EntryModel>)
    requires
        replayable(a),
        replayable(b),
    ensures
        replayable(a + b),
{
    lemma_chat_add(a, b);
    lemma_told_add(settled(), chat(a), chat(b));
}

/// Where something other than a tool result begins, a conversation can be cut.
proof fn lemma_replayable_cut(a: Seq<EntryModel>, b: Seq<EntryModel>)
    requires
        replayable(a + b),
        b.len() > 0,
        is_user(b[0]) || is_assistant(b[0]),
    ensures
        replayable(a),
        replayable(b),
{
    lemma_chat_add(a, b);
    lemma_told_add(settled(), chat(a), chat(b));
    let before = told(settled(), chat(a));
    lemma_roles_differ(b[0]);
    let rest = b.skip(1);
    assert(b =~= seq![b[0]] + rest);
    lemma_chat_add(seq![b[0]], rest);
    lemma_chat_one(b[0]);
    lemma_told_add(before, seq![chat_of(b[0])], chat(rest));
    match before {
        Ok(set) => {
            lemma_told_one(set, chat_of(b[0]));
            if set != Set::<Seq<char>>::empty() {
                lemma_told_fault(heard(set, utterance(chat_of(b[0])), true), chat(rest));
            }
        },
        Err(error) => {
            lemma_told_fault(before, chat(b));
        },
    }
}

proof fn lemma_replayable_users(entries: Seq<EntryModel>)
    requires
        forall|i: int| 0 <= i < entries.len() ==> is_user(#[trigger] entries[i]),
    ensures
        replayable(entries),
    decreases entries.len(),
{
    if entries.len() > 0 {
        let head = entries.drop_last();
        assert forall|i: int| 0 <= i < head.len() implies is_user(#[trigger] head[i]) by {
            assert(head[i] == entries[i]);
        }
        lemma_replayable_users(head);
        let last = entries.last();
        assert(is_user(entries[entries.len() - 1]));
        lemma_roles_differ(last);
        lemma_chat_one(last);
        lemma_told_one(Set::empty(), chat_of(last));
        assert(replayable(seq![last]));
        lemma_replayable_add(head, seq![last]);
        assert(head + seq![last] =~= entries);
    }
}

// ---- shortening ----

proof fn lemma_next_user(entries: Seq<EntryModel>, i: int)
    requires
        0 <= i <= entries.len(),
    ensures
        i <= next_user(entries, i) <= entries.len(),
        next_user(entries, i) < entries.len() ==> is_user(entries[next_user(entries, i)]),
    decreases entries.len() - i,
{
    if i < entries.len() && !is_user(entries[i]) {
        lemma_next_user(entries, i + 1);
    }
}

proof fn lemma_next_assistant(entries: Seq<EntryModel>, i: int)
    requires
        0 <= i <= entries.len(),
    ensures
        i <= next_assistant(entries, i) <= entries.len(),
        next_assistant(entries, i) < entries.len() ==> is_assistant(
            entries[next_assistant(entries, i)],
        ),
    decreases entries.len() - i,
{
    if i < entries.len() && !is_assistant(entries[i]) {
        lemma_next_assistant(entries, i + 1);
    }
}

proof fn lemma_last_turn(entries: Seq<EntryModel>, n: int)
    requires
        0 <= n <= entries.len(),
    ensures
        0 <= last_turn(entries, n) <= n,
        last_turn(entries, n) > 0 ==> last_turn(entries, n) < n && is_user(
            entries[last_turn(entries, n)],
        ),
        n > 0 ==> last_turn(entries, n) < n,
    decreases n,
{
    if n > 0 && !is_user(entries[n - 1]) {
        lemma_last_turn(entries, n - 1);
    }
}

proof fn lemma_leading_users(entries: Seq<EntryModel>, i: int)
    requires
        0 <= i <= entries.len(),
        forall|k: int| 0 <= k < i ==> is_user(#[trigger] entries[k]),
    ensures
        i <= leading_users(entries, i) <= entries.len(),
        forall|k: int| 0 <= k < leading_users(entries, i) ==> is_user(#[trigger] entries[k]),
    decreases entries.len() - i,
{
    if i < entries.len() && is_user(entries[i]) {
        lemma_leading_users(entries, i + 1);
    }
}

proof fn lemma_reduced_turn(turn: Seq<EntryModel>, limit: int)
    requires
        limit > 0,
    ensures
        reduced_turn(turn, limit).len() <= limit,
        replayable(turn) ==> replayable(reduced_turn(turn, limit)),
{
    lemma_leading_users(turn, 0);
    let users = leading_users(turn, 0);
    if turn.len() > limit {
        if users == 0 {
            lemma_replayable_users(Seq::empty());
        } else if users >= limit {
            let one = seq![turn[users - 1]];
            assert(is_user(turn[users - 1]));
            lemma_replayable_users(one);
        } else {
            let from = turn.len() - (limit - users);
            lemma_next_assistant(turn, from);
            let start = next_assistant(turn, from);
            lemma_replayable_users(turn.take(users));
            if replayable(turn) {
                if start < turn.len() {
                    assert(turn =~= turn.take(start) + turn.skip(start));
                    lemma_replayable_cut(turn.take(start), turn.skip(start));
                } else {
                    lemma_replayable_users(turn.skip(start));
                }
                lemma_replayable_add(turn.take(users), turn.skip(start));
            }
        }
    }
}

proof fn lemma_next_user_found(entries: Seq<EntryModel>, i: int)
    requires
        0 <= i < entries.len(),
        is_user(entries.last()),
    ensures
        next_user(entries, i) < entries.len(),
    decreases entries.len() - i,
{
    if !is_user(entries[i]) {
        assert(i + 1 < entries.len());
        lemma_next_user_found(entries, i + 1);
    }
}

/// What the user said last stays in a memory that is shortened.
pub proof fn law_shortening_keeps_what_the_user_said_last(entries: Seq<EntryModel>, limit: int)
    requires
        entries.len() > 0,
        limit > 0,
        is_user(entries.last()),
    ensures
        within_budget(entries, limit).len() > 0,
        within_budget(entries, limit).last() == entries.last(),
{
    if entries.len() > limit {
        let from = entries.len() - limit;
        lemma_next_user_found(entries, from);
        lemma_next_user(entries, from);
    }
}

/// A shortened memory holds no more entries than it may.
pub proof fn law_memory_fits_its_budget(entries: Seq<EntryModel>, limit: int)
    requires
        limit >= 0,
    ensures
        within_budget(entries, limit).len() <= limit,
{
    if limit > 0 && entries.len() > limit {
        lemma_next_user(entries, entries.len() - limit);
        lemma_last_turn(entries, entries.len() as int);
        lemma_reduced_turn(entries.skip(last_turn(entries, entries.len() as int)), limit);
    }
}

/// Shortening a memory that can be sent to a model leaves a memory that can be sent to a model:
/// no tool call is parted from its result.
pub proof fn law_shortening_keeps_a_memory_replayable(entries: Seq<EntryModel>, limit: int)
    requires
        replayable(entries),
    ensures
        replayable(within_budget(entries, limit)),
{
    if limit <= 0 {
        lemma_replayable_users(Seq::empty());
    } else if entries.len() > limit {
        let start = next_user(entries, entries.len() - limit);
        lemma_next_user(entries, entries.len() - limit);
        if start < entries.len() {
            assert(entries =~= entries.take(start) + entries.skip(start));
            lemma_replayable_cut(entries.take(start), entries.skip(start));
        } else {
            let turn = last_turn(entries, entries.len() as int);
            lemma_last_turn(entries, entries.len() as int);
            assert(entries =~= entries.take(turn) + entries.skip(turn));
            if turn > 0 {
                lemma_replayable_cut(entries.take(turn), entries.skip(turn));
            } else {
                assert(entries.skip(0) =~= entries);
            }
            lemma_reduced_turn(entries.skip(turn), limit);
        }
    }
}

/// The entry that the run of tool results at `i` directly follows; `i` itself where no tool result
/// stands there.
pub open spec fn run_owner(entries: Seq<EntryModel>, i: int) -> int
    decreases i,
{
    if 0 < i < entries.len() && is_tool(entries[i]) {
        run_owner(entries, i - 1)
    } else {
        i
    }
}

/// The entries at the places, which ascend, are those of `kept`.
pub open spec fn selects(
    entries: Seq<EntryModel>,
    places: Seq<int>,
    kept: Seq<EntryModel>,
) -> bool {
    &&& places.len() == kept.len()
    &&& forall|j: int|
        0 <= j < places.len() ==> 0 <= #[trigger] places[j] < entries.len() && kept[j]
            == entries[places[j]]
    &&& forall|j: int, k: int|
        0 <= j < k < places.len() ==> #[trigger] places[j] < #[trigger] places[k]
}

/// A tool result stands among the places if and only if the assistant's entry does that its run
/// directly follows.
pub open spec fn blocks_whole(entries: Seq<EntryModel>, places: Seq<int>) -> bool {
    forall|i: int|
        0 <= i < entries.len() && is_tool(#[trigger] entries[i]) && is_assistant(
            entries[run_owner(entries, i)],
        ) ==> places.contains(i) == places.contains(run_owner(entries, i))
}

proof fn lemma_run_owner(entries: Seq<EntryModel>, i: int)
    requires
        0 <= i < entries.len(),
    ensures
        0 <= run_owner(entries, i) <= i,
        forall|k: int| run_owner(entries, i) < k <= i ==> is_tool(#[trigger] entries[k]),
    decreases i,
{
    if i > 0 && is_tool(entries[i]) {
        lemma_run_owner(entries, i - 1);
    }
}

/// The places of the first `users` entries behind `base`, and of all from `start` on.
spec fn places_around(base: int, users: int, start: int, len: int) -> Seq<int> {
    Seq::new(
        (users + len - start) as nat,
        |j: int|
            if j < users {
                base + j
            } else {
                start + j - users
            },
    )
}

/// No block is split where what stands around the gap begins no run of tool results.
proof fn lemma_blocks_around(entries: Seq<EntryModel>, base: int, users: int, start: int)
    requires
        0 <= base <= base + users <= start <= entries.len(),
        forall|k: int| base <= k < base + users ==> is_user(#[trigger] entries[k]),
        start < entries.len() && start > 0 ==> is_user(entries[start]) || is_assistant(
            entries[start],
        ),
    ensures
        selects(
            entries,
            places_around(base, users, start, entries.len() as int),
            entries.subrange(base, base + users) + entries.skip(start),
        ),
        blocks_whole(entries, places_around(base, users, start, entries.len() as int)),
{
    let n = entries.len() as int;
    let places = places_around(base, users, start, n);
    assert forall|i: int|
        0 <= i < entries.len() && is_tool(#[trigger] entries[i]) && is_assistant(
            entries[run_owner(entries, i)],
        ) implies places.contains(i) == places.contains(run_owner(entries, i)) by {
        let a = run_owner(entries, i);
        lemma_run_owner(entries, i);
        lemma_roles_differ(entries[i]);
        lemma_roles_differ(entries[a]);
        assert forall|k: int| #[trigger] places.contains(k) implies base <= k < base + users
            || start <= k < n by {
            let j = choose|j: int| 0 <= j < places.len() && places[j] == k;
            assert(places[j] == k);
        }
        if i >= start {
            if a < start {
                assert(is_tool(entries[start]));
                lemma_roles_differ(entries[start]);
            }
            assert(places[users + i - start] == i);
            assert(places[users + a - start] == a);
        }
    }
}

/// A shortened memory holds entries of the memory, in their order; a memory that fits stays as it
/// is. No block is split: a tool result is kept if and only if the assistant's entry is kept that
/// its run of tool results directly follows.
pub proof fn law_shortening_keeps_blocks_whole(entries: Seq<EntryModel>, limit: int)
    requires
        limit >= 0,
    ensures
        within_budget(entries, limit).len() <= limit,
        entries.len() <= limit ==> within_budget(entries, limit) == entries,
        exists|places: Seq<int>|
            #[trigger] selects(entries, places, within_budget(entries, limit)) && blocks_whole(
                entries,
                places,
            ),
{
    law_memory_fits_its_budget(entries, limit);
    let n = entries.len() as int;
    let kept = within_budget(entries, limit);
    let nothing = places_around(0, 0, n, n);
    if limit == 0 {
        lemma_blocks_around(entries, 0, 0, n);
        assert(entries.subrange(0, 0) + entries.skip(n) =~= kept);
        assert(selects(entries, nothing, kept));
        if n == 0 {
            assert(kept =~= entries);
        }
    } else if n <= limit {
        lemma_blocks_around(entries, 0, 0, 0);
        assert(entries.subrange(0, 0) + entries.skip(0) =~= kept);
        assert(selects(entries, places_around(0, 0, 0, n), kept));
    } else {
        let start = next_user(entries, n - limit);
        lemma_next_user(entries, n - limit);
        if start < n {
            lemma_blocks_around(entries, 0, 0, start);
            assert(entries.subrange(0, 0) + entries.skip(start) =~= kept);
            assert(selects(entries, places_around(0, 0, start, n), kept));
        } else {
            let base = last_turn(entries, n);
            lemma_last_turn(entries, n);
            let turn = entries.skip(base);
            lemma_leading_users(turn, 0);
            let users = leading_users(turn, 0);
            assert forall|k: int| base <= k < base + users implies is_user(
                #[trigger] entries[k],
            ) by {
                assert(turn[k - base] == entries[k]);
            }
            if turn.len() <= limit {
                lemma_blocks_around(entries, 0, 0, base);
                assert(entries.subrange(0, 0) + entries.skip(base) =~= kept);
                assert(selects(entries, places_around(0, 0, base, n), kept));
            } else if users == 0 {
                lemma_blocks_around(entries, 0, 0, n);
                assert(entries.subrange(0, 0) + entries.skip(n) =~= kept);
                assert(selects(entries, nothing, kept));
            } else if users >= limit {
                let last = base + users - 1;
                lemma_blocks_around(entries, last, 1, n);
                assert(entries.subrange(last, last + 1) + entries.skip(n) =~= kept);
                assert(selects(entries, places_around(last, 1, n, n), kept));
            } else {
                let from = turn.len() - (limit - users);
                lemma_next_assistant(turn, from);
                let begin = base + next_assistant(turn, from);
                if begin < n {
                    assert(turn[begin - base] == entries[begin]);
                }
                lemma_blocks_around(entries, base, users, begin);
                assert(entries.subrange(base, base + users) + entries.skip(begin) =~= kept);
                assert(selects(entries, places_around(base, users, begin, n), kept));
            }
        }
    }
}

proof fn lemma_next_user_before(entries: Seq<EntryModel>, i: int, u: int)
    requires
        0 <= i <= u < entries.len(),
        is_user(entries[u]),
    ensures
        next_user(entries, i) <= u,
    decreases u - i,
{
    if !is_user(entries[i]) {
        lemma_next_user_before(entries, i + 1, u);
    }
}

proof fn lemma_next_assistant_before(entries: Seq<EntryModel>, i: int, a: int)
    requires
        0 <= i <= a < entries.len(),
        is_assistant(entries[a]),
    ensures
        next_assistant(entries, i) <= a,
    decreases a - i,
{
    if !is_assistant(entries[i]) {
        lemma_next_assistant_before(entries, i + 1, a);
    }
}

proof fn lemma_last_turn_is(entries: Seq<EntryModel>, n: int, u: int)
    requires
        0 <= u < n <= entries.len(),
        is_user(entries[u]),
        forall|k: int| u < k < n ==> !is_user(#[trigger] entries[k]),
    ensures
        last_turn(entries, n) == u,
    decreases n,
{
    if n - 1 > u {
        assert(!is_user(entries[n - 1]));
        lemma_last_turn_is(entries, n - 1, u);
    }
}

/// No turn is dropped that would fit: all from an entry of the user on stays, where these are no
/// more entries than are allowed.
pub proof fn law_shortening_drops_no_turn_that_fits(entries: Seq<EntryModel>, limit: int, u: int)
    requires
        0 <= u < entries.len(),
        is_user(entries[u]),
        entries.len() - u <= limit,
    ensures
        ({
            let kept = within_budget(entries, limit);
            &&& kept.len() >= entries.len() - u
            &&& kept.skip(kept.len() - (entries.len() - u)) == entries.skip(u)
        }),
{
    let kept = within_budget(entries, limit);
    if entries.len() > limit {
        lemma_next_user_before(entries, entries.len() - limit, u);
        lemma_next_user(entries, entries.len() - limit);
    }
    assert(kept.skip(kept.len() - (entries.len() - u)) =~= entries.skip(u));
}

/// Where not even the last turn fits, what the user said in it stays, and of what follows every
/// block from an entry of the assistant on that fits behind it.
pub proof fn law_shortening_keeps_the_end_of_a_long_turn(
    entries: Seq<EntryModel>,
    limit: int,
    u: int,
    a: int,
)
    requires
        0 <= u < entries.len(),
        is_user(entries[u]),
        forall|k: int| u < k < entries.len() ==> !is_user(#[trigger] entries[k]),
        0 < limit < entries.len() - u,
        u < a < entries.len() && is_assistant(entries[a]) && entries.len() - a <= limit - 1,
    ensures
        ({
            let kept = within_budget(entries, limit);
            &&& kept.len() >= 1 + entries.len() - a
            &&& kept[0] == entries[u]
            &&& kept.skip(kept.len() - (entries.len() - a)) == entries.skip(a)
        }),
{
    let n = entries.len() as int;
    let from = n - limit;
    lemma_next_user(entries, from);
    let start = next_user(entries, from);
    if start < n {
        assert(is_user(entries[start]));
        assert(start > u);
    }
    lemma_last_turn_is(entries, n, u);
    let turn = entries.skip(u);
    assert(turn[0] == entries[u]);
    assert(turn[1] == entries[u + 1]);
    assert(!is_user(entries[u + 1]));
    assert(leading_users(turn, 0) == 1) by {
        assert(leading_users(turn, 1) == 1);
    }
    let cut = turn.len() - (limit - 1);
    assert(turn[a - u] == entries[a]);
    lemma_next_assistant_before(turn, cut, a - u);
    lemma_next_assistant(turn, cut);
    let kept = within_budget(entries, limit);
    assert(kept == turn.take(1) + turn.skip(next_assistant(turn, cut)));
    assert(kept.skip(kept.len() - (n - a)) =~= entries.skip(a));
}

// ---- repairing ----

/// The identifiers of the calls from `from` up to, but not including, `to`.
spec fn call_ids(calls: Seq<ToolCallModel>, from: int, to: int) -> Set<Seq<char>> {
    Set::new(|id: Seq<char>| exists|k: int| from <= k < to && (#[trigger] calls[k]).id == id)
}

/// Each call has an identifier and a name, and no two have the same identifier.
pub open spec fn answerable(calls: Seq<ToolCallModel>) -> bool {
    &&& forall|k: int|
        0 <= k < calls.len() ==> !is_blank((#[trigger] calls[k]).id) && !is_blank(calls[k].name)
    &&& forall|j: int, k: int|
        0 <= j < k < calls.len() ==> (#[trigger] calls[j]).id != (#[trigger] calls[k]).id
}

proof fn lemma_valid_calls(calls: Seq<ToolCallModel>)
    ensures
        answerable(valid_calls(calls)),
    decreases calls.len(),
{
    if calls.len() > 0 {
        lemma_valid_calls(calls.drop_last());
        let kept = valid_calls(calls.drop_last());
        let call = calls.last();
        if !is_blank(call.id) && !is_blank(call.name) && !has_call(kept, call.id) {
            let all = kept.push(call);
            assert forall|j: int, k: int| 0 <= j < k < all.len() implies (#[trigger] all[j]).id != (
            #[trigger] all[k]).id by {
                if k == kept.len() {
                    assert(kept[j].id != call.id);
                } else {
                    assert(kept[j].id != kept[k].id);
                }
            }
            assert forall|k: int| 0 <= k < all.len() implies !is_blank((#[trigger] all[k]).id)
                && !is_blank(all[k].name) by {
                if k < kept.len() {
                    assert(all[k] == kept[k]);
                }
            }
        }
    }
}

/// Calls that are answerable stay as they are.
proof fn lemma_valid_calls_again(calls: Seq<ToolCallModel>)
    requires
        answerable(calls),
    ensures
        valid_calls(calls) == calls,
    decreases calls.len(),
{
    if calls.len() > 0 {
        let head = calls.drop_last();
        assert forall|k: int| 0 <= k < head.len() implies !is_blank((#[trigger] head[k]).id)
            && !is_blank(head[k].name) by {
            assert(head[k] == calls[k]);
        }
        assert forall|j: int, k: int| 0 <= j < k < head.len() implies (#[trigger] head[j]).id != (
        #[trigger] head[k]).id by {
            assert(head[j] == calls[j] && head[k] == calls[k]);
        }
        lemma_valid_calls_again(head);
        assert(!has_call(head, calls.last().id)) by {
            assert forall|k: int| 0 <= k < head.len() implies (#[trigger] head[k]).id
                != calls.last().id by {
                assert(calls[k].id != calls[calls.len() - 1].id);
            }
        }
        assert(!is_blank(calls[calls.len() - 1].id));
        assert(head.push(calls.last()) =~= calls);
    } else {
        assert(valid_calls(calls) =~= calls);
    }
}

proof fn lemma_with_calls(calls: Seq<ToolCallModel>, j: int)
    requires
        answerable(calls),
        0 <= j <= calls.len(),
    ensures
        with_calls(call_ids(calls, 0, j), calls, j) == Ok::<Set<Seq<char>>, FaultModel>(
            call_ids(calls, 0, calls.len() as int),
        ),
    decreases calls.len() - j,
{
    if j < calls.len() {
        lemma_with_calls(calls, j + 1);
        let id = calls[j].id;
        assert(!call_ids(calls, 0, j).contains(id));
        assert(call_ids(calls, 0, j).insert(id) =~= call_ids(calls, 0, j + 1)) by {
            assert forall|x: Seq<char>| #[trigger] call_ids(calls, 0, j + 1).contains(x) == call_ids(
                calls,
                0,
                j,
            ).insert(id).contains(x) by {
                if call_ids(calls, 0, j + 1).contains(x) {
                    let k = choose|k: int| 0 <= k < j + 1 && (#[trigger] calls[k]).id == x;
                    if k < j {
                        assert(call_ids(calls, 0, j).contains(x));
                    }
                }
                if call_ids(calls, 0, j).contains(x) {
                    let k = choose|k: int| 0 <= k < j && (#[trigger] calls[k]).id == x;
                    assert(0 <= k < j + 1 && calls[k].id == x);
                }
                if x == id {
                    assert(0 <= j < j + 1 && calls[j].id == x);
                }
            }
        }
    }
}

/// An entry that answers a call is a tool result with the identifier of the call.
proof fn lemma_answer_fits(
    entry: EntryModel,
    results: Seq<EntryModel>,
    used: Seq<bool>,
    call: ToolCallModel,
    complete: bool,
)
    requires
        forall|k: int| 0 <= k < results.len() ==> is_tool(#[trigger] results[k]),
        fits(entry, answer_slot(results, pick(results, used, call, complete), call)),
    ensures
        is_tool(entry),
        matches_id(entry, call),
{
    lemma_pick(results, used, call, complete);
    match pick(results, used, call, complete) {
        Some(k) => {
            assert(is_tool(results[k]));
        },
        None => {},
    }
}

proof fn lemma_answers_settle(
    entries: Seq<EntryModel>,
    calls: Seq<ToolCallModel>,
    results: Seq<EntryModel>,
    used: Seq<bool>,
    j: int,
)
    requires
        answerable(calls),
        0 <= j <= calls.len(),
        forall|k: int| 0 <= k < results.len() ==> is_tool(#[trigger] results[k]),
        fit_all(entries, answers(calls, results, used, j)),
    ensures
        told(Ok(call_ids(calls, j, calls.len() as int)), chat(entries)) == settled(),
    decreases calls.len() - j,
{
    let n = calls.len() as int;
    if j >= calls.len() {
        assert(entries =~= Seq::<EntryModel>::empty());
        assert(call_ids(calls, j, n) =~= Set::<Seq<char>>::empty());
    } else {
        let picked = pick(results, used, calls[j], results.len() == calls.len());
        let rest_slots = answers(calls, results, use_result(used, picked), j + 1);
        let slots = answers(calls, results, used, j);
        assert(slots == seq![answer_slot(results, picked, calls[j])] + rest_slots);
        let entry = entries[0];
        let rest = entries.skip(1);
        assert(fits(entries[0], slots[0]));
        lemma_answer_fits(entry, results, used, calls[j], results.len() == calls.len());
        assert(fit_all(rest, rest_slots)) by {
            assert forall|k: int| 0 <= k < rest.len() implies fits(
                #[trigger] rest[k],
                rest_slots[k],
            ) by {
                assert(fits(entries[k + 1], slots[k + 1]));
            }
        }
        lemma_answers_settle(rest, calls, results, use_result(used, picked), j + 1);
        assert(entries =~= seq![entry] + rest);
        lemma_chat_add(seq![entry], rest);
        lemma_chat_one(entry);
        let open = call_ids(calls, j, n);
        lemma_told_add(Ok(open), seq![chat_of(entry)], chat(rest));
        lemma_told_one(open, chat_of(entry));
        lemma_roles_differ(entry);
        let id = calls[j].id;
        assert(open.contains(id)) by {
            assert(j <= j < n && calls[j].id == id);
        }
        assert(open.remove(id) =~= call_ids(calls, j + 1, n)) by {
            assert forall|x: Seq<char>| #[trigger] call_ids(calls, j + 1, n).contains(x)
                == open.remove(id).contains(x) by {
                if call_ids(calls, j + 1, n).contains(x) {
                    let k = choose|k: int| j + 1 <= k < n && (#[trigger] calls[k]).id == x;
                    assert(calls[j].id != calls[k].id);
                    assert(j <= k < n && calls[k].id == x);
                }
                if open.contains(x) && x != id {
                    let k = choose|k: int| j <= k < n && (#[trigger] calls[k]).id == x;
                    assert(j + 1 <= k < n && calls[k].id == x);
                }
            }
        }
        assert(chat_of(entry).role == "tool"@);
        assert(chat_of(entry).role != "assistant"@);
    }
}

/// What stands at the places of an assistant's entry and of the answers to its calls can be sent
/// to a model.
proof fn lemma_block_replayable(
    entries: Seq<EntryModel>,
    assistant: EntryModel,
    results: Seq<EntryModel>,
)
    requires
        is_assistant(assistant),
        assistant.tool_calls.len() > 0,
        answerable(assistant.tool_calls),
        forall|k: int| 0 <= k < results.len() ==> is_tool(#[trigger] results[k]),
        fit_all(
            entries,
            seq![Slot::Kept(assistant)] + answers(
                assistant.tool_calls,
                results,
                none_used(results.len()),
                0,
            ),
        ),
    ensures
        replayable(entries),
{
    let calls = assistant.tool_calls;
    let slots = answers(calls, results, none_used(results.len()), 0);
    let all = seq![Slot::Kept(assistant)] + slots;
    assert(fits(entries[0], all[0]));
    let rest = entries.skip(1);
    assert(fit_all(rest, slots)) by {
        assert forall|k: int| 0 <= k < rest.len() implies fits(#[trigger] rest[k], slots[k]) by {
            assert(fits(entries[k + 1], all[k + 1]));
        }
    }
    assert(entries =~= seq![assistant] + rest);
    lemma_chat_add(seq![assistant], rest);
    lemma_chat_one(assistant);
    lemma_told_add(settled(), seq![chat_of(assistant)], chat(rest));
    lemma_told_one(Set::empty(), chat_of(assistant));
    lemma_roles_differ(assistant);
    assert(call_ids(calls, 0, 0) =~= Set::<Seq<char>>::empty());
    lemma_with_calls(calls, 0);
    lemma_answers_settle(rest, calls, results, none_used(results.len()), 0);
}

/// The entries that stand at the first places, and those at the places behind them.
proof fn lemma_fit_split(entries: Seq<EntryModel>, a: Seq<Slot>, b: Seq<Slot>)
    requires
        fit_all(entries, a + b),
    ensures
        fit_all(entries.take(a.len() as int), a),
        fit_all(entries.skip(a.len() as int), b),
        entries == entries.take(a.len() as int) + entries.skip(a.len() as int),
{
    let n = a.len() as int;
    assert(entries =~= entries.take(n) + entries.skip(n));
    assert forall|i: int| 0 <= i < n implies fits(#[trigger] entries.take(n)[i], a[i]) by {
        assert(fits(entries[i], (a + b)[i]));
    }
    assert forall|i: int| 0 <= i < b.len() implies fits(#[trigger] entries.skip(n)[i], b[i]) by {
        assert(fits(entries[i + n], (a + b)[i + n]));
    }
}

proof fn lemma_normalized_replayable(old_entries: Seq<EntryModel>, i: int, entries: Seq<EntryModel>)
    requires
        0 <= i <= old_entries.len(),
        fit_all(entries, normalized_from(old_entries, i)),
    ensures
        replayable(entries),
    decreases old_entries.len() - i,
{
    if i >= old_entries.len() {
        lemma_replayable_users(entries);
    } else {
        let entry = old_entries[i];
        lemma_roles_differ(entry);
        if is_user(entry) {
            let a = seq![Slot::Kept(entry)];
            let b = normalized_from(old_entries, i + 1);
            lemma_fit_split(entries, a, b);
            assert(fits(entries.take(1)[0], a[0]));
            lemma_replayable_users(entries.take(1));
            lemma_normalized_replayable(old_entries, i + 1, entries.skip(1));
            lemma_replayable_add(entries.take(1), entries.skip(1));
        } else if is_assistant(entry) {
            let calls = valid_calls(entry.tool_calls);
            let assistant = EntryModel { tool_calls: calls, ..entry };
            let kept = seq![Slot::Kept(assistant)];
            lemma_valid_calls(entry.tool_calls);
            lemma_roles_differ(assistant);
            if calls.len() == 0 {
                let b = normalized_from(old_entries, i + 1);
                lemma_fit_split(entries, kept, b);
                assert(fits(entries.take(1)[0], kept[0]));
                assert(entries.take(1) =~= seq![assistant]);
                lemma_chat_one(assistant);
                lemma_told_one(Set::empty(), chat_of(assistant));
                lemma_normalized_replayable(old_entries, i + 1, entries.skip(1));
                lemma_replayable_add(entries.take(1), entries.skip(1));
            } else {
                lemma_tools_end(old_entries, i + 1);
                let end = tools_end(old_entries, i + 1);
                let results = old_entries.subrange(i + 1, end);
                let a = kept + answers(calls, results, none_used(results.len()), 0);
                let b = normalized_from(old_entries, end);
                lemma_fit_split(entries, a, b);
                let n = a.len() as int;
                assert forall|k: int| 0 <= k < results.len() implies is_tool(
                    #[trigger] results[k],
                ) by {
                    assert(results[k] == old_entries[i + 1 + k]);
                }
                lemma_block_replayable(entries.take(n), assistant, results);
                lemma_normalized_replayable(old_entries, end, entries.skip(n));
                lemma_replayable_add(entries.take(n), entries.skip(n));
            }
        } else {
            lemma_normalized_replayable(old_entries, i + 1, entries);
        }
    }
}

/// A repaired memory can be sent to a model, whatever was wrong with it.
pub proof fn law_repaired_memory_is_replayable(
    entries: Seq<EntryModel>,
    repaired: Seq<EntryModel>,
)
    requires
        fit_all(repaired, normalized_from(entries, 0)),
    ensures
        replayable(repaired),
{
    lemma_normalized_replayable(entries, 0, repaired);
}

/// A memory that was repaired and shortened can be sent to a model.
pub proof fn law_context_is_replayable(
    entries: Seq<EntryModel>,
    repaired: Seq<EntryModel>,
    limit: int,
)
    requires
        fit_all(repaired, normalized_from(entries, 0)),
    ensures
        replayable(within_budget(repaired, limit)),
{
    law_repaired_memory_is_replayable(entries, repaired);
    law_shortening_keeps_a_memory_replayable(repaired, limit);
}

// ---- repairing twice ----

/// All entries stay where they are.
pub open spec fn kept_all(entries: Seq<EntryModel>) -> Seq<Slot> {
    Seq::new(entries.len(), |i: int| Slot::Kept(entries[i]))
}

/// The first `j` of `n` results are used.
spec fn first_used(n: nat, j: int) -> Seq<bool> {
    Seq::new(n, |k: int| k < j)
}

proof fn lemma_first_unused_is(
    results: Seq<EntryModel>,
    used: Seq<bool>,
    wanted: spec_fn(EntryModel) -> bool,
    i: int,
    j: int,
)
    requires
        0 <= i <= j < results.len(),
        forall|k: int| i <= k < j ==> #[trigger] used[k],
        !used[j],
        wanted(results[j]),
    ensures
        first_unused(results, used, wanted, i) == j,
    decreases j - i,
{
    if i < j {
        assert(used[i]);
        lemma_first_unused_is(results, used, wanted, i + 1, j);
    }
}

/// Results that stand in the order of their calls stay as they are.
proof fn lemma_answers_again(results: Seq<EntryModel>, calls: Seq<ToolCallModel>, j: int)
    requires
        results.len() == calls.len(),
        0 <= j <= calls.len(),
        forall|k: int| 0 <= k < calls.len() ==> matches_id(#[trigger] results[k], calls[k]),
    ensures
        answers(calls, results, first_used(results.len(), j), j) == kept_all(results.skip(j)),
        !answers_change(calls, results, first_used(results.len(), j), j),
    decreases calls.len() - j,
{
    let used = first_used(results.len(), j);
    if j < calls.len() {
        let call = calls[j];
        assert(matches_id(results[j], call));
        lemma_first_unused_is(results, used, |e: EntryModel| matches_id(e, call), 0, j);
        assert(pick(results, used, call, true) == Some(j));
        assert(used.update(j, true) =~= first_used(results.len(), j + 1));
        lemma_answers_again(results, calls, j + 1);
        assert((EntryModel { tool_call_id: Some(call.id), ..results[j] }) == results[j]);
        assert(seq![Slot::Kept(results[j])] + kept_all(results.skip(j + 1)) =~= kept_all(
            results.skip(j),
        ));
    } else {
        assert(kept_all(results.skip(j)) =~= Seq::<Slot>::empty());
        assert(forall|k: int| 0 <= k < used.len() ==> #[trigger] used[k]);
    }
}

/// A repaired memory does not begin with a tool result.
proof fn lemma_normalized_head(old_entries: Seq<EntryModel>, i: int, entries: Seq<EntryModel>)
    requires
        0 <= i <= old_entries.len(),
        fit_all(entries, normalized_from(old_entries, i)),
        entries.len() > 0,
    ensures
        !is_tool(entries[0]),
    decreases old_entries.len() - i,
{
    let entry = old_entries[i];
    lemma_roles_differ(entry);
    assert(fits(entries[0], normalized_from(old_entries, i)[0]));
    if is_user(entry) {
        assert(normalized_from(old_entries, i)[0] == Slot::Kept(entry));
    } else if is_assistant(entry) {
        let kept = EntryModel { tool_calls: valid_calls(entry.tool_calls), ..entry };
        lemma_tools_end(old_entries, i + 1);
        lemma_roles_differ(kept);
        assert(normalized_from(old_entries, i)[0] == Slot::Kept(kept));
    } else {
        lemma_normalized_head(old_entries, i + 1, entries);
    }
}

/// Entries that answer the calls in order are tool results with the identifiers of the calls.
proof fn lemma_answers_in_order(
    entries: Seq<EntryModel>,
    calls: Seq<ToolCallModel>,
    results: Seq<EntryModel>,
    used: Seq<bool>,
    j: int,
)
    requires
        0 <= j <= calls.len(),
        forall|k: int| 0 <= k < results.len() ==> is_tool(#[trigger] results[k]),
        fit_all(entries, answers(calls, results, used, j)),
    ensures
        entries.len() == calls.len() - j,
        forall|k: int|
            0 <= k < entries.len() ==> is_tool(#[trigger] entries[k]) && matches_id(
                entries[k],
                calls[j + k],
            ),
    decreases calls.len() - j,
{
    if j < calls.len() {
        let picked = pick(results, used, calls[j], results.len() == calls.len());
        let slots = answers(calls, results, used, j);
        let rest_slots = answers(calls, results, use_result(used, picked), j + 1);
        assert(slots == seq![answer_slot(results, picked, calls[j])] + rest_slots);
        assert(fits(entries[0], slots[0]));
        lemma_answer_fits(entries[0], results, used, calls[j], results.len() == calls.len());
        let rest = entries.skip(1);
        assert forall|k: int| 0 <= k < rest.len() implies fits(
            #[trigger] rest[k],
            rest_slots[k],
        ) by {
            assert(fits(entries[k + 1], slots[k + 1]));
        }
        lemma_answers_in_order(rest, calls, results, use_result(used, picked), j + 1);
        assert forall|k: int| 0 <= k < entries.len() implies is_tool(#[trigger] entries[k])
            && matches_id(entries[k], calls[j + k]) by {
            if k > 0 {
                assert(rest[k - 1] == entries[k]);
            }
        }
    }
}

proof fn lemma_tools_end_is(entries: Seq<EntryModel>, i: int, end: int)
    requires
        0 <= i <= end <= entries.len(),
        forall|k: int| i <= k < end ==> is_tool(#[trigger] entries[k]),
        end < entries.len() ==> !is_tool(entries[end]),
    ensures
        tools_end(entries, i) == end,
    decreases end - i,
{
    if i < end {
        assert(is_tool(entries[i]));
        lemma_tools_end_is(entries, i + 1, end);
    }
}

#[verifier::spinoff_prover]
#[verifier::rlimit(40)]
proof fn lemma_normalized_again(
    old_entries: Seq<EntryModel>,
    i: int,
    before: Seq<EntryModel>,
    entries: Seq<EntryModel>,
)
    requires
        0 <= i <= old_entries.len(),
        fit_all(entries, normalized_from(old_entries, i)),
    ensures
        normalized_from(before + entries, before.len() as int) == kept_all(entries),
        !normalizing_changes(before + entries, before.len() as int),
    decreases old_entries.len() - i,
{
    let all = before + entries;
    let p = before.len() as int;
    if i >= old_entries.len() {
        assert(kept_all(entries) =~= Seq::<Slot>::empty());
    } else {
        let entry = old_entries[i];
        lemma_roles_differ(entry);
        if is_user(entry) {
            let a = seq![Slot::Kept(entry)];
            let b = normalized_from(old_entries, i + 1);
            lemma_fit_split(entries, a, b);
            assert(fits(entries.take(1)[0], a[0]));
            let rest = entries.skip(1);
            lemma_normalized_again(old_entries, i + 1, before.push(entry), rest);
            assert(before.push(entry) + rest =~= all);
            assert(all[p] == entry);
            assert(a + kept_all(rest) =~= kept_all(entries));
        } else if is_assistant(entry) {
            let calls = valid_calls(entry.tool_calls);
            let assistant = EntryModel { tool_calls: calls, ..entry };
            let kept = seq![Slot::Kept(assistant)];
            lemma_valid_calls(entry.tool_calls);
            lemma_valid_calls_again(calls);
            lemma_roles_differ(assistant);
            if calls.len() == 0 {
                let b = normalized_from(old_entries, i + 1);
                lemma_fit_split(entries, kept, b);
                assert(fits(entries.take(1)[0], kept[0]));
                let rest = entries.skip(1);
                lemma_normalized_again(old_entries, i + 1, before.push(assistant), rest);
                assert(before.push(assistant) + rest =~= all);
                assert(all[p] == assistant);
                assert(kept + kept_all(rest) =~= kept_all(entries));
            } else {
                lemma_tools_end(old_entries, i + 1);
                let end = tools_end(old_entries, i + 1);
                let results = old_entries.subrange(i + 1, end);
                let slots = answers(calls, results, none_used(results.len()), 0);
                let b = normalized_from(old_entries, end);
                assert(normalized_from(old_entries, i) == kept + slots + b);
                assert(kept + slots + b =~= kept + (slots + b));
                lemma_fit_split(entries, kept, slots + b);
                assert(fits(entries.take(1)[0], kept[0]));
                assert(all[p] == assistant);
                let tail = entries.skip(1);
                lemma_fit_split(tail, slots, b);
                let n = slots.len() as int;
                let answered = tail.take(n);
                let rest = tail.skip(n);
                assert forall|k: int| 0 <= k < results.len() implies is_tool(
                    #[trigger] results[k],
                ) by {
                    assert(results[k] == old_entries[i + 1 + k]);
                }
                lemma_answers_in_order(answered, calls, results, none_used(results.len()), 0);
                if rest.len() > 0 {
                    lemma_normalized_head(old_entries, end, rest);
                }
                let stop = p + 1 + n;
                assert forall|k: int| p + 1 <= k < stop implies is_tool(#[trigger] all[k]) by {
                    assert(all[k] == answered[k - p - 1]);
                }
                if stop < all.len() {
                    assert(all[stop] == rest[0]);
                }
                lemma_tools_end_is(all, p + 1, stop);
                assert(all.subrange(p + 1, stop) =~= answered);
                assert(none_used(answered.len()) =~= first_used(answered.len(), 0));
                lemma_answers_again(answered, calls, 0);
                assert(answered.skip(0) =~= answered);
                let head = before + (seq![assistant] + answered);
                assert(head + rest =~= all);
                lemma_normalized_again(old_entries, end, head, rest);
                assert(head.len() == stop);
                assert(kept + kept_all(answered) + kept_all(rest) =~= kept_all(entries));
            }
        } else {
            lemma_normalized_again(old_entries, i + 1, before, entries);
        }
    }
}

/// Repairing a repaired memory leaves every entry as it is, and reports no change.
pub proof fn law_repairing_twice_changes_nothing(
    entries: Seq<EntryModel>,
    repaired: Seq<EntryModel>,
)
    requires
        fit_all(repaired, normalized_from(entries, 0)),
    ensures
        normalized_from(repaired, 0) == kept_all(repaired),
        !normalizing_changes(repaired, 0),
{
    let none = Seq::<EntryModel>::empty();
    lemma_normalized_again(entries, 0, none, repaired);
    assert(none + repaired =~= repaired);
}

// ---- what repairing keeps ----

/// What the user or the assistant said.
pub open spec fn is_said(entry: EntryModel) -> bool {
    is_user(entry) || is_assistant(entry)
}

/// An entry without its calls.
pub open spec fn without_calls(entry: EntryModel) -> EntryModel {
    EntryModel { tool_calls: Seq::empty(), ..entry }
}

/// All that was said in the entries.
pub open spec fn all_said(entries: Seq<EntryModel>) -> Seq<EntryModel> {
    entries.filter(|e: EntryModel| is_said(e)).map_values(|e: EntryModel| without_calls(e))
}

proof fn lemma_all_said_add(a: Seq<EntryModel>, b: Seq<EntryModel>)
    ensures
        all_said(a + b) == all_said(a) + all_said(b),
{
    let said = |e: EntryModel| is_said(e);
    let plain = |e: EntryModel| without_calls(e);
    Seq::filter_distributes_over_add(a, b, said);
    assert((a.filter(said) + b.filter(said)).map_values(plain) =~= a.filter(said).map_values(plain)
        + b.filter(said).map_values(plain));
}

proof fn lemma_all_said_one(entry: EntryModel)
    ensures
        is_said(entry) ==> all_said(seq![entry]) == seq![without_calls(entry)],
        !is_said(entry) ==> all_said(seq![entry]) == Seq::<EntryModel>::empty(),
{
    reveal(Seq::filter);
    let said = |e: EntryModel| is_said(e);
    let one = seq![entry];
    assert(one.drop_last() =~= Seq::<EntryModel>::empty());
    assert(one.drop_last().filter(said) =~= Seq::<EntryModel>::empty());
    if is_said(entry) {
        assert(one.filter(said) =~= one);
        assert(all_said(one) =~= seq![without_calls(entry)]);
    } else {
        assert(one.filter(said) =~= Seq::<EntryModel>::empty());
        assert(all_said(one) =~= Seq::<EntryModel>::empty());
    }
}

proof fn lemma_nothing_said(entries: Seq<EntryModel>)
    requires
        forall|k: int| 0 <= k < entries.len() ==> !is_said(#[trigger] entries[k]),
    ensures
        all_said(entries) == Seq::<EntryModel>::empty(),
    decreases entries.len(),
{
    reveal(Seq::filter);
    if entries.len() == 0 {
        assert(all_said(entries) =~= Seq::<EntryModel>::empty());
    } else {
        let head = entries.drop_last();
        assert forall|k: int| 0 <= k < head.len() implies !is_said(#[trigger] head[k]) by {
            assert(head[k] == entries[k]);
        }
        lemma_nothing_said(head);
        lemma_all_said_one(entries.last());
        lemma_all_said_add(head, seq![entries.last()]);
        assert(head + seq![entries.last()] =~= entries);
        assert(!is_said(entries[entries.len() - 1]));
        assert(all_said(entries) =~= Seq::<EntryModel>::empty());
    }
}

proof fn lemma_normalized_says_all(
    old_entries: Seq<EntryModel>,
    i: int,
    entries: Seq<EntryModel>,
)
    requires
        0 <= i <= old_entries.len(),
        fit_all(entries, normalized_from(old_entries, i)),
    ensures
        all_said(entries) == all_said(old_entries.skip(i)),
    decreases old_entries.len() - i,
{
    let old_rest = old_entries.skip(i);
    if i >= old_entries.len() {
        assert(old_rest =~= entries);
    } else {
        let entry = old_entries[i];
        lemma_roles_differ(entry);
        assert(old_rest =~= seq![entry] + old_entries.skip(i + 1));
        lemma_all_said_add(seq![entry], old_entries.skip(i + 1));
        lemma_all_said_one(entry);
        if is_user(entry) {
            let a = seq![Slot::Kept(entry)];
            lemma_fit_split(entries, a, normalized_from(old_entries, i + 1));
            assert(fits(entries.take(1)[0], a[0]));
            assert(entries.take(1) =~= seq![entry]);
            lemma_normalized_says_all(old_entries, i + 1, entries.skip(1));
            lemma_all_said_add(entries.take(1), entries.skip(1));
        } else if is_assistant(entry) {
            let calls = valid_calls(entry.tool_calls);
            let assistant = EntryModel { tool_calls: calls, ..entry };
            let kept = seq![Slot::Kept(assistant)];
            lemma_all_said_one(assistant);
            assert(without_calls(assistant) == without_calls(entry));
            if calls.len() == 0 {
                lemma_fit_split(entries, kept, normalized_from(old_entries, i + 1));
                assert(fits(entries.take(1)[0], kept[0]));
                assert(entries.take(1) =~= seq![assistant]);
                lemma_normalized_says_all(old_entries, i + 1, entries.skip(1));
                lemma_all_said_add(entries.take(1), entries.skip(1));
            } else {
                lemma_tools_end(old_entries, i + 1);
                let end = tools_end(old_entries, i + 1);
                let results = old_entries.subrange(i + 1, end);
                let slots = answers(calls, results, none_used(results.len()), 0);
                let b = normalized_from(old_entries, end);
                assert(normalized_from(old_entries, i) == kept + slots + b);
                assert(kept + slots + b =~= kept + (slots + b));
                lemma_fit_split(entries, kept, slots + b);
                assert(fits(entries.take(1)[0], kept[0]));
                assert(entries.take(1) =~= seq![assistant]);
                let tail = entries.skip(1);
                lemma_fit_split(tail, slots, b);
                let n = slots.len() as int;
                let answered = tail.take(n);
                assert forall|k: int| 0 <= k < results.len() implies is_tool(
                    #[trigger] results[k],
                ) by {
                    assert(results[k] == old_entries[i + 1 + k]);
                }
                lemma_answers_in_order(answered, calls, results, none_used(results.len()), 0);
                assert forall|k: int| 0 <= k < answered.len() implies !is_said(
                    #[trigger] answered[k],
                ) by {
                    lemma_roles_differ(answered[k]);
                }
                assert forall|k: int| 0 <= k < results.len() implies !is_said(
                    #[trigger] results[k],
                ) by {
                    lemma_roles_differ(results[k]);
                }
                lemma_nothing_said(answered);
                lemma_nothing_said(results);
                lemma_normalized_says_all(old_entries, end, tail.skip(n));
                lemma_all_said_add(answered, tail.skip(n));
                lemma_all_said_add(seq![assistant], tail);
                assert(entries =~= seq![assistant] + tail);
                assert(old_entries.skip(i + 1) =~= results + old_entries.skip(end));
                lemma_all_said_add(results, old_entries.skip(end));
                assert(all_said(tail) =~= all_said(old_entries.skip(i + 1)));
            }
        } else {
            lemma_normalized_says_all(old_entries, i + 1, entries);
            assert(all_said(old_rest) =~= all_said(old_entries.skip(i + 1)));
        }
    }
}

/// Repairing loses nothing of what the user and the assistant said, changes nothing of it but the
/// calls, and keeps its order.
pub proof fn law_repairing_keeps_all_that_was_said(
    entries: Seq<EntryModel>,
    repaired: Seq<EntryModel>,
)
    requires
        fit_all(repaired, normalized_from(entries, 0)),
    ensures
        repaired.filter(|e: EntryModel| is_said(e)).map_values(|e: EntryModel| without_calls(e))
            == entries.filter(|e: EntryModel| is_said(e)).map_values(
            |e: EntryModel| without_calls(e),
        ),
{
    lemma_normalized_says_all(entries, 0, repaired);
    assert(entries.skip(0) =~= entries);
}

/// Calls that can be answered are all kept. Of the others, those without an identifier or a name
/// are left out, and those with an identifier that came before.
pub proof fn law_calls_that_can_be_answered_stay(calls: Seq<ToolCallModel>, k: int)
    requires
        0 <= k < calls.len(),
    ensures
        answerable(valid_calls(calls)),
        answerable(calls) ==> valid_calls(calls) == calls,
        !is_blank(calls[k].id) && !is_blank(calls[k].name) ==> has_call(
            valid_calls(calls),
            calls[k].id,
        ),
        forall|j: int|
            0 <= j < valid_calls(calls).len() ==> calls.contains(#[trigger] valid_calls(calls)[j]),
    decreases calls.len(),
{
    lemma_valid_calls(calls);
    if answerable(calls) {
        lemma_valid_calls_again(calls);
    }
    let head = calls.drop_last();
    let kept = valid_calls(head);
    let all = valid_calls(calls);
    if head.len() > 0 {
        law_calls_that_can_be_answered_stay(head, if k < head.len() { k } else { 0 });
    }
    if k < head.len() {
        assert(head[k] == calls[k]);
        if has_call(kept, calls[k].id) {
            let j = choose|j: int| 0 <= j < kept.len() && (#[trigger] kept[j]).id == calls[k].id;
            assert(all[j].id == calls[k].id);
        }
    } else if !is_blank(calls[k].id) && !is_blank(calls[k].name) && !has_call(kept, calls[k].id) {
        assert(all[all.len() - 1].id == calls[k].id);
    }
    assert forall|j: int| 0 <= j < all.len() implies calls.contains(#[trigger] all[j]) by {
        if j < kept.len() {
            assert(all[j] == kept[j]);
            assert(head.contains(kept[j]));
            let m = choose|m: int| 0 <= m < head.len() && head[m] == kept[j];
            assert(calls[m] == all[j]);
        } else {
            assert(calls[calls.len() - 1] == all[j]);
        }
    }
}

/// The results are used for calls before `j` only.
spec fn used_before(
    calls: Seq<ToolCallModel>,
    results: Seq<EntryModel>,
    used: Seq<bool>,
    j: int,
) -> bool {
    &&& used.len() == results.len()
    &&& forall|k: int|
        0 <= k < used.len() && #[trigger] used[k] ==> exists|m: int|
            0 <= m < j && matches_id(results[k], #[trigger] calls[m])
}

proof fn lemma_answers_by_id(
    calls: Seq<ToolCallModel>,
    results: Seq<EntryModel>,
    used: Seq<bool>,
    j: int,
    m: int,
)
    requires
        answerable(calls),
        0 <= j <= m < calls.len(),
        used_before(calls, results, used, j),
        forall|i: int| 0 <= i < calls.len() ==> exists|k: int|
            0 <= k < results.len() && matches_id(#[trigger] results[k], #[trigger] calls[i]),
    ensures
        answers(calls, results, used, j).len() == calls.len() - j,
        answers(calls, results, used, j)[m - j] matches Slot::Kept(entry) && results.contains(entry)
            && matches_id(entry, calls[m]),
    decreases calls.len() - j,
{
    let call = calls[j];
    let wanted = |e: EntryModel| matches_id(e, call);
    assert(calls[j] == call);
    let k = choose|k: int| 0 <= k < results.len() && matches_id(#[trigger] results[k], calls[j]);
    if used[k] {
        let other = choose|other: int|
            0 <= other < j && matches_id(results[k], #[trigger] calls[other]);
        assert(calls[other].id != calls[j].id);
    }
    lemma_first_unused_found(results, used, wanted, 0, k);
    let first = first_unused(results, used, wanted, 0);
    let complete = results.len() == calls.len();
    assert(pick(results, used, call, complete) == Some(first));
    assert((EntryModel { tool_call_id: Some(call.id), ..results[first] }) == results[first]);
    let next = used.update(first, true);
    assert(used_before(calls, results, next, j + 1)) by {
        assert forall|k: int| 0 <= k < next.len() && #[trigger] next[k] implies exists|m: int|
            0 <= m < j + 1 && matches_id(results[k], #[trigger] calls[m]) by {
            if k == first {
                assert(matches_id(results[k], calls[j]));
            } else {
                assert(used[k]);
                let m = choose|m: int| 0 <= m < j && matches_id(results[k], #[trigger] calls[m]);
                assert(0 <= m < j + 1 && matches_id(results[k], calls[m]));
            }
        }
    }
    assert(results.contains(results[first]));
    if j + 1 < calls.len() {
        lemma_answers_by_id(calls, results, next, j + 1, if m > j { m } else { j + 1 });
    } else {
        assert(answers(calls, results, next, j + 1).len() == 0);
    }
}

proof fn lemma_first_unused_found(
    results: Seq<EntryModel>,
    used: Seq<bool>,
    wanted: spec_fn(EntryModel) -> bool,
    i: int,
    k: int,
)
    requires
        0 <= i <= k < results.len(),
        !used[k],
        wanted(results[k]),
    ensures
        i <= first_unused(results, used, wanted, i) <= k,
        !used[first_unused(results, used, wanted, i)],
        wanted(results[first_unused(results, used, wanted, i)]),
    decreases k - i,
{
    if used[i] || !wanted(results[i]) {
        lemma_first_unused_found(results, used, wanted, i + 1, k);
    }
}

/// Where every call has a result with its identifier, each call is answered by such a result, in
/// the order of the calls, and none is made up.
pub proof fn law_recorded_results_answer_their_calls(
    calls: Seq<ToolCallModel>,
    results: Seq<EntryModel>,
    m: int,
)
    requires
        answerable(calls),
        0 <= m < calls.len(),
        forall|i: int| 0 <= i < calls.len() ==> exists|k: int|
            0 <= k < results.len() && matches_id(#[trigger] results[k], #[trigger] calls[i]),
    ensures
        ({
            let slots = answers(calls, results, none_used(results.len()), 0);
            &&& slots.len() == calls.len()
            &&& (slots[m] matches Slot::Kept(entry) && results.contains(entry)
                && entry.tool_call_id == Some(calls[m].id))
        }),
{
    lemma_answers_by_id(calls, results, none_used(results.len()), 0, m);
}

proof fn lemma_answers_of_none(calls: Seq<ToolCallModel>, j: int)
    requires
        0 <= j <= calls.len(),
    ensures
        answers(calls, Seq::empty(), none_used(0), j) == Seq::new(
            (calls.len() - j) as nat,
            |k: int| Slot::Recovered(calls[j + k]),
        ),
    decreases calls.len() - j,
{
    let slots = Seq::new((calls.len() - j) as nat, |k: int| Slot::Recovered(calls[j + k]));
    if j < calls.len() {
        lemma_answers_of_none(calls, j + 1);
        let picked = pick(Seq::empty(), none_used(0), calls[j], 0 == calls.len());
        assert(picked is None);
        assert(answers(calls, Seq::empty(), none_used(0), j) =~= slots);
    } else {
        assert(answers(calls, Seq::empty(), none_used(0), j) =~= slots);
    }
}

/// Where the calls of the last entry have no results at all, each gets one that says so.
pub proof fn law_missing_results_are_made_up(
    entries: Seq<EntryModel>,
    repaired: Seq<EntryModel>,
    m: int,
)
    requires
        entries.len() == 1,
        is_assistant(entries[0]),
        answerable(entries[0].tool_calls),
        fit_all(repaired, normalized_from(entries, 0)),
        0 <= m < entries[0].tool_calls.len(),
    ensures
        repaired.len() == 1 + entries[0].tool_calls.len(),
        repaired[0] == entries[0],
        is_tool(repaired[m + 1]),
        repaired[m + 1].tool_call_id == Some(entries[0].tool_calls[m].id),
        repaired[m + 1].name == Some(entries[0].tool_calls[m].name),
        crate::memory::is_recovered(repaired[m + 1]),
{
    let entry = entries[0];
    let calls = entry.tool_calls;
    lemma_valid_calls_again(calls);
    lemma_roles_differ(entry);
    assert(tools_end(entries, 1) == 1);
    let results = entries.subrange(1, 1);
    assert(results =~= Seq::<EntryModel>::empty());
    lemma_answers_of_none(calls, 0);
    let slots = normalized_from(entries, 0);
    let kept = seq![Slot::Kept(entry)];
    let rest = answers(calls, results, none_used(0), 0);
    assert(normalized_from(entries, 1) =~= Seq::<Slot>::empty());
    assert(slots =~= kept + rest);
    assert(fits(repaired[0], slots[0]));
    assert(fits(repaired[m + 1], slots[m + 1]));
    assert(slots[m + 1] == Slot::Recovered(calls[m]));
    reveal_strlit("[RustPilot] No result was recorded for the previous `");
    reveal_strlit("[RustPilot] No result was recorded");
    let front = "[RustPilot] No result was recorded"@;
    assert(repaired[m + 1].content.take(front.len() as int) =~= front);
}

/// Every call is followed by its results, in the order of the calls, and every result follows its
/// call.
pub open spec fn in_order(entries: Seq<EntryModel>) -> bool {
    &&& forall|i: int|
        0 <= i < entries.len() ==> is_user(#[trigger] entries[i]) || is_assistant(entries[i])
            || is_tool(entries[i])
    &&& forall|i: int|
        0 <= i < entries.len() && !is_tool(#[trigger] entries[i]) ==> {
            let calls = entries[i].tool_calls;
            let stop = i + 1 + (if is_assistant(entries[i]) {
                calls.len()
            } else {
                0
            });
            &&& stop <= entries.len()
            &&& stop < entries.len() ==> !is_tool(entries[stop])
            &&& is_assistant(entries[i]) ==> answerable(calls) && forall|k: int|
                0 <= k < calls.len() ==> is_tool(#[trigger] entries[i + 1 + k]) && matches_id(
                    entries[i + 1 + k],
                    calls[k],
                )
        }
}

proof fn lemma_in_order_stays(entries: Seq<EntryModel>, i: int)
    requires
        in_order(entries),
        0 <= i <= entries.len(),
        i < entries.len() ==> !is_tool(entries[i]),
    ensures
        normalized_from(entries, i) == kept_all(entries.skip(i)),
        !normalizing_changes(entries, i),
    decreases entries.len() - i,
{
    let rest = entries.skip(i);
    if i >= entries.len() {
        assert(kept_all(rest) =~= Seq::<Slot>::empty());
    } else {
        let entry = entries[i];
        lemma_roles_differ(entry);
        let kept = seq![Slot::Kept(entry)];
        if is_user(entry) {
            lemma_in_order_stays(entries, i + 1);
            assert(kept + kept_all(entries.skip(i + 1)) =~= kept_all(rest));
        } else {
            let calls = entry.tool_calls;
            let stop = i + 1 + calls.len();
            lemma_valid_calls_again(calls);
            lemma_in_order_stays(entries, stop);
            if calls.len() == 0 {
                assert(kept + kept_all(entries.skip(i + 1)) =~= kept_all(rest));
            } else {
                assert forall|k: int| i + 1 <= k < stop implies is_tool(#[trigger] entries[k]) by {
                    assert(is_tool(entries[i + 1 + (k - i - 1)]));
                }
                lemma_tools_end_is(entries, i + 1, stop);
                let results = entries.subrange(i + 1, stop);
                assert forall|k: int| 0 <= k < calls.len() implies matches_id(
                    #[trigger] results[k],
                    calls[k],
                ) by {
                    assert(is_tool(entries[i + 1 + k]));
                }
                assert(none_used(results.len()) =~= first_used(results.len(), 0));
                lemma_answers_again(results, calls, 0);
                assert(results.skip(0) =~= results);
                assert(kept + kept_all(results) + kept_all(entries.skip(stop)) =~= kept_all(rest));
            }
        }
    }
}

/// A memory that is in order is not changed by a repair.
pub proof fn law_a_memory_in_order_stays(entries: Seq<EntryModel>, repaired: Seq<EntryModel>)
    requires
        in_order(entries),
        entries.len() > 0 ==> !is_tool(entries[0]),
        fit_all(repaired, normalized_from(entries, 0)),
    ensures
        repaired == entries,
        !normalizing_changes(entries, 0),
{
    lemma_in_order_stays(entries, 0);
    assert(entries.skip(0) =~= entries);
    assert forall|i: int| 0 <= i < entries.len() implies repaired[i] == entries[i] by {
        assert(fits(repaired[i], kept_all(entries)[i]));
    }
    assert(repaired =~= entries);
}

} // verus!
