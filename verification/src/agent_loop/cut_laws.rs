//! What cutting a block of a request down guarantees.

use vstd::prelude::*;

use super::context::{
    compacted_block, cut_block, cut_content, cut_message, next_cut, with_content,
    without_reasoning,
};
use super::counter::{capped, TokenCounter};
use crate::json::{Json, JsonModel};
use crate::json_model::{
    lemma_member_index, lemma_member_index_is, lemma_with_get, lemma_with_get_other, member_index,
};

verus! {

/// The first `k` characters of a text, with a note where some are left out.
pub open spec fn beginning(text: Seq<char>, k: nat) -> Seq<char> {
    if k < text.len() {
        text.take(k as int) + "\n[context truncated]"@
    } else {
        text
    }
}

/// The content of `after` is a beginning of that of `before`.
pub open spec fn begins_like(before: JsonModel, after: JsonModel, k: nat) -> bool {
    match before.text("content"@) {
        Some(text) => after.text("content"@) == Some(beginning(text, k)),
        None => after.get("content"@) == before.get("content"@),
    }
}

/// Nothing is left of the content and of the reasoning.
pub open spec fn emptied(before: JsonModel, after: JsonModel) -> bool {
    &&& begins_like(before, after, 0)
    &&& before.get("reasoning_content"@) is Some ==> after.get("reasoning_content"@) == Some(
        JsonModel::Null,
    )
}

proof fn lemma_with_twice(json: JsonModel, key: Seq<char>, a: JsonModel, b: JsonModel)
    requires
        json is Object,
    ensures
        json.with(key, a).with(key, b) == json.with(key, b),
{
    let members = json->Object_0;
    lemma_member_index(members, key);
    let i = member_index(members, key);
    let new = json.with(key, a)->Object_0;
    assert forall|j: int| 0 <= j < i implies (#[trigger] new[j]).0 != key by {
        assert(new[j] == members[j]);
    }
    lemma_member_index_is(new, key, i);
    assert(json.with(key, a).with(key, b)->Object_0 =~= json.with(key, b)->Object_0);
}

/// Where a text is cut, half of what would not fit is kept at least.
proof fn lemma_cut_message_at<F: Fn(&str) -> usize, G: Fn(&[Json]) -> usize>(
    counter: TokenCounter<F, G>,
    block: Seq<JsonModel>,
    i: int,
    content: Seq<char>,
    keep: nat,
    target: nat,
) -> (k: nat)
    requires
        0 <= i < block.len(),
        block[i] is Object,
        keep <= usize::MAX,
    ensures
        k <= keep,
        cut_message(counter, block, i, content, keep, target) == with_content(
            block,
            i,
            beginning(content, k),
        ),
        k == 0 || counter.messages_tokens(with_content(block, i, beginning(content, k))) <= target,
        k < keep && keep * 3 <= usize::MAX ==> exists|more: nat|
            k < more <= 2 * k + 1 && more <= keep && counter.messages_tokens(
                with_content(block, i, #[trigger] beginning(content, more)),
            ) > target,
    decreases keep,
{
    let cut = with_content(block, i, cut_content(content, keep));
    assert(cut_content(content, keep) == beginning(content, keep));
    if counter.messages_tokens(cut) <= target || keep == 0 {
        keep
    } else {
        let next = next_cut(keep);
        assert(keep * 3 <= usize::MAX ==> keep <= 2 * next + 1);
        let k = lemma_cut_message_at(counter, cut, i, content, next, target);
        assert forall|text: Seq<char>| #[trigger] with_content(cut, i, text) == with_content(
            block,
            i,
            text,
        ) by {
            lemma_with_twice(
                block[i],
                "content"@,
                JsonModel::Str(cut_content(content, keep)),
                JsonModel::Str(text),
            );
            assert(with_content(cut, i, text) =~= with_content(block, i, text));
        }
        if k < next && keep * 3 <= usize::MAX {
            let more = choose|more: nat|
                k < more <= 2 * k + 1 && more <= next && counter.messages_tokens(
                    with_content(cut, i, #[trigger] beginning(content, more)),
                ) > target;
            assert(counter.messages_tokens(with_content(block, i, beginning(content, more)))
                > target);
        } else {
            assert(counter.messages_tokens(with_content(block, i, beginning(content, keep)))
                > target);
        }
        k
    }
}

/// A message without its reasoning costs no more than with it.
pub open spec fn reasoning_counts<F: Fn(&str) -> usize, G: Fn(&[Json]) -> usize>(
    counter: TokenCounter<F, G>,
) -> bool {
    forall|block: Seq<JsonModel>, i: int|
        0 <= i < block.len() ==> counter.messages_tokens(
            #[trigger] block.update(i, without_reasoning(block[i])),
        ) <= counter.messages_tokens(block)
}

/// How the first `n` messages of a block were cut: `ks` says how much of each is left.
spec fn cut_as(
    block: Seq<JsonModel>,
    after: Seq<JsonModel>,
    n: int,
    ks: Seq<nat>,
) -> bool {
    &&& after.len() == block.len()
    &&& ks.len() == n
    &&& forall|j: int| 0 <= j < n ==> begins_like(#[trigger] block[j], after[j], ks[j])
    &&& forall|j: int| n <= j < block.len() ==> after[j] == #[trigger] block[j]
    &&& forall|j: int, m: int|
        0 <= j < m < n && after[j] != block[j] ==> emptied(
            #[trigger] block[m],
            after[m],
        ) || #[trigger] block[j] == after[j]
}

proof fn lemma_cut_block_as<F: Fn(&str) -> usize, G: Fn(&[Json]) -> usize>(
    counter: TokenCounter<F, G>,
    block: Seq<JsonModel>,
    n: int,
    target: nat,
) -> (ks: Seq<nat>)
    requires
        0 <= n <= block.len(),
        reasoning_counts(counter),
    ensures
        cut_as(block, cut_block(counter, block, n, target), n, ks),
        counter.messages_tokens(cut_block(counter, block, n, target)) <= target || forall|j: int|
            0 <= j < n ==> emptied(
                #[trigger] block[j],
                cut_block(counter, block, n, target)[j],
            ),
    decreases n,
{
    reveal_strlit("content");
    reveal_strlit("reasoning_content");
    reveal_strlit("\n[context truncated]");
    assert("content"@.len() == 7 && "reasoning_content"@.len() == 17);
    if n <= 0 {
        Seq::empty()
    } else if counter.messages_tokens(block) <= target {
        let ks = Seq::new(
            n as nat,
            |j: int|
                match block[j].text("content"@) {
                    Some(text) => text.len(),
                    None => 0,
                },
        );
        assert(cut_as(block, block, n, ks));
        ks
    } else {
        let i = n - 1;
        let message = block[i];
        let mut left: nat = 0;
        let cut = match message.text("content"@) {
            Some(content) => {
                let keep = if content.len() <= capped(target * 4) {
                    content.len()
                } else {
                    capped(target * 4)
                };
                cut_message(counter, block, i, content, keep, target)
            },
            None => block,
        };
        if let Some(content) = message.text("content"@) {
            let keep = if content.len() <= capped(target * 4) {
                content.len()
            } else {
                capped(target * 4)
            };
            left = lemma_cut_message_at(counter, block, i, content, keep, target);
            lemma_with_get(message, "content"@, JsonModel::Str(beginning(content, left)));
            lemma_with_get_other(
                message,
                "content"@,
                JsonModel::Str(beginning(content, left)),
                "reasoning_content"@,
            );
        }
        let plain = cut.update(i, without_reasoning(cut[i]));
        if cut[i].get("reasoning_content"@) is Some {
            lemma_with_get(cut[i], "reasoning_content"@, JsonModel::Null);
            lemma_with_get_other(
                cut[i],
                "reasoning_content"@,
                JsonModel::Null,
                "content"@,
            );
        }
        assert(begins_like(message, plain[i], left));
        assert(forall|j: int| 0 <= j < i ==> plain[j] == #[trigger] block[j]);
        let rest = lemma_cut_block_as(counter, plain, i, target);
        let after = cut_block(counter, plain, i, target);
        assert(after == cut_block(counter, block, n, target));
        let ks = rest.push(left);
        assert(forall|j: int| n <= j < block.len() ==> plain[j] == #[trigger] block[j]);
        assert forall|j: int| n <= j < block.len() implies after[j] == #[trigger] block[j] by {
            assert(after[j] == plain[j]);
        }
        assert(after[i] == plain[i]);
        assert forall|j: int| 0 <= j < n implies begins_like(
            #[trigger] block[j],
            after[j],
            ks[j],
        ) by {
            if j < i {
                assert(begins_like(plain[j], after[j], rest[j]));
            }
        }
        if counter.messages_tokens(plain) > target {
            assert(counter.messages_tokens(cut) > target);
            assert(message.text("content"@) is Some ==> left == 0);
            assert(emptied(message, plain[i]));
        }
        assert forall|j: int, m: int| 0 <= j < m < n && after[j] != block[j] implies emptied(
            #[trigger] block[m],
            after[m],
        ) || #[trigger] block[j] == after[j] by {
            assert(plain[j] == block[j]);
            if m < i {
                assert(emptied(plain[m], after[m]) || plain[j] == after[j]);
            } else if counter.messages_tokens(plain) <= target {
                assert(after == plain);
            }
        }
        if counter.messages_tokens(after) > target {
            assert forall|j: int| 0 <= j < n implies emptied(#[trigger] block[j], after[j]) by {
                if j < i {
                    assert(emptied(plain[j], after[j]));
                }
                if counter.messages_tokens(plain) <= target {
                    assert(after == plain);
                }
            }
        }
        assert(cut_as(block, after, n, ks));
        ks
    }
}

/// A block that fits is not cut. Of each message that is cut the beginning is kept, and a message
/// is cut only where nothing is left of those behind it. Cutting ends when the block fits, or
/// nothing is left.
pub proof fn law_cutting_keeps_beginnings<F: Fn(&str) -> usize, G: Fn(&[Json]) -> usize>(
    counter: TokenCounter<F, G>,
    block: Seq<JsonModel>,
    target: nat,
    i: int,
    j: int,
)
    requires
        reasoning_counts(counter),
        0 <= i < block.len(),
        0 <= j < block.len(),
    ensures
        ({
            let after = compacted_block(counter, block, target);
            &&& counter.messages_tokens(block) <= target ==> after == block
            &&& after.len() == block.len()
            &&& exists|k: nat| begins_like(block[i], after[i], k)
            &&& i < j && after[i] != block[i] ==> emptied(block[j], after[j])
            &&& target > 0 && counter.messages_tokens(after) > target ==> emptied(
                block[i],
                after[i],
            )
        }),
{
    let n = block.len() as int;
    let after = compacted_block(counter, block, target);
    if target > 0 {
        let ks = lemma_cut_block_as(counter, block, n, target);
        assert(begins_like(block[i], after[i], ks[i]));
        assert(emptied(block[i], after[i]) || counter.messages_tokens(after) <= target);
    } else {
        let k: nat = match block[i].text("content"@) {
            Some(text) => text.len(),
            None => 0,
        };
        assert(begins_like(block[i], after[i], k));
    }
}

/// Where the only message of a block is cut, not much less is kept of it than could be: with twice
/// as much and one character more, or with less than that, it would not fit, unless it is more
/// than four times as many characters as there are tokens.
pub proof fn law_cutting_keeps_what_it_can<F: Fn(&str) -> usize, G: Fn(&[Json]) -> usize>(
    counter: TokenCounter<F, G>,
    message: JsonModel,
    text: Seq<char>,
    target: nat,
)
    requires
        message.text("content"@) == Some(text),
        message.get("reasoning_content"@) is None,
        0 < target,
        target * 12 <= usize::MAX,
        counter.messages_tokens(seq![message]) > target,
    ensures
        ({
            let after = compacted_block(counter, seq![message], target);
            let most = if text.len() <= target * 4 {
                text.len()
            } else {
                target * 4
            };
            exists|k: nat|
                {
                    &&& k <= most
                    &&& after == seq![
                        message.with("content"@, JsonModel::Str(#[trigger] beginning(text, k))),
                    ]
                    &&& k < most ==> exists|more: nat|
                        k < more <= 2 * k + 1 && more <= most && counter.messages_tokens(
                            seq![
                                message.with(
                                    "content"@,
                                    JsonModel::Str(#[trigger] beginning(text, more)),
                                ),
                            ],
                        ) > target
                }
        }),
{
    reveal_strlit("content");
    reveal_strlit("reasoning_content");
    assert("content"@.len() == 7 && "reasoning_content"@.len() == 17);
    let block = seq![message];
    let most = if text.len() <= target * 4 {
        text.len()
    } else {
        target * 4
    };
    let k = lemma_cut_message_at(counter, block, 0, text, most, target);
    assert forall|other: Seq<char>| #[trigger] with_content(block, 0, other) == seq![
        message.with("content"@, JsonModel::Str(other)),
    ] by {
        assert(with_content(block, 0, other) =~= seq![
            message.with("content"@, JsonModel::Str(other)),
        ]);
    }
    let cut = with_content(block, 0, beginning(text, k));
    lemma_with_get_other(
        message,
        "content"@,
        JsonModel::Str(beginning(text, k)),
        "reasoning_content"@,
    );
    assert(cut.update(0, without_reasoning(cut[0])) =~= cut);
    let after = compacted_block(counter, block, target);
    assert(after == cut_block(counter, cut, 0, target));
    assert(after == seq![message.with("content"@, JsonModel::Str(beginning(text, k)))]);
    if k < most {
        let more = choose|more: nat|
            k < more <= 2 * k + 1 && more <= most && counter.messages_tokens(
                with_content(block, 0, #[trigger] beginning(text, more)),
            ) > target;
        assert(with_content(block, 0, beginning(text, more)) == seq![
            message.with("content"@, JsonModel::Str(beginning(text, more))),
        ]);
    }
}

} // verus!
