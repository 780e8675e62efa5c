//! What applying the hunks of a patch guarantees.

use vstd::prelude::*;
use vstd::utf8::encode_utf8;

use super::hunks::{
    ends_with_newline, expected_place, file_lines, first_place, hunk_applied, hunk_place,
    hunks_applied, law_hunk_touches_only_its_lines, law_split_and_join_give_the_text_back,
    lemma_first_place, lesser, new_lines, old_lines, patched, stands_at,
};
use super::limits::MAX_EDIT_BYTES;
use super::patch::{HunkModel, LineModel};
use crate::text::joined;

verus! {

/// The text of a line of a hunk.
pub open spec fn text_of_line(line: LineModel) -> Seq<char> {
    match line {
        LineModel::Context(text) => text,
        LineModel::Remove(text) => text,
        LineModel::Add(text) => text,
    }
}

/// A hunk expects its lines but those that it adds, and leaves its lines but those that it
/// removes, in their order.
pub proof fn law_sides_of_a_hunk_are_its_lines(lines: Seq<LineModel>)
    ensures
        old_lines(lines) == lines.filter(|l: LineModel| !(l is Add)).map_values(
            |l: LineModel| text_of_line(l),
        ),
        new_lines(lines) == lines.filter(|l: LineModel| !(l is Remove)).map_values(
            |l: LineModel| text_of_line(l),
        ),
    decreases lines.len(),
{
    reveal(Seq::filter);
    let text = |l: LineModel| text_of_line(l);
    let expects = |l: LineModel| !(l is Add);
    let leaves = |l: LineModel| !(l is Remove);
    if lines.len() == 0 {
        assert(old_lines(lines) =~= lines.filter(expects).map_values(text));
        assert(new_lines(lines) =~= lines.filter(leaves).map_values(text));
    } else {
        let head = lines.drop_last();
        law_sides_of_a_hunk_are_its_lines(head);
        assert(old_lines(lines) =~= lines.filter(expects).map_values(text));
        assert(new_lines(lines) =~= lines.filter(leaves).map_values(text));
    }
}

/// The lines of a hunk that expects some can be found: they stand at the place where the hunk is
/// expected, or behind the last hunk.
pub open spec fn findable(lines: Seq<Seq<char>>, cursor: int, hunk: HunkModel) -> bool {
    let part = old_lines(hunk.lines);
    ||| exists|i: int| cursor <= i < lines.len() && #[trigger] stands_at(lines, part, i)
    ||| stands_at(lines, part, lesser(expected_place(hunk.old_start, cursor), lines.len() as int))
}

proof fn lemma_first_place_found(
    lines: Seq<Seq<char>>,
    part: Seq<Seq<char>>,
    from: int,
    i: int,
)
    requires
        0 <= from <= i < lines.len(),
        stands_at(lines, part, i),
    ensures
        first_place(lines, part, from) is Some,
        first_place(lines, part, from)->0 <= i,
    decreases i - from,
{
    if !stands_at(lines, part, from) {
        lemma_first_place_found(lines, part, from + 1, i);
    }
}

/// A hunk is refused if and only if it expects lines that can not be found. It is applied at the
/// line that it names where its lines stand there, and else at the first place behind the last
/// hunk where they stand.
pub proof fn law_hunks_are_applied_where_their_lines_stand(
    lines: Seq<Seq<char>>,
    cursor: int,
    hunk: HunkModel,
    i: int,
)
    requires
        0 <= cursor <= lines.len(),
    ensures
        hunk_applied(lines, cursor, hunk) is Err <==> old_lines(hunk.lines).len() > 0 && !findable(
            lines,
            cursor,
            hunk,
        ),
        hunk_applied(lines, cursor, hunk) matches Ok((now, next)) ==> {
            let part = old_lines(hunk.lines);
            let start = next - new_lines(hunk.lines).len();
            &&& (hunk.old_start matches Some(n) ==> 0 < n <= lines.len() && stands_at(
                lines,
                part,
                n - 1,
            ) ==> start == n - 1)
            &&& (hunk.old_start is None && stands_at(lines, part, cursor) ==> start == cursor)
            &&& (part.len() > 0 && cursor <= i < start && stands_at(lines, part, i)
                ==> hunk.old_start is Some && hunk.old_start->0 - 1 == start)
        },
{
    let part = old_lines(hunk.lines);
    let expected = expected_place(hunk.old_start, cursor);
    lemma_first_place(lines, part, cursor);
    if exists|i: int| cursor <= i < lines.len() && #[trigger] stands_at(lines, part, i) {
        let k = choose|i: int| cursor <= i < lines.len() && #[trigger] stands_at(lines, part, i);
        lemma_first_place_found(lines, part, cursor, k);
    }
    if let Some(start) = hunk_place(lines, part, expected, cursor) {
        assert(hunk_applied(lines, cursor, hunk) is Ok);
        if part.len() > 0 && cursor <= i < start && stands_at(lines, part, i) {
            lemma_first_place_found(lines, part, cursor, i);
            assert(stands_at(lines, part, start));
            assert(start < lines.len());
        }
        if part.len() > 0 && !findable(lines, cursor, hunk) {
            assert(stands_at(lines, part, start));
            assert(start < lines.len());
        }
    }
}

proof fn lemma_hunks_ok(lines: Seq<Seq<char>>, hunks: Seq<HunkModel>, k: int)
    requires
        0 <= k <= hunks.len(),
    ensures
        hunks_applied(lines, hunks) is Ok ==> hunks_applied(lines, hunks.take(k)) is Ok,
        hunks_applied(lines, hunks.take(k)) is Err ==> hunks_applied(lines, hunks)
            == hunks_applied(lines, hunks.take(k)),
        hunks_applied(lines, hunks.take(k)) matches Ok((now, cursor)) ==> 0 <= cursor <= now.len(),
    decreases hunks.len(),
{
    if hunks.len() > 0 {
        let head = hunks.drop_last();
        if k < hunks.len() {
            assert(head.take(k) =~= hunks.take(k));
            lemma_hunks_ok(lines, head, k);
        } else {
            assert(hunks.take(k) =~= hunks);
            assert(head.take(head.len() as int) =~= head);
            lemma_hunks_ok(lines, head, head.len() as int);
            if let Ok((now, cursor)) = hunks_applied(lines, head) {
                law_hunk_touches_only_its_lines(now, cursor, hunks.last());
            }
        }
    } else {
        assert(hunks.take(k) =~= hunks);
    }
}

/// Every hunk of a patch is applied, one after the other: the lines after hunk `k` are those
/// before it with the lines that the hunk expects replaced by the lines that it leaves, and nothing
/// else. A hunk that cannot be applied makes the patch fail, with the error of that hunk.
pub proof fn law_every_hunk_is_applied(lines: Seq<Seq<char>>, hunks: Seq<HunkModel>, k: int)
    requires
        0 <= k < hunks.len(),
    ensures
        hunks_applied(lines, hunks.take(0)) == Ok::<(Seq<Seq<char>>, int), Seq<char>>((lines, 0)),
        hunks_applied(lines, hunks.take(k)) matches Ok((before, cursor)) ==> {
            &&& hunks_applied(lines, hunks.take(k + 1)) == hunk_applied(before, cursor, hunks[k])
            &&& hunk_applied(before, cursor, hunks[k]) is Err ==> hunks_applied(lines, hunks)
                == hunk_applied(before, cursor, hunks[k])
        },
        hunks_applied(lines, hunks) is Ok ==> {
            let (before, cursor) = hunks_applied(lines, hunks.take(k))->Ok_0;
            let (after, next) = hunks_applied(lines, hunks.take(k + 1))->Ok_0;
            let old = hunks[k].lines.filter(|l: LineModel| !(l is Add)).map_values(
                |l: LineModel| text_of_line(l),
            );
            let new = hunks[k].lines.filter(|l: LineModel| !(l is Remove)).map_values(
                |l: LineModel| text_of_line(l),
            );
            let start = next - new.len();
            &&& hunks_applied(lines, hunks.take(k)) is Ok
            &&& hunks_applied(lines, hunks.take(k + 1)) is Ok
            &&& 0 <= start && start + old.len() <= before.len()
            &&& before == before.take(start) + old + before.skip(start + old.len())
            &&& after == before.take(start) + new + before.skip(start + old.len())
        },
{
    let part = hunks.take(k + 1);
    assert(hunks.take(0) =~= Seq::<HunkModel>::empty());
    assert(part.drop_last() =~= hunks.take(k));
    assert(part.last() == hunks[k]);
    lemma_hunks_ok(lines, hunks, k);
    lemma_hunks_ok(lines, hunks, k + 1);
    if let Ok((before, cursor)) = hunks_applied(lines, hunks.take(k)) {
        law_hunk_touches_only_its_lines(before, cursor, hunks[k]);
        law_sides_of_a_hunk_are_its_lines(hunks[k].lines);
        if let Ok((after, next)) = hunk_applied(before, cursor, hunks[k]) {
            let old = old_lines(hunks[k].lines);
            let new = new_lines(hunks[k].lines);
            let start = next - new.len();
            assert(before =~= before.take(start) + before.subrange(start, start + old.len())
                + before.skip(start + old.len()));
            assert(after =~= after.take(start) + after.subrange(start, start + new.len())
                + after.skip(next));
        }
    }
}

/// A patch without hunks leaves a text without carriage returns as it is.
pub proof fn law_no_hunks_change_nothing(text: Seq<char>)
    requires
        forall|i: int| 0 <= i < text.len() ==> text[i] != '\r',
        encode_utf8(text).len() <= MAX_EDIT_BYTES,
    ensures
        patched(text, Seq::empty()) == Ok::<Seq<char>, Seq<char>>(text),
{
    law_split_and_join_give_the_text_back(text);
    assert(hunks_applied(file_lines(text), Seq::<HunkModel>::empty()) is Ok);
    assert(ends_with_newline(text) || !ends_with_newline(text));
}

/// The text after a patch is made of the lines after its last hunk, each ended by a line feed but
/// the last, which is ended if and only if the last line of the text before was. A patch fails only
/// where a hunk fails or the text would be too long.
pub proof fn law_patched_text_is_that_of_its_lines(text: Seq<char>, hunks: Seq<HunkModel>)
    ensures
        match hunks_applied(file_lines(text), hunks) {
            Ok((lines, cursor)) => {
                let body = joined(lines, "\n"@);
                let whole = if text.len() > 0 && text.last() == '\n' {
                    body + "\n"@
                } else {
                    body
                };
                if encode_utf8(whole).len() <= MAX_EDIT_BYTES {
                    patched(text, hunks) == Ok::<Seq<char>, Seq<char>>(whole)
                } else {
                    patched(text, hunks) is Err
                }
            },
            Err(error) => patched(text, hunks) == Err::<Seq<char>, Seq<char>>(error),
        },
{
    reveal_strlit("\n");
    if let Ok((lines, cursor)) = hunks_applied(file_lines(text), hunks) {
        let body = joined(lines, "\n"@);
        assert(body.push('\n') =~= body + "\n"@);
    }
}

} // verus!
