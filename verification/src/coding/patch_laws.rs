//! What reading a patch guarantees.

use vstd::prelude::*;
use vstd::utf8::encode_utf8;

use super::limits::MAX_LINE_BYTES;
use super::patch::{
    added_content, bare_path, body_end, digits_end, directives_from, hunk_line, hunk_text, hunks_of,
    is_header, is_noise, move_target, old_start, only_added, operations_of, path_in, read_lines,
    section_end, unified_from, unified_newlines, HunkModel, HunkState, LineModel, OperationModel,
};
use crate::number::{all_digits, decimal, is_digit, law_numbers_are_written_without_loss};
use crate::text::{begins_with, is_blank, lemma_next_char, next_char, split_on, trimmed};

verus! {

// ---- hunks ----

/// A line of a hunk as it is written in a patch.
pub open spec fn written_line(line: LineModel) -> Seq<char> {
    match line {
        LineModel::Context(text) => " "@ + text,
        LineModel::Remove(text) => "-"@ + text,
        LineModel::Add(text) => "+"@ + text,
    }
}

/// Hunks as they are written in a patch, each by its header and its lines.
pub open spec fn written_hunks(hunks: Seq<(Seq<char>, Seq<LineModel>)>) -> Seq<Seq<char>>
    decreases hunks.len(),
{
    if hunks.len() == 0 {
        Seq::empty()
    } else {
        written_hunks(hunks.drop_last()) + seq![hunks.last().0] + hunks.last().1.map_values(
            |line: LineModel| written_line(line),
        )
    }
}

proof fn lemma_written_line(line: LineModel)
    ensures
        !begins_with(written_line(line), "@@"@),
        !is_noise(written_line(line)),
        hunk_line(written_line(line)) == Some(line),
{
    reveal_strlit(" ");
    reveal_strlit("-");
    reveal_strlit("+");
    reveal_strlit("@@");
    reveal_strlit("\\ No newline at end of file");
    reveal_strlit("diff ");
    reveal_strlit("index ");
    let text = written_line(line);
    assert(text[0] == ' ' || text[0] == '-' || text[0] == '+');
    if begins_with(text, "@@"@) {
        assert(text.take(2)[0] == text[0]);
    }
    if begins_with(text, "\\ No newline at end of file"@) {
        assert(text.take("\\ No newline at end of file"@.len() as int)[0] == text[0]);
    }
    if begins_with(text, "diff "@) {
        assert(text.take(5)[0] == text[0]);
    }
    if begins_with(text, "index "@) {
        assert(text.take(6)[0] == text[0]);
    }
    match line {
        LineModel::Context(rest) => {
            assert(text.skip(1) =~= rest);
        },
        LineModel::Remove(rest) => {
            assert(text.skip(1) =~= rest);
        },
        LineModel::Add(rest) => {
            assert(text.skip(1) =~= rest);
        },
    }
}

proof fn lemma_read_hunk(
    before: Seq<Seq<char>>,
    state: HunkState,
    header: Seq<char>,
    lines: Seq<LineModel>,
)
    requires
        read_lines(before) == Ok::<HunkState, Seq<char>>(state),
        begins_with(header, "@@"@),
    ensures
        read_lines(
            before + seq![header] + lines.map_values(|line: LineModel| written_line(line)),
        ) == Ok::<HunkState, Seq<char>>(
            HunkState {
                done: state.all(),
                current: Some(HunkModel { old_start: old_start(header), lines }),
            },
        ),
    decreases lines.len(),
{
    let write = |line: LineModel| written_line(line);
    let all = before + seq![header] + lines.map_values(write);
    if lines.len() == 0 {
        assert(all =~= before.push(header));
        assert(all.drop_last() =~= before);
        assert(lines =~= Seq::<LineModel>::empty());
    } else {
        let head = lines.drop_last();
        lemma_read_hunk(before, state, header, head);
        assert(all.drop_last() =~= before + seq![header] + head.map_values(write));
        assert(all.last() == written_line(lines.last()));
        lemma_written_line(lines.last());
        assert(head.push(lines.last()) =~= lines);
    }
}

proof fn lemma_written_hunks(hunks: Seq<(Seq<char>, Seq<LineModel>)>) -> (state: HunkState)
    requires
        forall|k: int| 0 <= k < hunks.len() ==> begins_with((#[trigger] hunks[k]).0, "@@"@),
    ensures
        read_lines(written_hunks(hunks)) == Ok::<HunkState, Seq<char>>(state),
        state.all() == Seq::new(
            hunks.len(),
            |k: int| HunkModel { old_start: old_start(hunks[k].0), lines: hunks[k].1 },
        ),
    decreases hunks.len(),
{
    let models = Seq::new(
        hunks.len(),
        |k: int| HunkModel { old_start: old_start(hunks[k].0), lines: hunks[k].1 },
    );
    if hunks.len() == 0 {
        let state = HunkState { done: Seq::empty(), current: None };
        assert(state.all() =~= models);
        state
    } else {
        let head = hunks.drop_last();
        assert forall|k: int| 0 <= k < head.len() implies begins_with(
            (#[trigger] head[k]).0,
            "@@"@,
        ) by {
            assert(head[k] == hunks[k]);
        }
        let state = lemma_written_hunks(head);
        let last = hunks.last();
        assert(begins_with(hunks[hunks.len() - 1].0, "@@"@));
        lemma_read_hunk(written_hunks(head), state, last.0, last.1);
        let next = HunkState {
            done: state.all(),
            current: Some(HunkModel { old_start: old_start(last.0), lines: last.1 }),
        };
        assert(next.all() =~= models);
        next
    }
}

/// Hunks are read as they were written: all of them, in their order, each with all its lines.
pub proof fn law_written_hunks_are_read_back(hunks: Seq<(Seq<char>, Seq<LineModel>)>)
    requires
        hunks.len() > 0,
        forall|k: int| 0 <= k < hunks.len() ==> begins_with((#[trigger] hunks[k]).0, "@@"@),
    ensures
        hunks_of(written_hunks(hunks)) == Ok::<Seq<HunkModel>, Seq<char>>(
            Seq::new(
                hunks.len(),
                |k: int| HunkModel { old_start: old_start(hunks[k].0), lines: hunks[k].1 },
            ),
        ),
{
    let state = lemma_written_hunks(hunks);
}

proof fn lemma_digits_end(s: Seq<char>, i: int, end: int)
    requires
        0 <= i <= end <= s.len(),
        forall|k: int| i <= k < end ==> is_digit(#[trigger] s[k]),
        end < s.len() ==> !is_digit(s[end]),
    ensures
        digits_end(s, i) == end,
    decreases end - i,
{
    if i < end {
        assert(is_digit(s[i]));
        lemma_digits_end(s, i + 1, end);
    }
}

/// The header of a hunk names the line that is written in it.
pub proof fn law_headers_name_their_line(n: usize, rest: Seq<char>)
    requires
        rest.len() > 0 ==> !is_digit(rest[0]),
    ensures
        old_start("@@ -"@ + decimal(n as nat) + rest) == Some(n),
        begins_with("@@ -"@ + decimal(n as nat) + rest, "@@"@),
{
    reveal_strlit("@@ -");
    reveal_strlit("@@");
    let digits = decimal(n as nat);
    law_numbers_are_written_without_loss(n as nat);
    let header = "@@ -"@ + digits + rest;
    assert(header.take(2) =~= "@@"@);
    lemma_next_char(header, '-', 0);
    assert(header[3] == '-');
    let dash = next_char(header, '-', 0);
    assert(header[0] == '@' && header[1] == '@' && header[2] == ' ');
    assert(dash == 3);
    let end = 4 + digits.len() as int;
    assert forall|k: int| 4 <= k < end implies is_digit(#[trigger] header[k]) by {
        assert(header[k] == digits[k - 4]);
        assert(all_digits(digits));
    }
    lemma_digits_end(header, 4, end);
    assert(header.subrange(4, end) =~= digits);
}

// ---- patches with directives ----

proof fn lemma_section_end_is(lines: Seq<Seq<char>>, i: int, end: int)
    requires
        0 <= i <= end < lines.len(),
        forall|k: int|
            i <= k < end ==> !is_header(#[trigger] lines[k]) && lines[k] != "*** End Patch"@,
        is_header(lines[end]) || lines[end] == "*** End Patch"@,
    ensures
        section_end(lines, i) == end,
    decreases end - i,
{
    if i < end {
        assert(!is_header(lines[i]));
        lemma_section_end_is(lines, i + 1, end);
    }
}

/// What stands before an operation of a patch and behind it.
pub open spec fn followed_by(
    all: Result<Seq<OperationModel>, Seq<char>>,
    first: OperationModel,
    rest: Result<Seq<OperationModel>, Seq<char>>,
) -> bool {
    match rest {
        Ok(operations) => all matches Ok(list) && list.len() == operations.len() + 1 && list[0]
            == first && list.skip(1) == operations,
        Err(error) => all == Err::<Seq<OperationModel>, Seq<char>>(error),
    }
}

proof fn lemma_directive_heads(line: Seq<char>, path: Seq<char>, kind: Seq<char>)
    requires
        kind == "*** Add File: "@ || kind == "*** Delete File: "@ || kind == "*** Update File: "@,
        line == kind + path,
    ensures
        !is_blank(line),
        trimmed(line) != "*** End Patch"@,
        is_header(line),
        begins_with(line, kind),
        line.skip(kind.len() as int) == path,
        kind == "*** Delete File: "@ || kind == "*** Update File: "@ ==> !begins_with(
            line,
            "*** Add File: "@,
        ),
        kind == "*** Update File: "@ ==> !begins_with(line, "*** Delete File: "@),
{
    reveal_strlit("*** Add File: ");
    reveal_strlit("*** Delete File: ");
    reveal_strlit("*** Update File: ");
    reveal_strlit("*** End Patch");
    assert(line.take(kind.len() as int) =~= kind);
    assert(line.skip(kind.len() as int) =~= path);
    assert(line[0] == '*');
    assert(!crate::text::is_space(line[0]));
    assert(line[4] == kind[4]);
    if trimmed(line) == "*** End Patch"@ {
        lemma_trimmed_begins(line);
        assert(trimmed(line)[4] == line[4]);
        assert("*** End Patch"@[4] == 'E');
    }
    if begins_with(line, "*** Add File: "@) {
        assert(line.take(14)[4] == line[4]);
    }
    if begins_with(line, "*** Delete File: "@) {
        assert(line.take(17)[4] == line[4]);
    }
}

/// A text that begins with no white space begins as it does when it is trimmed.
proof fn lemma_trimmed_begins(line: Seq<char>)
    requires
        line.len() > 0,
        !crate::text::is_space(line[0]),
    ensures
        trimmed(line).len() <= line.len(),
        trimmed(line) == line.take(trimmed(line).len() as int),
    decreases line.len(),
{
    assert(crate::text::trim_start(line) == line);
    lemma_trim_end_begins(line);
}

proof fn lemma_trim_end_begins(line: Seq<char>)
    ensures
        crate::text::trim_end(line).len() <= line.len(),
        crate::text::trim_end(line) == line.take(crate::text::trim_end(line).len() as int),
    decreases line.len(),
{
    if line.len() > 0 && crate::text::is_space(line.last()) {
        lemma_trim_end_begins(line.drop_last());
        let end = crate::text::trim_end(line);
        assert(line.take(end.len() as int) =~= line.drop_last().take(end.len() as int));
    } else {
        assert(line.take(line.len() as int) =~= line);
    }
}

/// A patch that adds a file gives it the path and all the lines that are written in it, without
/// the sign in front of them; what is written about other files follows.
pub proof fn law_added_files_have_all_their_lines(
    lines: Seq<Seq<char>>,
    i: int,
    path: Seq<char>,
    content: Seq<Seq<char>>,
)
    requires
        0 <= i && i + 1 + content.len() < lines.len(),
        lines[i] == "*** Add File: "@ + path,
        forall|k: int| 0 <= k < content.len() ==> #[trigger] lines[i + 1 + k] == "+"@ + content[k],
        is_header(lines[i + 1 + content.len()]) || lines[i + 1 + content.len()]
            == "*** End Patch"@,
    ensures
        followed_by(
            directives_from(lines, i),
            OperationModel::Add { path: trimmed(path), lines: content },
            directives_from(lines, i + 1 + content.len()),
        ),
{
    let end = i + 1 + content.len();
    lemma_directive_heads(lines[i], path, "*** Add File: "@);
    assert forall|k: int| i + 1 <= k < end implies !is_header(#[trigger] lines[k]) && lines[k]
        != "*** End Patch"@ by {
        assert(lines[i + 1 + (k - i - 1)] == "+"@ + content[k - i - 1]);
        lemma_plus_line(lines[k], content[k - i - 1]);
    }
    lemma_section_end_is(lines, i + 1, end);
    let body = lines.subrange(i + 1, end);
    assert forall|k: int| 0 <= k < content.len() implies #[trigger] body[k] == "+"@ + content[k] by {
        assert(body[k] == lines[i + 1 + k]);
    }
    lemma_added_content(body, content);
    let first = OperationModel::Add { path: trimmed(path), lines: content };
    if let Ok(operations) = directives_from(lines, end) {
        assert((seq![first] + operations).skip(1) =~= operations);
    }
}

proof fn lemma_plus_line(line: Seq<char>, text: Seq<char>)
    requires
        line == "+"@ + text,
    ensures
        !is_header(line),
        line != "*** End Patch"@,
        begins_with(line, "+"@),
        line.skip(1) == text,
{
    reveal_strlit("+");
    reveal_strlit("*** Add File: ");
    reveal_strlit("*** Delete File: ");
    reveal_strlit("*** Update File: ");
    reveal_strlit("*** End Patch");
    assert(line[0] == '+');
    assert(line.take(1) =~= "+"@);
    assert(line.skip(1) =~= text);
    if begins_with(line, "*** Add File: "@) {
        assert(line.take(14)[0] == line[0]);
    }
    if begins_with(line, "*** Delete File: "@) {
        assert(line.take(17)[0] == line[0]);
    }
    if begins_with(line, "*** Update File: "@) {
        assert(line.take(17)[0] == line[0]);
    }
    assert("*** End Patch"@[0] == '*');
}

proof fn lemma_added_content(body: Seq<Seq<char>>, content: Seq<Seq<char>>)
    requires
        body.len() == content.len(),
        forall|k: int| 0 <= k < content.len() ==> #[trigger] body[k] == "+"@ + content[k],
    ensures
        added_content(body) == Ok::<Seq<Seq<char>>, Seq<char>>(content),
    decreases body.len(),
{
    if body.len() == 0 {
        assert(content =~= Seq::<Seq<char>>::empty());
    } else {
        let head = content.drop_last();
        assert forall|k: int| 0 <= k < head.len() implies #[trigger] body.drop_last()[k] == "+"@
            + head[k] by {
            assert(body.drop_last()[k] == body[k]);
        }
        lemma_added_content(body.drop_last(), head);
        assert(body[body.len() - 1] == "+"@ + content[content.len() - 1]);
        lemma_plus_line(body.last(), content.last());
        assert(head.push(content.last()) =~= content);
    }
}

/// A patch that deletes a file names it; what is written about other files follows.
pub proof fn law_deleted_files_are_named(lines: Seq<Seq<char>>, i: int, path: Seq<char>)
    requires
        0 <= i < lines.len(),
        lines[i] == "*** Delete File: "@ + path,
    ensures
        followed_by(
            directives_from(lines, i),
            OperationModel::Delete { path: trimmed(path), hunks: None },
            directives_from(lines, i + 1),
        ),
{
    lemma_directive_heads(lines[i], path, "*** Delete File: "@);
    let first = OperationModel::Delete { path: trimmed(path), hunks: None };
    if let Ok(operations) = directives_from(lines, i + 1) {
        assert((seq![first] + operations).skip(1) =~= operations);
    }
}

proof fn lemma_no_moves(body: Seq<Seq<char>>)
    requires
        forall|k: int| 0 <= k < body.len() ==> !begins_with(#[trigger] body[k], "*** Move to: "@),
    ensures
        hunk_text(body) == body,
        move_target(body) is None,
    decreases body.len(),
{
    if body.len() > 0 {
        let head = body.drop_last();
        assert forall|k: int| 0 <= k < head.len() implies !begins_with(
            #[trigger] head[k],
            "*** Move to: "@,
        ) by {
            assert(head[k] == body[k]);
        }
        lemma_no_moves(head);
        assert(!begins_with(body[body.len() - 1], "*** Move to: "@));
        assert(head.push(body.last()) =~= body);
    } else {
        assert(hunk_text(body) =~= body);
    }
}

/// A patch that changes a file has all the hunks that are written in it, and moves the file where a
/// line in front of them says so.
pub proof fn law_changed_files_have_all_their_hunks(
    lines: Seq<Seq<char>>,
    i: int,
    path: Seq<char>,
    target: Option<Seq<char>>,
    body: Seq<Seq<char>>,
    hunks: Seq<HunkModel>,
)
    requires
        ({
            let moves = if target is Some {
                seq!["*** Move to: "@ + target->0]
            } else {
                Seq::<Seq<char>>::empty()
            };
            let end = i + 1 + moves.len() + body.len();
            &&& 0 <= i && end < lines.len()
            &&& lines[i] == "*** Update File: "@ + path
            &&& lines.subrange(i + 1, end) == moves + body
            &&& forall|k: int|
                i + 1 <= k < end ==> !is_header(#[trigger] lines[k]) && lines[k]
                    != "*** End Patch"@
            &&& forall|k: int|
                0 <= k < body.len() ==> !begins_with(#[trigger] body[k], "*** Move to: "@)
            &&& hunks_of(body) == Ok::<Seq<HunkModel>, Seq<char>>(hunks)
            &&& is_header(lines[end]) || lines[end] == "*** End Patch"@
        }),
    ensures
        followed_by(
            directives_from(lines, i),
            OperationModel::Update {
                path: trimmed(path),
                move_to: match target {
                    Some(target) => Some(trimmed(target)),
                    None => None,
                },
                hunks,
            },
            directives_from(
                lines,
                i + 1 + (if target is Some {
                    1int
                } else {
                    0int
                }) + body.len(),
            ),
        ),
{
    let moves = if target is Some {
        seq!["*** Move to: "@ + target->0]
    } else {
        Seq::<Seq<char>>::empty()
    };
    let end = i + 1 + moves.len() + body.len();
    lemma_directive_heads(lines[i], path, "*** Update File: "@);
    lemma_section_end_is(lines, i + 1, end);
    let all = lines.subrange(i + 1, end);
    lemma_no_moves(body);
    if target is Some {
        lemma_one_move("*** Move to: "@ + target->0, target->0, body);
    } else {
        assert(all =~= body);
    }
    let first = OperationModel::Update {
        path: trimmed(path),
        move_to: match target {
            Some(target) => Some(trimmed(target)),
            None => None,
        },
        hunks,
    };
    if let Ok(operations) = directives_from(lines, end) {
        assert((seq![first] + operations).skip(1) =~= operations);
    }
}

proof fn lemma_one_move(line: Seq<char>, target: Seq<char>, body: Seq<Seq<char>>)
    requires
        line == "*** Move to: "@ + target,
        forall|k: int| 0 <= k < body.len() ==> !begins_with(#[trigger] body[k], "*** Move to: "@),
    ensures
        hunk_text(seq![line] + body) == body,
        move_target(seq![line] + body) == Some(trimmed(target)),
    decreases body.len(),
{
    let all = seq![line] + body;
    if body.len() == 0 {
        let front = "*** Move to: "@;
        assert(line.take(front.len() as int) =~= front);
        assert(line.skip(front.len() as int) =~= target);
        assert(all.drop_last() =~= Seq::<Seq<char>>::empty());
        assert(all.last() == line);
        assert(hunk_text(all.drop_last()) =~= body);
        assert(begins_with(line, front));
        assert(hunk_text(all) =~= body);
    } else {
        let head = body.drop_last();
        assert forall|k: int| 0 <= k < head.len() implies !begins_with(
            #[trigger] head[k],
            "*** Move to: "@,
        ) by {
            assert(head[k] == body[k]);
        }
        lemma_one_move(line, target, head);
        assert(all.drop_last() =~= seq![line] + head);
        assert(all.last() == body.last());
        assert(!begins_with(body[body.len() - 1], "*** Move to: "@));
        assert(head.push(body.last()) =~= body);
    }
}

/// A patch ends where it says so, and not before: lines without text are passed over, and one that
/// does not end is refused.
pub proof fn law_patches_end_where_they_say_so(lines: Seq<Seq<char>>, i: int)
    requires
        0 <= i < lines.len(),
    ensures
        trimmed(lines[i]) == "*** End Patch"@ ==> directives_from(lines, i) == Ok::<
            Seq<OperationModel>,
            Seq<char>,
        >(Seq::empty()),
        is_blank(lines[i]) ==> directives_from(lines, i) == directives_from(lines, i + 1),
        directives_from(lines, lines.len() as int) is Err,
{
    if trimmed(lines[i]) == "*** End Patch"@ {
        reveal_strlit("*** End Patch");
        crate::text::lemma_blank_trim(lines[i]);
    }
}

// ---- unified patches ----

proof fn lemma_body_end_is(lines: Seq<Seq<char>>, i: int, end: int)
    requires
        0 <= i <= end <= lines.len(),
        forall|k: int| i <= k < end ==> !begins_with(#[trigger] lines[k], "--- "@),
        end < lines.len() ==> begins_with(lines[end], "--- "@),
    ensures
        body_end(lines, i) == end,
    decreases end - i,
{
    if i < end {
        assert(!begins_with(lines[i], "--- "@));
        lemma_body_end_is(lines, i + 1, end);
    }
}

/// The part of a unified patch about one file has all the hunks that are written in it. It changes
/// the file, or adds it where there was none, or deletes it where there is none any more; what is
/// written about other files follows.
pub proof fn law_unified_patches_have_all_their_hunks(
    lines: Seq<Seq<char>>,
    i: int,
    end: int,
    hunks: Seq<HunkModel>,
)
    requires
        0 <= i && i + 2 <= end <= lines.len(),
        begins_with(lines[i], "--- "@),
        begins_with(lines[i + 1], "+++ "@),
        forall|k: int| i + 2 <= k < end ==> !begins_with(#[trigger] lines[k], "--- "@),
        end < lines.len() ==> begins_with(lines[end], "--- "@),
        hunks_of(lines.subrange(i + 2, end)) == Ok::<Seq<HunkModel>, Seq<char>>(hunks),
    ensures
        ({
            let before = path_in(lines[i].skip(4));
            let after = path_in(lines[i + 1].skip(4));
            let all = unified_from(lines, i);
            let rest = unified_from(lines, end);
            &&& before != "/dev/null"@ && after != "/dev/null"@ ==> followed_by(
                all,
                OperationModel::Update { path: bare_path(before), move_to: None, hunks },
                rest,
            )
            &&& before != "/dev/null"@ && after == "/dev/null"@ ==> followed_by(
                all,
                OperationModel::Delete { path: bare_path(before), hunks: Some(hunks) },
                rest,
            )
            &&& before == "/dev/null"@ ==> match only_added(hunks) {
                Ok(content) => followed_by(
                    all,
                    OperationModel::Add { path: bare_path(after), lines: content },
                    rest,
                ),
                Err(_) => all is Err,
            }
        }),
{
    lemma_body_end_is(lines, i + 2, end);
    let before = path_in(lines[i].skip(4));
    let after = path_in(lines[i + 1].skip(4));
    if let Ok(operations) = unified_from(lines, end) {
        assert forall|first: OperationModel| (#[trigger] (seq![first] + operations)).skip(1)
            == operations by {
            assert((seq![first] + operations).skip(1) =~= operations);
        }
        if before != "/dev/null"@ && after != "/dev/null"@ {
            let first = OperationModel::Update { path: bare_path(before), move_to: None, hunks };
            assert((seq![first] + operations).skip(1) =~= operations);
        } else if before != "/dev/null"@ {
            let first = OperationModel::Delete { path: bare_path(before), hunks: Some(hunks) };
            assert((seq![first] + operations).skip(1) =~= operations);
        } else if let Ok(content) = only_added(hunks) {
            let first = OperationModel::Add { path: bare_path(after), lines: content };
            assert((seq![first] + operations).skip(1) =~= operations);
        }
    }
}

/// A line in front of the first file of a unified patch means nothing.
pub proof fn law_lines_before_a_file_mean_nothing(lines: Seq<Seq<char>>, i: int)
    requires
        0 <= i < lines.len(),
        !begins_with(lines[i], "--- "@),
    ensures
        unified_from(lines, i) == unified_from(lines, i + 1),
{
}

/// A path loses the letter that stands in front of it in a unified patch, and nothing else.
pub proof fn law_paths_lose_their_letter(path: Seq<char>)
    ensures
        bare_path("a/"@ + path) == path,
        bare_path("b/"@ + path) == path,
        path.len() < 2 || path[1] != '/' ==> bare_path(path) == path,
{
    reveal_strlit("a/");
    reveal_strlit("b/");
    assert(("a/"@ + path).take(2) =~= "a/"@);
    assert(("b/"@ + path).take(2) =~= "b/"@);
    assert(("a/"@ + path).skip(2) =~= path);
    assert(("b/"@ + path).skip(2) =~= path);
    if begins_with(path, "a/"@) {
        assert(path.take(2)[1] == path[1]);
    }
    if begins_with(path, "b/"@) {
        assert(path.take(2)[1] == path[1]);
    }
}

// ---- line endings ----

/// The endings of the lines of a patch do not matter: it is read as if each were a line feed, and
/// nothing but the endings is touched.
pub proof fn law_line_endings_do_not_matter(text: Seq<char>, i: int)
    ensures
        (forall|k: int| 0 <= k < text.len() ==> #[trigger] text[k] != '\r') ==> unified_newlines(
            text,
        ) == text,
        0 <= i < unified_newlines(text).len() ==> unified_newlines(text)[i] != '\r',
        unified_newlines(text).filter(|c: char| c != '\n') == text.filter(
            |c: char| c != '\n' && c != '\r',
        ),
    decreases text.len(),
{
    reveal(Seq::filter);
    let plain = |c: char| c != '\n';
    let visible = |c: char| c != '\n' && c != '\r';
    if text.len() == 0 {
        assert(unified_newlines(text) =~= text);
        assert(unified_newlines(text).filter(plain) =~= text.filter(visible));
    } else {
        let head = text.drop_last();
        let before = unified_newlines(head);
        let after = unified_newlines(text);
        law_line_endings_do_not_matter(head, i);
        if after.len() > before.len() {
            assert(after.drop_last() =~= before);
        }
        assert(after.filter(plain) =~= text.filter(visible));
        if forall|k: int| 0 <= k < text.len() ==> #[trigger] text[k] != '\r' {
            assert forall|k: int| 0 <= k < head.len() implies #[trigger] head[k] != '\r' by {
                assert(head[k] == text[k]);
            }
            assert(text[text.len() - 1] != '\r');
            if text.len() > 1 {
                assert(text[text.len() - 2] != '\r');
            }
            assert(after =~= text);
        }
    }
}

/// A patch is read by its lines: in the form with directives where its first line says so, and in
/// the unified form else. One with a line that is too long is refused.
pub proof fn law_patches_are_read_by_their_first_line(patch: Seq<char>, i: int)
    ensures
        ({
            let lines = split_on(unified_newlines(patch), '\n');
            let short = forall|k: int|
                0 <= k < lines.len() ==> encode_utf8(#[trigger] lines[k]).len() <= MAX_LINE_BYTES;
            &&& short && trimmed(lines[0]) == "*** Begin Patch"@ ==> operations_of(patch)
                == directives_from(lines, 1)
            &&& short && trimmed(lines[0]) != "*** Begin Patch"@ ==> match unified_from(
                lines,
                0,
            ) {
                Ok(operations) => operations.len() > 0 ==> operations_of(patch) == Ok::<
                    Seq<OperationModel>,
                    Seq<char>,
                >(operations),
                Err(error) => operations_of(patch) == Err::<Seq<OperationModel>, Seq<char>>(error),
            }
            &&& short && trimmed(lines[0]) != "*** Begin Patch"@ && (unified_from(
                lines,
                0,
            ) matches Ok(operations) && operations.len() == 0) ==> operations_of(patch) is Err
            &&& 0 <= i < lines.len() && encode_utf8(lines[i]).len() > MAX_LINE_BYTES
                ==> operations_of(patch) is Err
        }),
{
}

} // verus!
