//! Applying the hunks of a patch to the text of a file.

use vstd::prelude::*;
use vstd::utf8::encode_utf8;

use super::limits::MAX_EDIT_BYTES;
use super::patch::{Hunk, HunkModel, Line, LineModel};
use crate::deep::{deep, group_deep};
use crate::number::{decimal, next_number_text, number_text};
use crate::text::{
    byte_len, join, joined, next_char, lemma_next_char, same, split, split_from, split_on,
    substring, without_return,
};

verus! {

broadcast use group_deep;

// ---- lines ----

/// The lines of a file. A carriage return at the end of a line does not belong to it.
pub open spec fn file_lines(text: Seq<char>) -> Seq<Seq<char>> {
    let parts = split_on(text, '\n').map_values(|line: Seq<char>| without_return(line));
    if ends_with_newline(text) {
        parts.drop_last()
    } else {
        parts
    }
}

/// Whether the last line of a text is ended.
pub open spec fn ends_with_newline(text: Seq<char>) -> bool {
    text.len() > 0 && text.last() == '\n'
}

/// The text of lines.
pub open spec fn lines_text(lines: Seq<Seq<char>>, trailing_newline: bool) -> Seq<char> {
    if trailing_newline {
        joined(lines, "\n"@).push('\n')
    } else {
        joined(lines, "\n"@)
    }
}

fn drop_return(line: &String) -> (r: String)
    ensures
        r@ == without_return(line@),
{
    let v = crate::text::chars_of(line);
    let n = v.len();
    if n > 0 && v[n - 1] == '\r' {
        let r = substring(&v, 0, n - 1);
        proof {
            assert(r@ =~= line@.drop_last());
        }
        r
    } else {
        line.clone()
    }
}

/// The lines of a file, and whether the last one is ended.
pub fn split_text(text: &str) -> (r: (Vec<String>, bool))
    ensures
        deep(r.0@) == file_lines(text@),
        r.1 == ends_with_newline(text@),
{
    let parts = split(text, '\n');
    let v = crate::text::chars_of(text);
    let trailing_newline = v.len() > 0 && v[v.len() - 1] == '\n';
    let ghost models = split_on(text@, '\n').map_values(|line: Seq<char>| without_return(line));
    let n: usize = if trailing_newline {
        parts.len() - 1
    } else {
        parts.len()
    };
    let mut lines: Vec<String> = Vec::new();
    let mut i: usize = 0;
    while i < n
        invariant
            i <= n <= parts@.len(),
            deep(parts@) == split_on(text@, '\n'),
            models == split_on(text@, '\n').map_values(|line: Seq<char>| without_return(line)),
            lines@.len() == i,
            forall|j: int| 0 <= j < i ==> #[trigger] deep(lines@)[j] == models[j],
        decreases n - i,
    {
        let line = drop_return(&parts[i]);
        proof {
            assert(deep(parts@)[i as int] == parts@[i as int]@);
        }
        let ghost before = deep(lines@);
        lines.push(line);
        proof {
            assert(deep(lines@) == before.push(line@));
        }
        i += 1;
    }
    proof {
        assert(deep(lines@) =~= file_lines(text@));
    }
    (lines, trailing_newline)
}

/// The text of lines.
pub fn join_lines(lines: &[String], trailing_newline: bool) -> (r: String)
    ensures
        r@ == lines_text(deep(lines@), trailing_newline),
{
    let mut output = join(lines, "\n");
    if trailing_newline {
        output.push('\n');
    }
    output
}

// ---- one hunk ----

/// The lines that a hunk expects in the file.
pub open spec fn old_lines(lines: Seq<LineModel>) -> Seq<Seq<char>>
    decreases lines.len(),
{
    if lines.len() == 0 {
        Seq::empty()
    } else {
        let head = old_lines(lines.drop_last());
        match lines.last() {
            LineModel::Context(text) => head.push(text),
            LineModel::Remove(text) => head.push(text),
            LineModel::Add(_) => head,
        }
    }
}

/// The lines that a hunk leaves in the file.
pub open spec fn new_lines(lines: Seq<LineModel>) -> Seq<Seq<char>>
    decreases lines.len(),
{
    if lines.len() == 0 {
        Seq::empty()
    } else {
        let head = new_lines(lines.drop_last());
        match lines.last() {
            LineModel::Context(text) => head.push(text),
            LineModel::Remove(_) => head,
            LineModel::Add(text) => head.push(text),
        }
    }
}

/// Whether `part` stands in `lines` at `i`.
pub open spec fn stands_at(lines: Seq<Seq<char>>, part: Seq<Seq<char>>, i: int) -> bool {
    0 <= i && i + part.len() <= lines.len() && lines.subrange(i, i + part.len()) == part
}

/// The first place at or behind `from` where `part` stands in `lines`.
pub open spec fn first_place(
    lines: Seq<Seq<char>>,
    part: Seq<Seq<char>>,
    from: int,
) -> Option<int>
    decreases lines.len() - from,
{
    if from >= lines.len() {
        None
    } else if stands_at(lines, part, from) {
        Some(from)
    } else {
        first_place(lines, part, from + 1)
    }
}

/// The smaller of two numbers.
pub open spec fn lesser(a: int, b: int) -> int {
    if a <= b {
        a
    } else {
        b
    }
}

/// Where a hunk is looked for first: at the line that it names, else behind the last hunk.
pub open spec fn expected_place(old_start: Option<usize>, cursor: int) -> int {
    match old_start {
        Some(n) => if n > 0 {
            n - 1
        } else {
            0
        },
        None => cursor,
    }
}

/// Where a hunk applies: at the place where it is expected, or else at the first place behind
/// the last hunk where its lines stand. A hunk that expects no lines applies where it is
/// expected.
pub open spec fn hunk_place(
    lines: Seq<Seq<char>>,
    part: Seq<Seq<char>>,
    expected: int,
    cursor: int,
) -> Option<int> {
    let first = lesser(expected, lines.len() as int);
    if part.len() == 0 || stands_at(lines, part, first) {
        Some(first)
    } else {
        first_place(lines, part, cursor)
    }
}

/// The lines with the `n` lines from `start` on replaced.
pub open spec fn replaced(
    lines: Seq<Seq<char>>,
    start: int,
    n: int,
    part: Seq<Seq<char>>,
) -> Seq<Seq<char>> {
    lines.take(start) + part + lines.skip(start + n)
}

/// The lines of a file and the place behind the last hunk, after one more hunk.
pub open spec fn hunk_applied(
    lines: Seq<Seq<char>>,
    cursor: int,
    hunk: HunkModel,
) -> Result<(Seq<Seq<char>>, int), Seq<char>> {
    let old = old_lines(hunk.lines);
    let new = new_lines(hunk.lines);
    match hunk_place(lines, old, expected_place(hunk.old_start, cursor), cursor) {
        Some(start) => Ok((replaced(lines, start, old.len() as int, new), start + new.len())),
        None => Err(
            "Unable to find patch context near line "@ + decimal(
                match hunk.old_start {
                    Some(n) => expected_place(hunk.old_start, cursor) as nat,
                    None => (cursor + 1) as nat,
                },
            ),
        ),
    }
}

/// The lines of a file and the place behind the last hunk, after all hunks.
pub open spec fn hunks_applied(lines: Seq<Seq<char>>, hunks: Seq<HunkModel>) -> Result<
    (Seq<Seq<char>>, int),
    Seq<char>,
>
    decreases hunks.len(),
{
    if hunks.len() == 0 {
        Ok((lines, 0))
    } else {
        match hunks_applied(lines, hunks.drop_last()) {
            Ok((now, cursor)) => hunk_applied(now, cursor, hunks.last()),
            Err(error) => Err(error),
        }
    }
}

/// The text of a file after all hunks.
pub open spec fn patched(original: Seq<char>, hunks: Seq<HunkModel>) -> Result<
    Seq<char>,
    Seq<char>,
> {
    match hunks_applied(file_lines(original), hunks) {
        Ok((lines, cursor)) => {
            let output = lines_text(lines, ends_with_newline(original));
            if encode_utf8(output).len() > MAX_EDIT_BYTES {
                Err("Patched file exceeds the 16 MiB limit"@)
            } else {
                Ok(output)
            }
        },
        Err(error) => Err(error),
    }
}

proof fn lemma_hunk_error_stays(lines: Seq<Seq<char>>, hunks: Seq<HunkModel>, i: int)
    requires
        0 <= i <= hunks.len(),
        hunks_applied(lines, hunks.take(i)) is Err,
    ensures
        hunks_applied(lines, hunks) == hunks_applied(lines, hunks.take(i)),
    decreases hunks.len() - i,
{
    if i == hunks.len() {
        assert(hunks.take(i) =~= hunks);
    } else {
        assert(hunks.take(i + 1).drop_last() =~= hunks.take(i));
        lemma_hunk_error_stays(lines, hunks, i + 1);
    }
}

pub proof fn lemma_first_place(lines: Seq<Seq<char>>, part: Seq<Seq<char>>, from: int)
    requires
        0 <= from,
    ensures
        first_place(lines, part, from) matches Some(i) ==> from <= i && stands_at(lines, part, i),
    decreases lines.len() - from,
{
    if from < lines.len() && !stands_at(lines, part, from) {
        lemma_first_place(lines, part, from + 1);
    }
}

/// Whether `part` stands in `lines` at `i`.
fn check_place(lines: &[String], part: &[String], i: usize) -> (r: bool)
    requires
        i <= lines@.len(),
    ensures
        r == stands_at(deep(lines@), deep(part@), i as int),
{
    let n = lines.len();
    if part.len() > n - i {
        return false;
    }
    let mut k: usize = 0;
    while k < part.len()
        invariant
            k <= part@.len(),
            i + part@.len() <= lines@.len(),
            n == lines@.len(),
            forall|j: int| 0 <= j < k ==> deep(lines@)[i + j] == #[trigger] deep(part@)[j],
        decreases part@.len() - k,
    {
        if !same(&lines[i + k], &part[k]) {
            proof {
                let sub = deep(lines@).subrange(i as int, i + part@.len());
                assert(sub[k as int] == lines@[i + k]@);
                assert(deep(part@)[k as int] == part@[k as int]@);
                assert(sub != deep(part@));
            }
            return false;
        }
        k += 1;
    }
    proof {
        assert(deep(lines@).subrange(i as int, i + part@.len()) =~= deep(part@));
    }
    true
}

/// Where a hunk applies.
pub fn find_hunk_start(
    lines: &[String],
    part: &[String],
    expected: usize,
    cursor: usize,
) -> (r: Option<usize>)
    requires
        cursor <= lines@.len(),
    ensures
        match r {
            Some(i) => hunk_place(deep(lines@), deep(part@), expected as int, cursor as int)
                == Some(i as int) && i + part@.len() <= lines@.len() && stands_at(
                deep(lines@),
                deep(part@),
                i as int,
            ),
            None => hunk_place(
                deep(lines@),
                deep(part@),
                expected as int,
                cursor as int,
            ) is None,
        },
{
    let n = lines.len();
    let first: usize = if expected <= n {
        expected
    } else {
        n
    };
    if part.len() == 0 {
        proof {
            assert(deep(lines@).subrange(first as int, first as int) =~= deep(part@));
        }
        return Some(first);
    }
    if check_place(lines, part, first) {
        return Some(first);
    }
    let mut i: usize = cursor;
    while i < n
        invariant
            cursor <= i <= n,
            n == lines@.len(),
            part@.len() > 0,
            first <= n,
            first == lesser(expected as int, n as int),
            !stands_at(deep(lines@), deep(part@), first as int),
            first_place(deep(lines@), deep(part@), cursor as int) == first_place(
                deep(lines@),
                deep(part@),
                i as int,
            ),
        decreases n - i,
    {
        if check_place(lines, part, i) {
            return Some(i);
        }
        i += 1;
    }
    None
}

/// The lines that a hunk expects, and those that it leaves.
fn hunk_sides(hunk: &Hunk) -> (r: (Vec<String>, Vec<String>))
    ensures
        deep(r.0@) == old_lines(deep(hunk.lines@)),
        deep(r.1@) == new_lines(deep(hunk.lines@)),
{
    let ghost models = deep(hunk.lines@);
    let mut old: Vec<String> = Vec::new();
    let mut new: Vec<String> = Vec::new();
    let mut i: usize = 0;
    proof {
        assert(models.take(0) =~= Seq::<LineModel>::empty());
        assert(deep(old@) =~= Seq::<Seq<char>>::empty());
    }
    while i < hunk.lines.len()
        invariant
            i <= hunk.lines@.len(),
            models == deep(hunk.lines@),
            deep(old@) == old_lines(models.take(i as int)),
            deep(new@) == new_lines(models.take(i as int)),
        decreases hunk.lines@.len() - i,
    {
        proof {
            assert(models.take(i + 1).drop_last() =~= models.take(i as int));
            assert(models.take(i + 1).last() == hunk.lines@[i as int].deep_view());
        }
        match &hunk.lines[i] {
            Line::Context(text) => {
                old.push(text.clone());
                new.push(text.clone());
            },
            Line::Remove(text) => {
                old.push(text.clone());
            },
            Line::Add(text) => {
                new.push(text.clone());
            },
        }
        i += 1;
    }
    proof {
        assert(models.take(hunk.lines@.len() as int) =~= models);
    }
    (old, new)
}

/// The lines with the `n` lines from `start` on replaced by `part`.
fn replace_lines(lines: Vec<String>, start: usize, n: usize, part: Vec<String>) -> (r: Vec<String>)
    requires
        start + n <= lines@.len(),
    ensures
        deep(r@) == replaced(deep(lines@), start as int, n as int, deep(part@)),
        r@.len() == lines@.len() - n + part@.len(),
{
    let mut head = lines;
    let len = head.len();
    let ghost all = deep(lines@);
    let mut tail = head.split_off(start + n);
    head.truncate(start);
    let mut middle = part;
    head.append(&mut middle);
    head.append(&mut tail);
    proof {
        assert(deep(head@) =~= replaced(all, start as int, n as int, deep(part@)));
    }
    head
}

/// The text of a file after all hunks.
pub fn apply_hunks(original: &str, hunks: &[Hunk]) -> (r: Result<String, String>)
    ensures
        match r {
            Ok(text) => patched(original@, deep(hunks@)) == Ok::<Seq<char>, Seq<char>>(text@),
            Err(error) => patched(original@, deep(hunks@)) == Err::<Seq<char>, Seq<char>>(error@),
        },
{
    let ghost models = deep(hunks@);
    let ghost start_lines = file_lines(original@);
    let (first_lines, trailing_newline) = split_text(original);
    let mut lines = first_lines;
    let mut cursor: usize = 0;
    let mut i: usize = 0;
    proof {
        assert(models.take(0) =~= Seq::<HunkModel>::empty());
    }
    while i < hunks.len()
        invariant
            i <= hunks@.len(),
            models == deep(hunks@),
            start_lines == file_lines(original@),
            cursor <= lines@.len(),
            hunks_applied(start_lines, models.take(i as int)) == Ok::<
                (Seq<Seq<char>>, int),
                Seq<char>,
            >((deep(lines@), cursor as int)),
        decreases hunks@.len() - i,
    {
        let hunk = &hunks[i];
        let n = lines.len();
        let (old, new) = hunk_sides(hunk);
        let expected: usize = match hunk.old_start {
            Some(n) => n.saturating_sub(1),
            None => cursor,
        };
        proof {
            assert(models.take(i + 1).drop_last() =~= models.take(i as int));
            assert(models.take(i + 1).last() == hunk.deep_view());
            assert(expected == expected_place(hunk.old_start, cursor as int));
        }
        match find_hunk_start(&lines, &old, expected, cursor) {
            Some(start) => {
                let added = new.len();
                lines = replace_lines(lines, start, old.len(), new);
                let now = lines.len();
                cursor = start + added;
            },
            None => {
                proof {
                    lemma_hunk_error_stays(start_lines, models, i + 1);
                }
                let mut error = "Unable to find patch context near line ".to_owned();
                match hunk.old_start {
                    Some(_) => error.append(&number_text(expected as u64)),
                    None => error.append(&next_number_text(cursor as u64)),
                }
                return Err(error);
            },
        }
        i += 1;
    }
    proof {
        assert(models.take(hunks@.len() as int) =~= models);
    }
    let output = join_lines(&lines, trailing_newline);
    if byte_len(&output) > MAX_EDIT_BYTES {
        return Err("Patched file exceeds the 16 MiB limit".to_owned());
    }
    Ok(output)
}

// ---- laws ----

/// A hunk replaces the lines that it expects by the lines that it leaves, and touches no other
/// line.
pub proof fn law_hunk_touches_only_its_lines(
    lines: Seq<Seq<char>>,
    cursor: int,
    hunk: HunkModel,
)
    requires
        0 <= cursor <= lines.len(),
    ensures
        hunk_applied(lines, cursor, hunk) matches Ok((now, next)) ==> {
            let start = next - new_lines(hunk.lines).len();
            &&& stands_at(lines, old_lines(hunk.lines), start)
            &&& stands_at(now, new_lines(hunk.lines), start)
            &&& now.take(start) == lines.take(start)
            &&& now.skip(next) == lines.skip(start + old_lines(hunk.lines).len())
        },
{
    let old = old_lines(hunk.lines);
    let new = new_lines(hunk.lines);
    let expected = expected_place(hunk.old_start, cursor);
    lemma_first_place(lines, old, cursor);
    if let Some(start) = hunk_place(lines, old, expected, cursor) {
        let now = replaced(lines, start, old.len() as int, new);
        assert(lines.subrange(start, start + old.len()) =~= old);
        assert(now.subrange(start, start + new.len()) =~= new);
        assert(now.take(start) =~= lines.take(start));
        assert(now.skip(start + new.len()) =~= lines.skip(start + old.len()));
    }
}

/// A line of a hunk, seen from the other side.
pub open spec fn reversed_line(line: LineModel) -> LineModel {
    match line {
        LineModel::Context(text) => LineModel::Context(text),
        LineModel::Remove(text) => LineModel::Add(text),
        LineModel::Add(text) => LineModel::Remove(text),
    }
}

/// The lines of a hunk, seen from the other side.
pub open spec fn reversed_lines(lines: Seq<LineModel>) -> Seq<LineModel> {
    lines.map_values(|line: LineModel| reversed_line(line))
}

proof fn lemma_reversed_sides(lines: Seq<LineModel>)
    ensures
        old_lines(reversed_lines(lines)) == new_lines(lines),
        new_lines(reversed_lines(lines)) == old_lines(lines),
    decreases lines.len(),
{
    if lines.len() > 0 {
        assert(reversed_lines(lines).drop_last() =~= reversed_lines(lines.drop_last()));
        lemma_reversed_sides(lines.drop_last());
    }
}

/// Applying a hunk and then the reversed hunk at the same place gives back the lines.
pub proof fn law_reversed_hunk_restores_the_lines(
    lines: Seq<Seq<char>>,
    cursor: int,
    hunk: HunkModel,
    place: usize,
)
    requires
        0 <= cursor <= lines.len(),
        hunk_applied(lines, cursor, hunk) matches Ok((now, next)) && place == next - new_lines(
            hunk.lines,
        ).len() + 1,
    ensures
        ({
            let now = hunk_applied(lines, cursor, hunk)->Ok_0.0;
            let back = HunkModel { old_start: Some(place), lines: reversed_lines(hunk.lines) };
            hunk_applied(now, 0, back) matches Ok((again, next)) && again == lines
        }),
{
    law_hunk_touches_only_its_lines(lines, cursor, hunk);
    lemma_reversed_sides(hunk.lines);
    let (now, next) = hunk_applied(lines, cursor, hunk)->Ok_0;
    let old = old_lines(hunk.lines);
    let new = new_lines(hunk.lines);
    let start = place - 1;
    let back = HunkModel { old_start: Some(place), lines: reversed_lines(hunk.lines) };
    assert(hunk_place(now, new, start, 0) == Some(start));
    assert(lines.subrange(start, start + old.len()) == old);
    assert(replaced(now, start, new.len() as int, old) =~= lines);
}

proof fn lemma_joined_split(text: Seq<char>, from: int)
    requires
        0 <= from <= text.len(),
    ensures
        split_from(text, '\n', from).len() > 0,
        joined(split_from(text, '\n', from), "\n"@) == text.skip(from),
    decreases text.len() - from,
{
    reveal_strlit("\n");
    assert("\n"@ =~= seq!['\n']);
    lemma_next_char(text, '\n', from);
    let end = next_char(text, '\n', from);
    if end < text.len() {
        lemma_joined_split(text, end + 1);
        let rest = split_from(text, '\n', end + 1);
        lemma_joined_cons(text.subrange(from, end), rest);
        assert(text.subrange(from, end) + "\n"@ + text.skip(end + 1) =~= text.skip(from));
    }
}

proof fn lemma_joined_cons(first: Seq<char>, rest: Seq<Seq<char>>)
    requires
        rest.len() > 0,
    ensures
        joined(seq![first] + rest, "\n"@) == first + "\n"@ + joined(rest, "\n"@),
    decreases rest.len(),
{
    let all = seq![first] + rest;
    assert(all.drop_last() =~= seq![first] + rest.drop_last());
    assert(all.last() == rest.last());
    if rest.len() == 1 {
        assert(all.drop_last() =~= seq![first]);
        assert(joined(seq![first], "\n"@) == first);
        assert(all.len() == 2);
        assert(joined(all, "\n"@) =~= first + "\n"@ + rest[0]);
    } else {
        lemma_joined_cons(first, rest.drop_last());
        assert(joined(all, "\n"@) =~= first + "\n"@ + joined(rest, "\n"@));
    }
}

proof fn lemma_split_no_return(text: Seq<char>, from: int)
    requires
        0 <= from <= text.len(),
        forall|i: int| 0 <= i < text.len() ==> text[i] != '\r',
    ensures
        forall|k: int|
            0 <= k < split_from(text, '\n', from).len() ==> without_return(
                #[trigger] split_from(text, '\n', from)[k],
            ) == split_from(text, '\n', from)[k],
    decreases text.len() - from,
{
    lemma_next_char(text, '\n', from);
    let end = next_char(text, '\n', from);
    let parts = split_from(text, '\n', from);
    if end < text.len() {
        lemma_split_no_return(text, end + 1);
        let rest = split_from(text, '\n', end + 1);
        assert forall|k: int| 0 <= k < parts.len() implies without_return(#[trigger] parts[k])
            == parts[k] by {
            if k == 0 {
                let part = text.subrange(from, end);
                if part.len() > 0 {
                    assert(part.last() == text[end - 1]);
                }
            } else {
                assert(parts[k] == rest[k - 1]);
            }
        }
    } else {
        let part = text.skip(from);
        if part.len() > 0 {
            assert(part.last() == text[text.len() - 1]);
        }
    }
}

proof fn lemma_split_last(text: Seq<char>, from: int)
    requires
        0 <= from <= text.len(),
        text.len() > 0,
        text.last() == '\n',
    ensures
        split_from(text, '\n', from).last() == Seq::<char>::empty(),
        from < text.len() ==> split_from(text, '\n', from).len() > 1,
    decreases text.len() - from,
{
    lemma_next_char(text, '\n', from);
    let end = next_char(text, '\n', from);
    if end < text.len() {
        lemma_split_last(text, end + 1);
        lemma_joined_split(text, end + 1);
        let rest = split_from(text, '\n', end + 1);
        assert((seq![text.subrange(from, end)] + rest).last() == rest.last());
    } else {
        if from < text.len() {
            assert(text[text.len() - 1] == '\n');
        }
        assert(text.skip(from) =~= Seq::<char>::empty());
    }
}

/// A patch without effect leaves a text without carriage returns as it is: splitting it into
/// lines and joining these gives it back.
pub proof fn law_split_and_join_give_the_text_back(text: Seq<char>)
    requires
        forall|i: int| 0 <= i < text.len() ==> text[i] != '\r',
    ensures
        lines_text(file_lines(text), ends_with_newline(text)) == text,
{
    let parts = split_on(text, '\n');
    let mapped = parts.map_values(|line: Seq<char>| without_return(line));
    lemma_split_no_return(text, 0);
    lemma_joined_split(text, 0);
    assert(mapped =~= parts);
    assert(text.skip(0) =~= text);
    if ends_with_newline(text) {
        lemma_split_last(text, 0);
        let head = parts.drop_last();
        reveal_strlit("\n");
        assert("\n"@ =~= seq!['\n']);
        assert(joined(parts, "\n"@) == joined(head, "\n"@) + "\n"@ + parts.last());
        assert(joined(head, "\n"@).push('\n') =~= text);
    }
}

} // verus!
