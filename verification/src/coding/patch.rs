//! Patches: reading them, and applying them to the text of a file.

use vstd::prelude::*;
use vstd::utf8::encode_utf8;

use super::limits::{MAX_EDIT_BYTES, MAX_LINE_BYTES};
use crate::deep::{deep, group_deep};
use crate::number::{all_digits, is_digit, parse_digits, parsed_usize};
use crate::text::{
    after_prefix, begins_with, blank, byte_len, chars_of, index_of, is_blank, next_char, same,
    split, split_on, starts_with, string_of, substring, trim, trim_char, trim_set, trimmed,
};

verus! {

broadcast use group_deep;

/// A line of a hunk: one that stays, one that goes, or one that comes.
#[derive(Debug, PartialEq, Eq)]
pub enum Line {
    Context(String),
    Remove(String),
    Add(String),
}

/// A part of a patch: lines that follow each other, and where they are expected.
#[derive(Debug, PartialEq, Eq)]
pub struct Hunk {
    pub old_start: Option<usize>,
    pub lines: Vec<Line>,
}

/// What a patch does to one file.
#[allow(inconsistent_fields)]
#[derive(Debug, PartialEq, Eq)]
pub enum FileOperation {
    Add { path: String, lines: Vec<String> },
    Delete { path: String, hunks: Option<Vec<Hunk>> },
    Update { path: String, move_to: Option<String>, hunks: Vec<Hunk> },
}

/// What a line of a hunk is.
pub enum LineModel {
    Context(Seq<char>),
    Remove(Seq<char>),
    Add(Seq<char>),
}

/// What a hunk is.
pub struct HunkModel {
    pub old_start: Option<usize>,
    pub lines: Seq<LineModel>,
}

/// What a file operation is.
#[allow(inconsistent_fields)]
pub enum OperationModel {
    Add { path: Seq<char>, lines: Seq<Seq<char>> },
    Delete { path: Seq<char>, hunks: Option<Seq<HunkModel>> },
    Update { path: Seq<char>, move_to: Option<Seq<char>>, hunks: Seq<HunkModel> },
}

impl DeepView for Line {
    type V = LineModel;

    open spec fn deep_view(&self) -> LineModel {
        match self {
            Line::Context(text) => LineModel::Context(text@),
            Line::Remove(text) => LineModel::Remove(text@),
            Line::Add(text) => LineModel::Add(text@),
        }
    }
}

impl DeepView for Hunk {
    type V = HunkModel;

    open spec fn deep_view(&self) -> HunkModel {
        HunkModel { old_start: self.old_start, lines: deep(self.lines@) }
    }
}

impl DeepView for FileOperation {
    type V = OperationModel;

    open spec fn deep_view(&self) -> OperationModel {
        match self {
            FileOperation::Add { path, lines } => OperationModel::Add {
                path: path@,
                lines: deep(lines@),
            },
            FileOperation::Delete { path, hunks } => OperationModel::Delete {
                path: path@,
                hunks: match hunks {
                    Some(hunks) => Some(deep(hunks@)),
                    None => None,
                },
            },
            FileOperation::Update { path, move_to, hunks } => OperationModel::Update {
                path: path@,
                move_to: move_to.deep_view(),
                hunks: deep(hunks@),
            },
        }
    }
}

// ---- hunks ----

/// Where the digits that begin at `i` end.
pub open spec fn digits_end(s: Seq<char>, i: int) -> int
    decreases s.len() - i,
{
    if i < s.len() && is_digit(s[i]) {
        digits_end(s, i + 1)
    } else {
        i
    }
}

/// The line number behind the first `-` of a hunk's header.
pub open spec fn old_start(header: Seq<char>) -> Option<usize> {
    let dash = next_char(header, '-', 0);
    if dash >= header.len() {
        None
    } else {
        parsed_usize(header.subrange(dash + 1, digits_end(header, dash + 1)))
    }
}

/// Lines that may stand in a patch and mean nothing.
pub open spec fn is_noise(line: Seq<char>) -> bool {
    begins_with(line, "\\ No newline at end of file"@) || begins_with(line, "diff "@)
        || begins_with(line, "index "@)
}

/// The line of a hunk that a text stands for, if it is one.
pub open spec fn hunk_line(line: Seq<char>) -> Option<LineModel> {
    if line.len() == 0 {
        None
    } else if line[0] == ' ' {
        Some(LineModel::Context(line.skip(1)))
    } else if line[0] == '-' {
        Some(LineModel::Remove(line.skip(1)))
    } else if line[0] == '+' {
        Some(LineModel::Add(line.skip(1)))
    } else {
        None
    }
}

/// The hunks that are complete, and the one that may still get lines.
pub struct HunkState {
    pub done: Seq<HunkModel>,
    pub current: Option<HunkModel>,
}

impl HunkState {
    /// All hunks.
    pub open spec fn all(self) -> Seq<HunkModel> {
        match self.current {
            Some(hunk) => self.done.push(hunk),
            None => self.done,
        }
    }
}

/// The hunk that may still get lines; a new one without a place where there is none.
pub open spec fn open_hunk(state: HunkState) -> HunkModel {
    match state.current {
        Some(hunk) => hunk,
        None => HunkModel { old_start: None, lines: Seq::empty() },
    }
}

/// The hunks with one more line read.
pub open spec fn read_line(state: HunkState, line: Seq<char>) -> Result<HunkState, Seq<char>> {
    if begins_with(line, "@@"@) {
        Ok(
            HunkState {
                done: state.all(),
                current: Some(HunkModel { old_start: old_start(line), lines: Seq::empty() }),
            },
        )
    } else if is_noise(line) {
        Ok(state)
    } else {
        let hunk = open_hunk(state);
        match hunk_line(line) {
            Some(model) => Ok(
                HunkState {
                    done: state.done,
                    current: Some(HunkModel { lines: hunk.lines.push(model), ..hunk }),
                },
            ),
            None => if line.len() == 0 {
                Ok(HunkState { done: state.done, current: Some(hunk) })
            } else {
                Err("Invalid patch hunk line: "@ + line)
            },
        }
    }
}

/// The hunks after the lines were read.
pub open spec fn read_lines(lines: Seq<Seq<char>>) -> Result<HunkState, Seq<char>>
    decreases lines.len(),
{
    if lines.len() == 0 {
        Ok(HunkState { done: Seq::empty(), current: None })
    } else {
        match read_lines(lines.drop_last()) {
            Ok(state) => read_line(state, lines.last()),
            Err(error) => Err(error),
        }
    }
}

/// The hunks that the lines stand for.
pub open spec fn hunks_of(lines: Seq<Seq<char>>) -> Result<Seq<HunkModel>, Seq<char>> {
    match read_lines(lines) {
        Ok(state) => if state.all().len() == 0 {
            Err("Patch update contains no hunks"@)
        } else {
            Ok(state.all())
        },
        Err(error) => Err(error),
    }
}

proof fn lemma_read_error_stays(lines: Seq<Seq<char>>, i: int)
    requires
        0 <= i <= lines.len(),
        read_lines(lines.take(i)) is Err,
    ensures
        read_lines(lines) == read_lines(lines.take(i)),
    decreases lines.len() - i,
{
    if i == lines.len() {
        assert(lines.take(i) =~= lines);
    } else {
        assert(lines.take(i + 1).drop_last() =~= lines.take(i));
        lemma_read_error_stays(lines, i + 1);
    }
}

/// The line number behind the first `-` of a hunk's header.
pub fn parse_old_start(header: &str) -> (r: Option<usize>)
    ensures
        r == old_start(header@),
{
    let v = chars_of(header);
    let dash = index_of(&v, '-', 0);
    if dash >= v.len() {
        return None;
    }
    let start: usize = dash + 1;
    let mut end: usize = start;
    let mut digits: Vec<char> = Vec::new();
    while end < v.len() && '0' <= v[end] && v[end] <= '9'
        invariant
            start <= end <= v@.len(),
            digits@ == v@.subrange(start as int, end as int),
            all_digits(digits@),
            digits_end(v@, start as int) == digits_end(v@, end as int),
        decreases v@.len() - end,
    {
        digits.push(v[end]);
        end += 1;
        proof {
            assert(v@.subrange(start as int, end as int) =~= v@.subrange(
                start as int,
                end - 1,
            ).push(v@[end - 1]));
        }
    }
    parse_digits(&digits)
}

fn line_of(line: &str) -> (r: Option<Line>)
    ensures
        match r {
            Some(model) => hunk_line(line@) == Some(model.deep_view()),
            None => hunk_line(line@) is None,
        },
{
    let v = chars_of(line);
    if v.len() == 0 {
        return None;
    }
    let rest = substring(&v, 1, v.len());
    proof {
        assert(rest@ =~= line@.skip(1));
    }
    if v[0] == ' ' {
        Some(Line::Context(rest))
    } else if v[0] == '-' {
        Some(Line::Remove(rest))
    } else if v[0] == '+' {
        Some(Line::Add(rest))
    } else {
        None
    }
}

/// The hunks that the lines stand for.
pub fn parse_hunks(lines: &[String]) -> (r: Result<Vec<Hunk>, String>)
    ensures
        match r {
            Ok(hunks) => hunks_of(deep(lines@)) == Ok::<Seq<HunkModel>, Seq<char>>(deep(hunks@)),
            Err(error) => hunks_of(deep(lines@)) == Err::<Seq<HunkModel>, Seq<char>>(error@),
        },
{
    let ghost models = deep(lines@);
    let mut done: Vec<Hunk> = Vec::new();
    let mut current: Option<Hunk> = None;
    let ghost mut state = HunkState { done: Seq::empty(), current: None };
    let mut i: usize = 0;
    proof {
        assert(models.take(0) =~= Seq::<Seq<char>>::empty());
        assert(deep(done@) =~= Seq::<HunkModel>::empty());
    }
    while i < lines.len()
        invariant
            i <= lines@.len(),
            models == deep(lines@),
            read_lines(models.take(i as int)) == Ok::<HunkState, Seq<char>>(state),
            deep(done@) == state.done,
            current.deep_view() == state.current,
        decreases lines@.len() - i,
    {
        let line = &lines[i];
        let ghost next = read_line(state, line@);
        proof {
            assert(models.take(i + 1).drop_last() =~= models.take(i as int));
            assert(models.take(i + 1).last() == line@);
            assert(read_lines(models.take(i + 1)) == next);
            if next is Err {
                lemma_read_error_stays(models, i + 1);
            }
        }
        if starts_with(line, "@@") {
            match current {
                Some(hunk) => {
                    done.push(hunk);
                },
                None => {},
            }
            let hunk = Hunk { old_start: parse_old_start(line), lines: Vec::new() };
            proof {
                assert(hunk.deep_view().lines =~= Seq::<LineModel>::empty());
            }
            current = Some(hunk);
        } else if starts_with(line, "\\ No newline at end of file") || starts_with(line, "diff ")
            || starts_with(line, "index ") {
        } else {
            let mut hunk = match current {
                Some(hunk) => hunk,
                None => Hunk { old_start: None, lines: Vec::new() },
            };
            proof {
                assert(hunk.deep_view().lines =~= open_hunk(state).lines);
            }
            match line_of(line) {
                Some(model) => {
                    hunk.lines.push(model);
                },
                None => {
                    if !line.as_str().is_empty() {
                        let mut error = "Invalid patch hunk line: ".to_owned();
                        error.append(line);
                        return Err(error);
                    }
                },
            }
            current = Some(hunk);
        }
        proof {
            state = next->Ok_0;
        }
        i += 1;
    }
    proof {
        assert(models.take(lines@.len() as int) =~= models);
    }
    match current {
        Some(hunk) => {
            done.push(hunk);
        },
        None => {},
    }
    proof {
        assert(deep(done@) == state.all());
    }
    if done.is_empty() {
        return Err("Patch update contains no hunks".to_owned());
    }
    Ok(done)
}

// ---- the form with *** directives ----

/// Whether a line begins the part of a patch that is about one file.
pub open spec fn is_header(line: Seq<char>) -> bool {
    begins_with(line, "*** Add File: "@) || begins_with(line, "*** Delete File: "@) || begins_with(
        line,
        "*** Update File: "@,
    )
}

/// Where the part that begins at `i` ends.
pub open spec fn section_end(lines: Seq<Seq<char>>, i: int) -> int
    decreases lines.len() - i,
{
    if i < lines.len() && !is_header(lines[i]) && lines[i] != "*** End Patch"@ {
        section_end(lines, i + 1)
    } else {
        i
    }
}

/// The lines of a file that is added; each of them begins with a `+`.
pub open spec fn added_content(lines: Seq<Seq<char>>) -> Result<Seq<Seq<char>>, Seq<char>>
    decreases lines.len(),
{
    if lines.len() == 0 {
        Ok(Seq::empty())
    } else {
        match added_content(lines.drop_last()) {
            Ok(content) => if begins_with(lines.last(), "+"@) {
                Ok(content.push(lines.last().skip(1)))
            } else {
                Err("Added-file patch lines must start with +"@)
            },
            Err(error) => Err(error),
        }
    }
}

/// The new place of a file, where a line says so. The last one counts.
pub open spec fn move_target(lines: Seq<Seq<char>>) -> Option<Seq<char>>
    decreases lines.len(),
{
    if lines.len() == 0 {
        None
    } else if begins_with(lines.last(), "*** Move to: "@) {
        Some(trimmed(lines.last().skip("*** Move to: "@.len() as int)))
    } else {
        move_target(lines.drop_last())
    }
}

/// The lines that do not say where the file goes.
pub open spec fn hunk_text(lines: Seq<Seq<char>>) -> Seq<Seq<char>>
    decreases lines.len(),
{
    if lines.len() == 0 {
        Seq::empty()
    } else {
        let head = hunk_text(lines.drop_last());
        if begins_with(lines.last(), "*** Move to: "@) {
            head
        } else {
            head.push(lines.last())
        }
    }
}

/// An operation before the others.
pub open spec fn prepend(
    first: Result<OperationModel, Seq<char>>,
    rest: Result<Seq<OperationModel>, Seq<char>>,
) -> Result<Seq<OperationModel>, Seq<char>> {
    match (first, rest) {
        (Err(error), _) => Err(error),
        (_, Err(error)) => Err(error),
        (Ok(operation), Ok(operations)) => Ok(seq![operation] + operations),
    }
}

/// The operation of an added file.
pub open spec fn add_operation(line: Seq<char>, body: Seq<Seq<char>>) -> Result<
    OperationModel,
    Seq<char>,
> {
    match added_content(body) {
        Ok(lines) => Ok(
            OperationModel::Add {
                path: trimmed(line.skip("*** Add File: "@.len() as int)),
                lines,
            },
        ),
        Err(error) => Err(error),
    }
}

/// The operation of an updated file.
pub open spec fn update_operation(line: Seq<char>, body: Seq<Seq<char>>) -> Result<
    OperationModel,
    Seq<char>,
> {
    match hunks_of(hunk_text(body)) {
        Ok(hunks) => Ok(
            OperationModel::Update {
                path: trimmed(line.skip("*** Update File: "@.len() as int)),
                move_to: move_target(body),
                hunks,
            },
        ),
        Err(error) => Err(error),
    }
}

/// The operations from the line `i` on.
pub open spec fn directives_from(lines: Seq<Seq<char>>, i: int) -> Result<
    Seq<OperationModel>,
    Seq<char>,
>
    decreases lines.len() - i,
{
    if i < 0 || i >= lines.len() {
        Err("Patch is missing *** End Patch"@)
    } else {
        let line = lines[i];
        let end = section_end(lines, i + 1);
        if is_blank(line) {
            directives_from(lines, i + 1)
        } else if trimmed(line) == "*** End Patch"@ {
            Ok(Seq::empty())
        } else if begins_with(line, "*** Add File: "@) {
            if i < end <= lines.len() {
                prepend(
                    add_operation(line, lines.subrange(i + 1, end)),
                    directives_from(lines, end),
                )
            } else {
                Err(Seq::empty())
            }
        } else if begins_with(line, "*** Delete File: "@) {
            prepend(
                Ok(
                    OperationModel::Delete {
                        path: trimmed(line.skip("*** Delete File: "@.len() as int)),
                        hunks: None,
                    },
                ),
                directives_from(lines, i + 1),
            )
        } else if begins_with(line, "*** Update File: "@) {
            if i < end <= lines.len() {
                prepend(
                    update_operation(line, lines.subrange(i + 1, end)),
                    directives_from(lines, end),
                )
            } else {
                Err(Seq::empty())
            }
        } else {
            Err("Unsupported apply_patch directive: "@ + line)
        }
    }
}

pub proof fn lemma_section_end(lines: Seq<Seq<char>>, i: int)
    requires
        0 <= i <= lines.len(),
    ensures
        i <= section_end(lines, i) <= lines.len(),
    decreases lines.len() - i,
{
    if i < lines.len() && !is_header(lines[i]) && lines[i] != "*** End Patch"@ {
        lemma_section_end(lines, i + 1);
    }
}

/// Whether a line begins the part of a patch that is about one file.
pub fn is_file_header(line: &str) -> (r: bool)
    ensures
        r == is_header(line@),
{
    starts_with(line, "*** Add File: ") || starts_with(line, "*** Delete File: ") || starts_with(
        line,
        "*** Update File: ",
    )
}

/// Where the part that begins at `i` ends.
fn find_section_end(lines: &[String], i: usize) -> (r: usize)
    requires
        i <= lines@.len(),
    ensures
        r == section_end(deep(lines@), i as int),
        i <= r <= lines@.len(),
{
    let mut k: usize = i;
    while k < lines.len() && !is_file_header(&lines[k]) && !same(&lines[k], "*** End Patch")
        invariant
            i <= k <= lines@.len(),
            section_end(deep(lines@), i as int) == section_end(deep(lines@), k as int),
        decreases lines@.len() - k,
    {
        proof {
            assert(deep(lines@)[k as int] == lines@[k as int]@);
        }
        k += 1;
    }
    proof {
        if k < lines@.len() {
            assert(deep(lines@)[k as int] == lines@[k as int]@);
        }
    }
    k
}

proof fn lemma_added_error_stays(lines: Seq<Seq<char>>, i: int)
    requires
        0 <= i <= lines.len(),
        added_content(lines.take(i)) is Err,
    ensures
        added_content(lines) == added_content(lines.take(i)),
    decreases lines.len() - i,
{
    if i == lines.len() {
        assert(lines.take(i) =~= lines);
    } else {
        assert(lines.take(i + 1).drop_last() =~= lines.take(i));
        lemma_added_error_stays(lines, i + 1);
    }
}

/// The lines of a file that is added.
fn read_added(lines: &[String], from: usize, to: usize) -> (r: Result<Vec<String>, String>)
    requires
        from <= to <= lines@.len(),
    ensures
        match r {
            Ok(content) => added_content(deep(lines@).subrange(from as int, to as int)) == Ok::<
                Seq<Seq<char>>,
                Seq<char>,
            >(deep(content@)),
            Err(error) => added_content(deep(lines@).subrange(from as int, to as int)) == Err::<
                Seq<Seq<char>>,
                Seq<char>,
            >(error@),
        },
{
    let ghost body = deep(lines@).subrange(from as int, to as int);
    let mut content: Vec<String> = Vec::new();
    let mut i: usize = from;
    proof {
        reveal_strlit("+");
        assert(body.take(0) =~= Seq::<Seq<char>>::empty());
        assert(deep(content@) =~= Seq::<Seq<char>>::empty());
    }
    while i < to
        invariant
            from <= i <= to <= lines@.len(),
            "+"@.len() == 1,
            body == deep(lines@).subrange(from as int, to as int),
            added_content(body.take(i - from)) == Ok::<Seq<Seq<char>>, Seq<char>>(deep(content@)),
        decreases to - i,
    {
        proof {
            let k = i - from;
            assert(body.take(k + 1).drop_last() =~= body.take(k));
            assert(body.take(k + 1).last() == lines@[i as int]@);
        }
        match after_prefix(&lines[i], "+") {
            Some(value) => {
                content.push(value);
            },
            None => {
                proof {
                    lemma_added_error_stays(body, i - from + 1);
                }
                return Err("Added-file patch lines must start with +".to_owned());
            },
        }
        i += 1;
    }
    proof {
        assert(body.take(to - from) =~= body);
    }
    Ok(content)
}

/// The new place of a file, and the lines that do not say it.
fn read_update(lines: &[String], from: usize, to: usize) -> (r: (Option<String>, Vec<String>))
    requires
        from <= to <= lines@.len(),
    ensures
        r.0.deep_view() == move_target(deep(lines@).subrange(from as int, to as int)),
        deep(r.1@) == hunk_text(deep(lines@).subrange(from as int, to as int)),
{
    let ghost body = deep(lines@).subrange(from as int, to as int);
    let mut move_to: Option<String> = None;
    let mut rest: Vec<String> = Vec::new();
    let mut i: usize = from;
    proof {
        assert(body.take(0) =~= Seq::<Seq<char>>::empty());
        assert(deep(rest@) =~= Seq::<Seq<char>>::empty());
    }
    while i < to
        invariant
            from <= i <= to <= lines@.len(),
            body == deep(lines@).subrange(from as int, to as int),
            move_to.deep_view() == move_target(body.take(i - from)),
            deep(rest@) == hunk_text(body.take(i - from)),
        decreases to - i,
    {
        proof {
            let k = i - from;
            assert(body.take(k + 1).drop_last() =~= body.take(k));
            assert(body.take(k + 1).last() == lines@[i as int]@);
        }
        match after_prefix(&lines[i], "*** Move to: ") {
            Some(target) => {
                move_to = Some(trim(&target));
            },
            None => {
                rest.push(lines[i].clone());
            },
        }
        i += 1;
    }
    proof {
        assert(body.take(to - from) =~= body);
    }
    (move_to, rest)
}

/// The operations that were read, followed by what is still to be read.
spec fn and_then(
    read: Seq<OperationModel>,
    rest: Result<Seq<OperationModel>, Seq<char>>,
) -> Result<Seq<OperationModel>, Seq<char>> {
    match rest {
        Ok(operations) => Ok(read + operations),
        Err(error) => Err(error),
    }
}

proof fn lemma_and_then_push(
    read: Seq<OperationModel>,
    operation: OperationModel,
    rest: Result<Seq<OperationModel>, Seq<char>>,
)
    ensures
        and_then(read, prepend(Ok(operation), rest)) == and_then(read.push(operation), rest),
{
    if let Ok(operations) = rest {
        assert(read + (seq![operation] + operations) =~= read.push(operation) + operations);
    }
}

/// Reads a patch in the form with `***` directives. Its first line was seen.
pub fn parse_apply_patch(lines: &[String]) -> (r: Result<Vec<FileOperation>, String>)
    ensures
        match r {
            Ok(operations) => directives_from(deep(lines@), 1) == Ok::<
                Seq<OperationModel>,
                Seq<char>,
            >(deep(operations@)),
            Err(error) => directives_from(deep(lines@), 1) == Err::<
                Seq<OperationModel>,
                Seq<char>,
            >(error@),
        },
{
    let ghost models = deep(lines@);
    let mut operations: Vec<FileOperation> = Vec::new();
    let mut index: usize = 1;
    proof {
        assert(and_then(Seq::empty(), directives_from(models, 1)) == directives_from(models, 1)) by {
            if let Ok(all) = directives_from(models, 1) {
                assert(Seq::<OperationModel>::empty() + all =~= all);
            }
        }
        assert(deep(operations@) =~= Seq::<OperationModel>::empty());
    }
    while index < lines.len()
        invariant
            1 <= index,
            index <= lines@.len() || index == 1,
            models == deep(lines@),
            and_then(deep(operations@), directives_from(models, index as int)) == directives_from(
                models,
                1,
            ),
        decreases lines@.len() - index,
    {
        let line = &lines[index];
        let ghost read = deep(operations@);
        let ghost at = index as int;
        let n = lines.len();
        proof {
            assert(models[at] == line@);
            lemma_section_end(models, at + 1);
        }
        if blank(line) {
            index += 1;
        } else if same(&trim(line), "*** End Patch") {
            proof {
                assert(read + Seq::<OperationModel>::empty() =~= read);
            }
            return Ok(operations);
        } else if let Some(path) = after_prefix(line, "*** Add File: ") {
            let end = find_section_end(lines, index + 1);
            let content = match read_added(lines, index + 1, end) {
                Ok(content) => content,
                Err(error) => {
                    return Err(error);
                },
            };
            let operation = FileOperation::Add { path: trim(&path), lines: content };
            proof {
                lemma_and_then_push(
                    read,
                    operation.deep_view(),
                    directives_from(models, end as int),
                );
            }
            operations.push(operation);
            index = end;
        } else if let Some(path) = after_prefix(line, "*** Delete File: ") {
            let operation = FileOperation::Delete { path: trim(&path), hunks: None };
            proof {
                lemma_and_then_push(read, operation.deep_view(), directives_from(models, at + 1));
            }
            operations.push(operation);
            index += 1;
        } else if let Some(path) = after_prefix(line, "*** Update File: ") {
            let end = find_section_end(lines, index + 1);
            let (move_to, body) = read_update(lines, index + 1, end);
            let hunks = match parse_hunks(&body) {
                Ok(hunks) => hunks,
                Err(error) => {
                    return Err(error);
                },
            };
            let operation = FileOperation::Update { path: trim(&path), move_to, hunks };
            proof {
                lemma_and_then_push(
                    read,
                    operation.deep_view(),
                    directives_from(models, end as int),
                );
            }
            operations.push(operation);
            index = end;
        } else {
            let mut error = "Unsupported apply_patch directive: ".to_owned();
            error.append(line);
            return Err(error);
        }
    }
    Err("Patch is missing *** End Patch".to_owned())
}

// ---- the unified form ----

/// The path in a header of a unified patch: up to the first tab, without the white space and
/// then without the quotes around it.
pub open spec fn path_in(rest: Seq<char>) -> Seq<char> {
    trim_set(trimmed(split_on(rest, '\t')[0]), |c: char| c == '"')
}

/// A path without the letter in front of it.
pub open spec fn bare_path(path: Seq<char>) -> Seq<char> {
    if begins_with(path, "a/"@) || begins_with(path, "b/"@) {
        path.skip(2)
    } else {
        path
    }
}

/// The lines of a file that hunks add; there may be no others.
pub open spec fn only_added(hunks: Seq<HunkModel>) -> Result<Seq<Seq<char>>, Seq<char>>
    decreases hunks.len(),
{
    if hunks.len() == 0 {
        Ok(Seq::empty())
    } else {
        match (only_added(hunks.drop_last()), only_added_lines(hunks.last().lines)) {
            (Ok(before), Ok(lines)) => Ok(before + lines),
            _ => Err("A unified add patch may contain only added lines"@),
        }
    }
}

/// The lines that a hunk adds; there may be no others.
pub open spec fn only_added_lines(lines: Seq<LineModel>) -> Result<Seq<Seq<char>>, Seq<char>>
    decreases lines.len(),
{
    if lines.len() == 0 {
        Ok(Seq::empty())
    } else {
        match (only_added_lines(lines.drop_last()), lines.last()) {
            (Ok(before), LineModel::Add(text)) => Ok(before.push(text)),
            _ => Err("A unified add patch may contain only added lines"@),
        }
    }
}

/// Where the body that begins at `i` ends: with the next header.
pub open spec fn body_end(lines: Seq<Seq<char>>, i: int) -> int
    decreases lines.len() - i,
{
    if i < lines.len() && !begins_with(lines[i], "--- "@) {
        body_end(lines, i + 1)
    } else {
        i
    }
}

/// The operation of one file in a unified patch.
pub open spec fn unified_operation(
    old_path: Seq<char>,
    new_path: Seq<char>,
    body: Seq<Seq<char>>,
) -> Result<OperationModel, Seq<char>> {
    match hunks_of(body) {
        Err(error) => Err(error),
        Ok(hunks) => if old_path == "/dev/null"@ {
            match only_added(hunks) {
                Ok(lines) => Ok(OperationModel::Add { path: bare_path(new_path), lines }),
                Err(error) => Err(error),
            }
        } else if new_path == "/dev/null"@ {
            Ok(OperationModel::Delete { path: bare_path(old_path), hunks: Some(hunks) })
        } else {
            Ok(OperationModel::Update { path: bare_path(old_path), move_to: None, hunks })
        },
    }
}

/// The operations of a unified patch from the line `i` on.
pub open spec fn unified_from(lines: Seq<Seq<char>>, i: int) -> Result<
    Seq<OperationModel>,
    Seq<char>,
>
    decreases lines.len() - i,
{
    if i < 0 || i >= lines.len() {
        Ok(Seq::empty())
    } else if !begins_with(lines[i], "--- "@) {
        unified_from(lines, i + 1)
    } else if i + 1 >= lines.len() || !begins_with(lines[i + 1], "+++ "@) {
        Err("Unified patch is missing its +++ path"@)
    } else {
        let end = body_end(lines, i + 2);
        if i < end <= lines.len() {
            prepend(
                unified_operation(
                    path_in(lines[i].skip(4)),
                    path_in(lines[i + 1].skip(4)),
                    lines.subrange(i + 2, end),
                ),
                unified_from(lines, end),
            )
        } else {
            Err(Seq::empty())
        }
    }
}

pub proof fn lemma_body_end(lines: Seq<Seq<char>>, i: int)
    requires
        0 <= i <= lines.len(),
    ensures
        i <= body_end(lines, i) <= lines.len(),
    decreases lines.len() - i,
{
    if i < lines.len() && !begins_with(lines[i], "--- "@) {
        lemma_body_end(lines, i + 1);
    }
}

/// The path in a header of a unified patch.
pub fn header_path(line: &str, prefix: &str) -> (r: Result<String, String>)
    ensures
        match r {
            Ok(path) => begins_with(line@, prefix@) && path@ == path_in(
                line@.skip(prefix@.len() as int),
            ),
            Err(error) => !begins_with(line@, prefix@) && error@ == "Invalid patch path header"@,
        },
{
    match after_prefix(line, prefix) {
        Some(value) => {
            let parts = split(&value, '\t');
            proof {
                assert(deep(parts@)[0] == parts@[0]@);
            }
            Ok(trim_char(&trim(&parts[0]), '"'))
        },
        None => Err("Invalid patch path header".to_owned()),
    }
}

/// A path without the letter in front of it.
pub fn strip_prefix(path: &str) -> (r: String)
    ensures
        r@ == bare_path(path@),
{
    proof {
        reveal_strlit("a/");
        reveal_strlit("b/");
    }
    match after_prefix(path, "a/") {
        Some(rest) => rest,
        None => match after_prefix(path, "b/") {
            Some(rest) => rest,
            None => path.to_owned(),
        },
    }
}

proof fn lemma_only_added_error(hunks: Seq<HunkModel>, i: int)
    requires
        0 <= i <= hunks.len(),
        only_added(hunks.take(i)) is Err,
    ensures
        only_added(hunks) is Err,
    decreases hunks.len() - i,
{
    if i == hunks.len() {
        assert(hunks.take(i) =~= hunks);
    } else {
        assert(hunks.take(i + 1).drop_last() =~= hunks.take(i));
        lemma_only_added_error(hunks, i + 1);
    }
}

proof fn lemma_only_added_lines_error(lines: Seq<LineModel>, i: int)
    requires
        0 <= i <= lines.len(),
        only_added_lines(lines.take(i)) is Err,
    ensures
        only_added_lines(lines) is Err,
    decreases lines.len() - i,
{
    if i == lines.len() {
        assert(lines.take(i) =~= lines);
    } else {
        assert(lines.take(i + 1).drop_last() =~= lines.take(i));
        lemma_only_added_lines_error(lines, i + 1);
    }
}

/// The lines of a file that hunks add.
pub fn added_lines(hunks: &[Hunk]) -> (r: Result<Vec<String>, String>)
    ensures
        match r {
            Ok(lines) => only_added(deep(hunks@)) == Ok::<Seq<Seq<char>>, Seq<char>>(deep(lines@)),
            Err(error) => only_added(deep(hunks@)) == Err::<Seq<Seq<char>>, Seq<char>>(error@),
        },
{
    let ghost models = deep(hunks@);
    let mut out: Vec<String> = Vec::new();
    let mut i: usize = 0;
    proof {
        assert(models.take(0) =~= Seq::<HunkModel>::empty());
        assert(deep(out@) =~= Seq::<Seq<char>>::empty());
    }
    while i < hunks.len()
        invariant
            i <= hunks@.len(),
            models == deep(hunks@),
            only_added(models.take(i as int)) == Ok::<Seq<Seq<char>>, Seq<char>>(deep(out@)),
        decreases hunks@.len() - i,
    {
        let hunk = &hunks[i];
        let ghost lines = deep(hunk.lines@);
        let ghost before = deep(out@);
        let mut j: usize = 0;
        proof {
            assert(models.take(i + 1).drop_last() =~= models.take(i as int));
            assert(models.take(i + 1).last() == hunk.deep_view());
            assert(lines.take(0) =~= Seq::<LineModel>::empty());
            assert(before + Seq::<Seq<char>>::empty() =~= before);
        }
        while j < hunk.lines.len()
            invariant
                i < hunks@.len(),
                models == deep(hunks@),
                only_added(models.take(i as int)) == Ok::<Seq<Seq<char>>, Seq<char>>(before),
                *hunk == hunks@[i as int],
                j <= hunk.lines@.len(),
                lines == deep(hunk.lines@),
                only_added_lines(lines.take(j as int)) is Ok,
                deep(out@) == before + only_added_lines(lines.take(j as int))->Ok_0,
            decreases hunk.lines@.len() - j,
        {
            let ghost so_far = only_added_lines(lines.take(j as int))->Ok_0;
            proof {
                assert(lines.take(j + 1).drop_last() =~= lines.take(j as int));
                assert(lines.take(j + 1).last() == hunk.lines@[j as int].deep_view());
            }
            match &hunk.lines[j] {
                Line::Add(text) => {
                    out.push(text.clone());
                    proof {
                        assert((before + so_far).push(text@) =~= before + so_far.push(text@));
                    }
                },
                _ => {
                    proof {
                        lemma_only_added_lines_error(lines, j + 1);
                        assert(models.take(i + 1).drop_last() =~= models.take(i as int));
                        assert(models.take(i + 1).last() == hunk.deep_view());
                        lemma_only_added_error(models, i + 1);
                    }
                    return Err("A unified add patch may contain only added lines".to_owned());
                },
            }
            j += 1;
        }
        proof {
            assert(lines.take(hunk.lines@.len() as int) =~= lines);
        }
        i += 1;
    }
    proof {
        assert(models.take(hunks@.len() as int) =~= models);
    }
    Ok(out)
}

/// The operation of one file in a unified patch.
fn read_unified(old_path: String, new_path: String, body: &[String]) -> (r: Result<
    FileOperation,
    String,
>)
    ensures
        match r {
            Ok(operation) => unified_operation(old_path@, new_path@, deep(body@)) == Ok::<
                OperationModel,
                Seq<char>,
            >(operation.deep_view()),
            Err(error) => unified_operation(old_path@, new_path@, deep(body@)) == Err::<
                OperationModel,
                Seq<char>,
            >(error@),
        },
{
    let hunks = match parse_hunks(body) {
        Ok(hunks) => hunks,
        Err(error) => {
            return Err(error);
        },
    };
    if same(&old_path, "/dev/null") {
        match added_lines(&hunks) {
            Ok(lines) => Ok(FileOperation::Add { path: strip_prefix(&new_path), lines }),
            Err(error) => Err(error),
        }
    } else if same(&new_path, "/dev/null") {
        Ok(FileOperation::Delete { path: strip_prefix(&old_path), hunks: Some(hunks) })
    } else {
        Ok(FileOperation::Update { path: strip_prefix(&old_path), move_to: None, hunks })
    }
}

/// The lines from `from` up to, but not including, `to`.
fn copy_lines(lines: &[String], from: usize, to: usize) -> (r: Vec<String>)
    requires
        from <= to <= lines@.len(),
    ensures
        deep(r@) == deep(lines@).subrange(from as int, to as int),
{
    let mut r: Vec<String> = Vec::new();
    let mut i: usize = from;
    while i < to
        invariant
            from <= i <= to <= lines@.len(),
            deep(r@) == deep(lines@).subrange(from as int, i as int),
        decreases to - i,
    {
        r.push(lines[i].clone());
        i += 1;
        proof {
            assert(deep(lines@).subrange(from as int, i as int) =~= deep(lines@).subrange(
                from as int,
                i - 1,
            ).push(deep(lines@)[i - 1]));
        }
    }
    r
}

/// What a unified patch does, where it does something.
pub open spec fn unified_operations(lines: Seq<Seq<char>>) -> Result<
    Seq<OperationModel>,
    Seq<char>,
> {
    match unified_from(lines, 0) {
        Ok(operations) => if operations.len() == 0 {
            Err("Unable to find a supported unified patch"@)
        } else {
            Ok(operations)
        },
        Err(error) => Err(error),
    }
}

/// Reads a patch in the unified form.
pub fn parse_unified(lines: &[String]) -> (r: Result<Vec<FileOperation>, String>)
    ensures
        match r {
            Ok(operations) => unified_operations(deep(lines@)) == Ok::<
                Seq<OperationModel>,
                Seq<char>,
            >(deep(operations@)),
            Err(error) => unified_operations(deep(lines@)) == Err::<
                Seq<OperationModel>,
                Seq<char>,
            >(error@),
        },
{
    let ghost models = deep(lines@);
    let mut operations: Vec<FileOperation> = Vec::new();
    let mut index: usize = 0;
    proof {
        reveal_strlit("--- ");
        reveal_strlit("+++ ");
        assert(and_then(Seq::empty(), unified_from(models, 0)) == unified_from(models, 0)) by {
            if let Ok(all) = unified_from(models, 0) {
                assert(Seq::<OperationModel>::empty() + all =~= all);
            }
        }
        assert(deep(operations@) =~= Seq::<OperationModel>::empty());
    }
    while index < lines.len()
        invariant
            index <= lines@.len(),
            models == deep(lines@),
            "--- "@.len() == 4,
            "+++ "@.len() == 4,
            and_then(deep(operations@), unified_from(models, index as int)) == unified_from(
                models,
                0,
            ),
        decreases lines@.len() - index,
    {
        let ghost read = deep(operations@);
        let ghost at = index as int;
        proof {
            assert(models[at] == lines@[at]@);
            if at + 1 < models.len() {
                assert(models[at + 1] == lines@[at + 1]@);
                lemma_body_end(models, at + 2);
            }
        }
        let old_path = match header_path(&lines[index], "--- ") {
            Ok(path) => path,
            Err(_) => {
                index += 1;
                continue;
            },
        };
        index += 1;
        if index >= lines.len() {
            return Err("Unified patch is missing its +++ path".to_owned());
        }
        let new_path = match header_path(&lines[index], "+++ ") {
            Ok(path) => path,
            Err(_) => {
                return Err("Unified patch is missing its +++ path".to_owned());
            },
        };
        index += 1;
        let from = index;
        while index < lines.len() && !starts_with(&lines[index], "--- ")
            invariant
                from <= index <= lines@.len(),
                models == deep(lines@),
                body_end(models, from as int) == body_end(models, index as int),
            decreases lines@.len() - index,
        {
            proof {
                assert(models[index as int] == lines@[index as int]@);
            }
            index += 1;
        }
        proof {
            if index < lines@.len() {
                assert(models[index as int] == lines@[index as int]@);
            }
            assert(body_end(models, from as int) == index);
        }
        let body = copy_lines(lines, from, index);
        let operation = match read_unified(old_path, new_path, &body) {
            Ok(operation) => operation,
            Err(error) => {
                return Err(error);
            },
        };
        proof {
            lemma_and_then_push(read, operation.deep_view(), unified_from(models, index as int));
        }
        operations.push(operation);
    }
    proof {
        assert(deep(operations@) + Seq::<OperationModel>::empty() =~= deep(operations@));
    }
    if operations.is_empty() {
        return Err("Unable to find a supported unified patch".to_owned());
    }
    Ok(operations)
}

// ---- reading a patch ----

/// The text with every line ending made a line feed.
pub open spec fn unified_newlines(s: Seq<char>) -> Seq<char>
    decreases s.len(),
{
    if s.len() == 0 {
        Seq::empty()
    } else {
        let head = unified_newlines(s.drop_last());
        if s.last() == '\r' {
            head.push('\n')
        } else if s.last() == '\n' && s.len() > 1 && s[s.len() - 2] == '\r' {
            head
        } else {
            head.push(s.last())
        }
    }
}

/// What a patch does.
pub open spec fn operations_of(patch: Seq<char>) -> Result<Seq<OperationModel>, Seq<char>> {
    let lines = split_on(unified_newlines(patch), '\n');
    if exists|i: int|
        0 <= i < lines.len() && encode_utf8(#[trigger] lines[i]).len() > MAX_LINE_BYTES {
        Err("Patch contains an oversized line"@)
    } else if trimmed(lines[0]) == "*** Begin Patch"@ {
        directives_from(lines, 1)
    } else {
        unified_operations(lines)
    }
}

fn to_unified_newlines(s: &str) -> (r: String)
    ensures
        r@ == unified_newlines(s@),
{
    let v = chars_of(s);
    let mut out: Vec<char> = Vec::new();
    let mut i: usize = 0;
    while i < v.len()
        invariant
            i <= v@.len(),
            v@ == s@,
            out@ == unified_newlines(s@.take(i as int)),
        decreases v@.len() - i,
    {
        if v[i] == '\r' {
            out.push('\n');
        } else if v[i] == '\n' && i > 0 && v[i - 1] == '\r' {
        } else {
            out.push(v[i]);
        }
        i += 1;
        proof {
            assert(s@.take(i as int).drop_last() =~= s@.take(i - 1));
        }
    }
    proof {
        assert(s@.take(s@.len() as int) =~= s@);
    }
    string_of(&out)
}

/// Reads a patch.
pub fn parse(patch: &str) -> (r: Result<Vec<FileOperation>, String>)
    ensures
        match r {
            Ok(operations) => operations_of(patch@) == Ok::<Seq<OperationModel>, Seq<char>>(
                deep(operations@),
            ),
            Err(error) => operations_of(patch@) == Err::<Seq<OperationModel>, Seq<char>>(error@),
        },
{
    let text = to_unified_newlines(patch);
    let lines = split(&text, '\n');
    let ghost models = deep(lines@);
    let mut i: usize = 0;
    while i < lines.len()
        invariant
            i <= lines@.len(),
            models == deep(lines@),
            models == split_on(unified_newlines(patch@), '\n'),
            forall|j: int|
                0 <= j < i ==> encode_utf8(#[trigger] models[j]).len() <= MAX_LINE_BYTES,
        decreases lines@.len() - i,
    {
        proof {
            assert(models[i as int] == lines@[i as int]@);
        }
        if byte_len(&lines[i]) > MAX_LINE_BYTES {
            return Err("Patch contains an oversized line".to_owned());
        }
        i += 1;
    }
    proof {
        assert(models[0] == lines@[0]@);
    }
    if same(&trim(&lines[0]), "*** Begin Patch") {
        parse_apply_patch(&lines)
    } else {
        parse_unified(&lines)
    }
}

} // verus!
