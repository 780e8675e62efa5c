//! Reading, listing and searching the files of a repository.

use vstd::prelude::*;
use vstd::utf8::encode_utf8;

use super::arguments::{
    argument, argument_flag, argument_number, argument_or, argument_text, argument_with_default,
    flag_argument, integer_argument,
};
use super::glob::{glob_matches, matches_glob};
use super::limits::{
    bounded_append, finish_bounded, finished_output, fits_in, room_for, MAX_GLOB_RESULTS,
    MAX_GREP_MATCHES, MAX_LINE_BYTES, MAX_OUTPUT_CHARS, MAX_READ_LINES, MAX_WALK_FILES,
};
use crate::deep::{deep, group_deep};
use crate::json::{Json, JsonModel};
use crate::number::{decimal, number_text};
use crate::order::{law_sorted, lemma_sorted_members, sort, sorted};
use crate::text::{
    byte_len, chars_of, concat4, contains, first_chars, has_part, index_of, join, joined,
    lemma_next_char, lowercase, lowered, replace_char, replaced_char, same, substring, take_chars,
    to_ascii_lower, to_lowercase,
};

verus! {

broadcast use group_deep;

// ---- lines ----

/// A line without its ending.
pub open spec fn without_ending(line: Seq<char>) -> Seq<char>
    decreases line.len(),
{
    if line.len() > 0 && (line.last() == '\r' || line.last() == '\n') {
        without_ending(line.drop_last())
    } else {
        line
    }
}

/// Whether a line cannot be shown: it is too long, or is no text.
pub open spec fn unreadable(line: Seq<char>) -> bool {
    encode_utf8(line).len() > MAX_LINE_BYTES || line.contains('\0')
}

/// A line without its ending.
pub fn strip_ending(line: &str) -> (r: String)
    ensures
        r@ == without_ending(line@),
{
    let v = chars_of(line);
    let mut n: usize = v.len();
    proof {
        assert(v@.take(n as int) =~= v@);
    }
    while n > 0 && (v[n - 1] == '\r' || v[n - 1] == '\n')
        invariant
            n <= v@.len(),
            v@ == line@,
            without_ending(line@) == without_ending(v@.take(n as int)),
        decreases n,
    {
        proof {
            assert(v@.take(n as int).last() == v@[n - 1]);
            assert(v@.take(n as int).drop_last() =~= v@.take(n - 1));
        }
        n -= 1;
    }
    proof {
        if n > 0 {
            assert(v@.take(n as int).last() == v@[n - 1]);
        }
        assert(v@.subrange(0, n as int) =~= v@.take(n as int));
    }
    substring(&v, 0, n)
}

fn is_unreadable(line: &str) -> (r: bool)
    ensures
        r == unreadable(line@),
{
    if byte_len(line) > MAX_LINE_BYTES {
        return true;
    }
    let v = chars_of(line);
    let zero = index_of(&v, '\0', 0);
    proof {
        lemma_next_char(line@, '\0', 0);
        if zero < line@.len() {
            assert(line@[zero as int] == '\0');
        }
    }
    zero < v.len()
}

// ---- showing a file ----

/// Which lines of which file are to be shown.
#[derive(Debug, PartialEq, Eq)]
pub struct ReadRequest {
    pub path: String,
    pub start: usize,
    pub end: usize,
    pub numbers: bool,
}

/// The sum, or the largest number.
pub open spec fn plus(a: nat, b: nat) -> nat {
    if a + b <= usize::MAX {
        a + b
    } else {
        usize::MAX as nat
    }
}

/// The first line to be shown.
pub open spec fn first_line(arguments: JsonModel) -> nat {
    match argument_number(arguments, "line_start"@) {
        Some(n) if n > 1 => n as nat,
        _ => 1,
    }
}

/// The last line to be shown: not before the first, and not too far behind it.
pub open spec fn last_line(arguments: JsonModel) -> nat {
    let start = first_line(arguments);
    let furthest = plus(start, (MAX_READ_LINES - 1) as nat);
    match argument_number(arguments, "line_end"@) {
        Some(n) => if n < start {
            start
        } else if n > furthest {
            furthest
        } else {
            n as nat
        },
        None => furthest,
    }
}

/// Which lines of which file are to be shown.
pub fn read_request(arguments: &Json) -> (r: ReadRequest)
    ensures
        r.path@ == argument_or(arguments.deep_view(), "path"@, "."@),
        r.start == first_line(arguments.deep_view()),
        r.end == last_line(arguments.deep_view()),
        r.numbers == argument_flag(arguments.deep_view(), "line_numbers"@, true),
{
    let start: usize = match integer_argument(arguments, "line_start") {
        Some(n) => if n > 1 {
            n
        } else {
            1
        },
        None => 1,
    };
    let furthest: usize = start.saturating_add(MAX_READ_LINES - 1);
    let end: usize = match integer_argument(arguments, "line_end") {
        Some(n) => if n < start {
            start
        } else if n > furthest {
            furthest
        } else {
            n
        },
        None => furthest,
    };
    ReadRequest {
        path: argument_with_default(arguments, "path", "."),
        start,
        end,
        numbers: flag_argument(arguments, "line_numbers", true),
    }
}

/// A number, moved to the right in a column of six characters.
pub open spec fn padded(n: nat) -> Seq<char> {
    pad_left(decimal(n), 6)
}

/// A text behind as many spaces as it lacks characters.
pub open spec fn pad_left(s: Seq<char>, width: nat) -> Seq<char>
    decreases width - s.len(),
{
    if s.len() < width {
        pad_left(seq![' '] + s, width)
    } else {
        s
    }
}

/// A number, moved to the right in a column of six characters.
pub fn padded_number(n: usize) -> (r: String)
    ensures
        r@ == padded(n as nat),
{
    let mut text = number_text(n as u64);
    while text.as_str().unicode_len() < 6
        invariant
            pad_left(text@, 6) == padded(n as nat),
        decreases 6 - text@.len(),
    {
        let mut wider = " ".to_owned();
        wider.append(&text);
        proof {
            reveal_strlit(" ");
            assert(wider@ =~= seq![' '] + text@);
        }
        text = wider;
    }
    text
}

/// A line as it is shown.
pub open spec fn shown_line(number: nat, line: Seq<char>, numbers: bool) -> Seq<char> {
    if numbers {
        padded(number) + " | "@ + without_ending(line) + "\n"@
    } else {
        without_ending(line) + "\n"@
    }
}

/// How far showing a file has come.
pub struct ViewModel {
    pub output: Seq<char>,
    pub selected: nat,
    pub next: nat,
    pub full: bool,
}

/// Shows the lines from `number` on. There is nothing where a line cannot be shown.
pub open spec fn view_from(
    lines: Seq<Seq<char>>,
    start: nat,
    end: nat,
    numbers: bool,
    output: Seq<char>,
    selected: nat,
    number: nat,
) -> Option<ViewModel>
    decreases lines.len() + 1 - number,
{
    if number > end || number > lines.len() || number == 0 {
        Some(ViewModel { output, selected, next: number, full: false })
    } else if unreadable(lines[number - 1]) {
        None
    } else if number < start {
        view_from(lines, start, end, numbers, output, selected, number + 1)
    } else {
        let text = shown_line(number, lines[number - 1], numbers);
        let more = output + room_for(text, output.len());
        if fits_in(text, output.len()) {
            view_from(lines, start, end, numbers, more, selected + 1, number + 1)
        } else {
            Some(ViewModel { output: more, selected, next: number, full: true })
        }
    }
}

/// The beginning of what is shown of a file.
pub open spec fn view_header(relative: Seq<char>, start: nat, end: nat) -> Seq<char> {
    relative + " lines "@ + decimal(start) + "-"@ + decimal(end) + "\n"@
}

/// What is shown of a file. `failure` says why the line behind `lines` could not be read, if it
/// could not; it counts where that line is reached.
pub open spec fn file_view(
    path: Seq<char>,
    relative: Seq<char>,
    start: nat,
    end: nat,
    numbers: bool,
    lines: Seq<Seq<char>>,
    failure: Option<Seq<char>>,
) -> Result<Seq<char>, Seq<char>> {
    let header = view_header(relative, start, end);
    match view_from(lines, start, end, numbers, header, 0, 1) {
        None => Err(path + " is binary or contains an oversized line"@),
        Some(view) => if failure is Some && !view.full && view.next <= end {
            Err("Unable to read "@ + relative + ": "@ + failure->0)
        } else if view.selected == 0 {
            Err("Line range starts after the end of "@ + path)
        } else {
            Ok(finished_output(view.output, view.full || view.next <= end))
        },
    }
}

/// What is shown of a file. `lines` are its lines, with their endings, at least as far as they
/// are asked for. `failure` says why the line behind them could not be read, if it could not.
pub fn read_file(
    request: &ReadRequest,
    relative: &str,
    lines: &[String],
    failure: &Option<String>,
) -> (r: Result<String, String>)
    ensures
        match r {
            Ok(text) => file_view(
                request.path@,
                relative@,
                request.start as nat,
                request.end as nat,
                request.numbers,
                deep(lines@),
                failure.deep_view(),
            ) == Ok::<Seq<char>, Seq<char>>(text@),
            Err(error) => file_view(
                request.path@,
                relative@,
                request.start as nat,
                request.end as nat,
                request.numbers,
                deep(lines@),
                failure.deep_view(),
            ) == Err::<Seq<char>, Seq<char>>(error@),
        },
{
    let ghost models = deep(lines@);
    let start = request.start;
    let end = request.end;
    let mut output = relative.to_owned();
    output.append(" lines ");
    output.append(&number_text(start as u64));
    output.append("-");
    output.append(&number_text(end as u64));
    output.append("\n");
    let ghost header = output@;
    let mut chars: usize = output.as_str().unicode_len();
    let mut selected: usize = 0;
    let mut read: usize = 0;
    let mut full = false;
    while read < end && read < lines.len() && !full
        invariant
            models == deep(lines@),
            start == request.start,
            end == request.end,
            read <= end,
            read <= lines@.len(),
            chars == output@.len(),
            selected <= read,
            header == view_header(relative@, start as nat, end as nat),
            !full ==> view_from(
                models,
                start as nat,
                end as nat,
                request.numbers,
                output@,
                selected as nat,
                read as nat + 1,
            ) == view_from(
                models,
                start as nat,
                end as nat,
                request.numbers,
                header,
                0,
                1,
            ),
            full ==> read < end && view_from(
                models,
                start as nat,
                end as nat,
                request.numbers,
                header,
                0,
                1,
            ) == Some(
                ViewModel {
                    output: output@,
                    selected: selected as nat,
                    next: read as nat + 1,
                    full: true,
                },
            ),
        decreases (if full { 0int } else { 1 + end - read }),
    {
        let line = &lines[read];
        let number: usize = read + 1;
        proof {
            assert(models[read as int] == line@);
        }
        if is_unreadable(line) {
            let mut error = request.path.clone();
            error.append(" is binary or contains an oversized line");
            return Err(error);
        }
        if number >= start {
            let mut text = String::new();
            if request.numbers {
                text.append(&padded_number(number));
                text.append(" | ");
            }
            text.append(&strip_ending(line));
            text.append("\n");
            proof {
                assert(text@ =~= shown_line(number as nat, line@, request.numbers));
            }
            if bounded_append(&mut output, &text, &mut chars) {
                selected += 1;
                read += 1;
            } else {
                full = true;
            }
        } else {
            read += 1;
        }
    }
    if let Some(reason) = failure {
        if !full && read < end {
            return Err(concat4("Unable to read ", relative, ": ", reason));
        }
    }
    if selected == 0 {
        let mut error = "Line range starts after the end of ".to_owned();
        error.append(&request.path);
        return Err(error);
    }
    Ok(finish_bounded(output, full || read < end))
}

// ---- listing a directory ----

/// Whether a directory is never looked into.
pub open spec fn ignored(name: Seq<char>) -> bool {
    name == ".git"@ || name == ".hg"@ || name == ".svn"@ || name == ".rustpilot"@ || name
        == ".runtime"@ || name == ".cache"@ || name == "node_modules"@ || name == "target"@ || name
        == "target-msvc"@ || name == "target-test"@ || name == "dist"@ || name == "build"@
}

/// Whether a directory is never looked into.
pub fn is_ignored_directory(name: &str) -> (r: bool)
    ensures
        r == ignored(name@),
{
    same(name, ".git") || same(name, ".hg") || same(name, ".svn") || same(name, ".rustpilot")
        || same(name, ".runtime") || same(name, ".cache") || same(name, "node_modules") || same(
        name,
        "target",
    ) || same(name, "target-msvc") || same(name, "target-test") || same(name, "dist") || same(
        name,
        "build",
    )
}

/// How many results are shown: what is asked for, but at least one and not too many.
pub open spec fn result_limit(arguments: JsonModel, key: Seq<char>, most: nat) -> nat {
    match argument_number(arguments, key) {
        Some(n) => if n < 1 {
            1
        } else if n > most {
            most
        } else {
            n as nat
        },
        None => most,
    }
}

/// How many results are shown.
pub fn limit_argument(arguments: &Json, key: &str, most: usize) -> (r: usize)
    requires
        most >= 1,
    ensures
        r == result_limit(arguments.deep_view(), key@, most as nat),
        1 <= r <= most,
{
    match integer_argument(arguments, key) {
        Some(n) => if n < 1 {
            1
        } else if n > most {
            most
        } else {
            n
        },
        None => most,
    }
}

/// The lines of a listing, from the line `i` on, added to the output as far as there is room.
pub open spec fn listed_from(
    lines: Seq<Seq<char>>,
    limit: nat,
    output: Seq<char>,
    i: nat,
) -> (Seq<char>, bool)
    decreases lines.len() - i,
{
    if i >= lines.len() {
        (output, false)
    } else if i >= limit {
        (output, true)
    } else {
        let text = lines[i as int] + "\n"@;
        let more = output + room_for(text, output.len());
        if fits_in(text, output.len()) {
            listed_from(lines, limit, more, i + 1)
        } else {
            (more, true)
        }
    }
}

/// What an entry of a directory is.
#[derive(Debug, Clone, Copy, PartialEq, Eq, Structural)]
pub enum EntryKind {
    Directory,
    File,
    Other,
}

/// An entry of a directory.
#[derive(Debug, PartialEq, Eq)]
pub struct DirEntry {
    pub kind: EntryKind,
    pub name: String,
}

/// What an entry of a directory is.
pub struct EntryInfo {
    pub kind: EntryKind,
    pub name: Seq<char>,
}

impl DeepView for DirEntry {
    type V = EntryInfo;

    open spec fn deep_view(&self) -> EntryInfo {
        EntryInfo { kind: self.kind, name: self.name@ }
    }
}

/// The letter of a kind, and a space.
pub open spec fn kind_text(kind: EntryKind) -> Seq<char> {
    match kind {
        EntryKind::Directory => "d "@,
        EntryKind::File => "f "@,
        EntryKind::Other => "l "@,
    }
}

/// The entries that are listed, each as its kind and its name.
pub open spec fn listed_names(entries: Seq<EntryInfo>) -> Seq<Seq<char>>
    decreases entries.len(),
{
    if entries.len() == 0 {
        Seq::empty()
    } else {
        let head = listed_names(entries.drop_last());
        let entry = entries.last();
        if entry.kind == EntryKind::Directory && ignored(entry.name) {
            head
        } else {
            head.push(kind_text(entry.kind) + entry.name)
        }
    }
}

/// An entry as it is shown: its kind, and its path.
pub open spec fn entry_line(relative: Seq<char>, entry: Seq<char>) -> Seq<char> {
    let name = replaced_char(entry.skip(2), '\\', '/');
    if relative == "."@ {
        entry.take(2) + name
    } else {
        entry.take(2) + relative + "/"@ + name
    }
}

/// The listing of a directory: its name, and its entries in order, each with its kind.
pub open spec fn directory_listing(
    relative: Seq<char>,
    entries: Seq<EntryInfo>,
    limit: nat,
) -> Seq<char> {
    let header = relative + "\n"@;
    let names = listed_names(entries);
    let lines = sorted(names).map_values(|entry: Seq<char>| entry_line(relative, entry));
    let (output, truncated) = listed_from(lines, limit, header, 0);
    if names.len() == 0 {
        finished_output(output + "[empty]\n"@, truncated)
    } else {
        finished_output(output, truncated)
    }
}

fn kind_prefix(kind: EntryKind) -> (r: &'static str)
    ensures
        r@ == kind_text(kind),
{
    match kind {
        EntryKind::Directory => "d ",
        EntryKind::File => "f ",
        EntryKind::Other => "l ",
    }
}

fn list_names(entries: &[DirEntry]) -> (r: Vec<String>)
    ensures
        deep(r@) == listed_names(deep(entries@)),
{
    let ghost models = deep(entries@);
    let mut r: Vec<String> = Vec::new();
    let mut i: usize = 0;
    proof {
        assert(models.take(0) =~= Seq::<EntryInfo>::empty());
        assert(deep(r@) =~= Seq::<Seq<char>>::empty());
    }
    while i < entries.len()
        invariant
            i <= entries@.len(),
            models == deep(entries@),
            deep(r@) == listed_names(models.take(i as int)),
        decreases entries@.len() - i,
    {
        let entry = &entries[i];
        proof {
            assert(models.take(i + 1).drop_last() =~= models.take(i as int));
            assert(models.take(i + 1).last() == entry.deep_view());
        }
        if !(entry.kind == EntryKind::Directory && is_ignored_directory(&entry.name)) {
            let mut text = kind_prefix(entry.kind).to_owned();
            text.append(&entry.name);
            r.push(text);
        }
        i += 1;
    }
    proof {
        assert(models.take(entries@.len() as int) =~= models);
    }
    r
}

fn show_entry(relative: &str, entry: &str) -> (r: String)
    requires
        entry@.len() >= 2,
    ensures
        r@ == entry_line(relative@, entry@),
{
    let v = chars_of(entry);
    let mut r = substring(&v, 0, 2);
    let name = substring(&v, 2, v.len());
    proof {
        assert(r@ =~= entry@.take(2));
        assert(name@ =~= entry@.skip(2));
    }
    if !same(relative, ".") {
        r.append(relative);
        r.append("/");
    }
    r.append(&replace_char(&name, '\\', '/'));
    r
}

proof fn lemma_listed_len(entries: Seq<EntryInfo>)
    ensures
        forall|i: int|
            0 <= i < listed_names(entries).len() ==> (#[trigger] listed_names(entries)[i]).len()
                >= 2,
    decreases entries.len(),
{
    reveal_strlit("d ");
    reveal_strlit("f ");
    reveal_strlit("l ");
    if entries.len() > 0 {
        lemma_listed_len(entries.drop_last());
        let head = listed_names(entries.drop_last());
        assert forall|i: int| 0 <= i < listed_names(entries).len() implies (
        #[trigger] listed_names(entries)[i]).len() >= 2 by {
            if i < head.len() {
                assert(listed_names(entries)[i] == head[i]);
            }
        }
    }
}

/// The listing of a directory.
pub fn list_directory(relative: &str, entries: &[DirEntry], limit: usize) -> (r: String)
    ensures
        r@ == directory_listing(relative@, deep(entries@), limit as nat),
{
    let names = list_names(entries);
    let lines = sort(&names);
    let ghost models = deep(lines@).map_values(|entry: Seq<char>| entry_line(relative@, entry));
    proof {
        law_sorted(deep(names@));
        lemma_listed_len(deep(entries@));
        assert forall|i: int| 0 <= i < deep(lines@).len() implies (
        #[trigger] deep(lines@)[i]).len() >= 2 by {
            lemma_sorted_members(deep(names@), i);
        }
    }
    let mut output = relative.to_owned();
    output.append("\n");
    let ghost header = output@;
    let mut chars: usize = output.as_str().unicode_len();
    let mut truncated = false;
    let mut i: usize = 0;
    while i < lines.len() && !truncated
        invariant
            models == deep(lines@).map_values(|entry: Seq<char>| entry_line(relative@, entry)),
            forall|k: int| 0 <= k < deep(lines@).len() ==> (#[trigger] deep(lines@)[k]).len() >= 2,
            i <= lines@.len(),
            chars == output@.len(),
            !truncated ==> listed_from(models, limit as nat, output@, i as nat) == listed_from(
                models,
                limit as nat,
                header,
                0,
            ),
            truncated ==> listed_from(models, limit as nat, header, 0) == (output@, true),
        decreases (if truncated { 0int } else { 1 + lines@.len() - i }),
    {
        proof {
            assert(deep(lines@)[i as int] == lines@[i as int]@);
            assert(models[i as int] == entry_line(relative@, lines@[i as int]@));
        }
        if i >= limit {
            truncated = true;
        } else {
            let mut text = show_entry(relative, &lines[i]);
            text.append("\n");
            if bounded_append(&mut output, &text, &mut chars) {
                i += 1;
            } else {
                truncated = true;
            }
        }
    }
    if names.len() == 0 {
        output.append("[empty]\n");
    }
    finish_bounded(output, truncated)
}

// ---- finding files by their names ----

/// The paths that match a pattern, in the order in which they were found.
pub open spec fn matching(pattern: Seq<char>, paths: Seq<Seq<char>>) -> Seq<Seq<char>> {
    paths.filter(|path: Seq<char>| glob_matches(pattern, path))
}

/// What is shown of the files that match a pattern: the first `limit` of them, in order.
pub open spec fn glob_output(
    pattern: Seq<char>,
    paths: Seq<Seq<char>>,
    limit: nat,
    walk_truncated: bool,
) -> Seq<char> {
    let found = matching(pattern, paths);
    let shown = if found.len() > limit {
        found.take(limit as int)
    } else {
        found
    };
    let text = if found.len() == 0 {
        "No files found\n"@
    } else {
        joined(sorted(shown), "\n"@) + "\n"@
    };
    finished_output(text, walk_truncated || found.len() > limit)
}

proof fn lemma_filter_prefix(
    paths: Seq<Seq<char>>,
    keep: spec_fn(Seq<char>) -> bool,
    i: int,
    found: Seq<Seq<char>>,
    limit: nat,
)
    requires
        0 <= i <= paths.len(),
        found == paths.take(i).filter(keep),
        found.len() > limit,
    ensures
        paths.filter(keep).len() > limit,
        paths.filter(keep).take(limit as int) == found.take(limit as int),
    decreases paths.len() - i,
{
    if i == paths.len() {
        assert(paths.take(i) =~= paths);
    } else {
        assert(paths.take(i + 1) =~= paths.take(i).push(paths[i]));
        paths.take(i).lemma_filter_push(paths[i], keep);
        let more = paths.take(i + 1).filter(keep);
        lemma_filter_prefix(paths, keep, i + 1, more, limit);
        assert(more.take(limit as int) =~= found.take(limit as int));
    }
}

/// What is shown of the files that match a pattern.
pub fn glob_files(pattern: &str, paths: &[String], limit: usize, walk_truncated: bool) -> (r:
    String)
    requires
        limit >= 1,
    ensures
        r@ == glob_output(pattern@, deep(paths@), limit as nat, walk_truncated),
{
    let ghost models = deep(paths@);
    let ghost keep = |path: Seq<char>| glob_matches(pattern@, path);
    let mut found: Vec<String> = Vec::new();
    let mut i: usize = 0;
    proof {
        assert(models.take(0) =~= Seq::<Seq<char>>::empty());
        assert(deep(found@) =~= models.take(0).filter(keep));
    }
    while i < paths.len() && found.len() <= limit
        invariant
            i <= paths@.len(),
            models == deep(paths@),
            keep == (|path: Seq<char>| glob_matches(pattern@, path)),
            deep(found@) == models.take(i as int).filter(keep),
            found@.len() <= limit + 1,
        decreases paths@.len() - i,
    {
        proof {
            assert(models.take(i + 1) =~= models.take(i as int).push(models[i as int]));
            models.take(i as int).lemma_filter_push(models[i as int], keep);
            assert(models[i as int] == paths@[i as int]@);
        }
        if matches_glob(pattern, &paths[i]) {
            found.push(paths[i].clone());
        }
        i += 1;
    }
    let ghost some = deep(found@);
    proof {
        if found@.len() > limit {
            lemma_filter_prefix(models, keep, i as int, some, limit as nat);
        } else {
            assert(models.take(i as int) =~= models);
        }
        assert(some.len() == found@.len());
    }
    let over = found.len() > limit;
    if over {
        found.truncate(limit);
        proof {
            assert(deep(found@) =~= some.take(limit as int));
        }
    }
    let text = if found.is_empty() {
        "No files found\n".to_owned()
    } else {
        let mut text = join(&sort(&found), "\n");
        text.append("\n");
        text
    };
    finish_bounded(text, walk_truncated || over)
}

// ---- searching in files ----

/// How many characters of a line are shown.
pub const SNIPPET_CHARS: usize = 500;

/// Whether a line holds what is looked for. Where the case does not count, `query` is the pattern
/// in lower case.
pub open spec fn line_matches(
    value: Seq<char>,
    pattern: Seq<char>,
    case_sensitive: bool,
) -> bool {
    let query = lowercase(pattern);
    if case_sensitive {
        has_part(value, pattern)
    } else if vstd::utf8::is_ascii_chars(value) && vstd::utf8::is_ascii_chars(query) {
        has_part(lowered(value), lowered(query))
    } else {
        has_part(lowercase(value), query)
    }
}

/// Whether an ASCII text holds another one, whatever the case of the letters.
pub fn ascii_contains_case_insensitive(haystack: &str, needle: &str) -> (r: bool)
    ensures
        r == has_part(lowered(haystack@), lowered(needle@)),
{
    let a = to_ascii_lower(haystack);
    let b = to_ascii_lower(needle);
    contains(&a, &b)
}

/// What a search has found so far.
#[derive(Debug, PartialEq, Eq)]
pub struct GrepState {
    pub output: String,
    pub matches: usize,
    pub skipped: usize,
    pub done: bool,
}

/// What a search has found so far.
pub struct GrepModel {
    pub output: Seq<char>,
    pub matches: nat,
    pub skipped: nat,
    pub done: bool,
}

impl DeepView for GrepState {
    type V = GrepModel;

    open spec fn deep_view(&self) -> GrepModel {
        GrepModel {
            output: self.output@,
            matches: self.matches as nat,
            skipped: self.skipped as nat,
            done: self.done,
        }
    }
}

/// What is looked for, and how much of it is shown.
#[derive(Debug, PartialEq, Eq)]
pub struct GrepRequest {
    pub pattern: String,
    pub case_sensitive: bool,
    pub max_matches: usize,
}

/// How a found line is shown.
pub open spec fn grep_row(relative: Seq<char>, number: nat, value: Seq<char>) -> Seq<char> {
    relative + ":"@ + decimal(number) + ": "@ + first_chars(value, SNIPPET_CHARS as nat) + "\n"@
}

/// The search through the lines of a file from `i` on. It is done where there is one match more
/// than is shown, or where the output is full.
pub open spec fn grep_lines(
    state: GrepModel,
    pattern: Seq<char>,
    case_sensitive: bool,
    max_matches: nat,
    relative: Seq<char>,
    lines: Seq<Seq<char>>,
    failed: bool,
    i: nat,
) -> GrepModel
    decreases lines.len() - i,
{
    if i >= lines.len() {
        GrepModel {
            skipped: if failed {
                state.skipped + 1
            } else {
                state.skipped
            },
            ..state
        }
    } else if unreadable(lines[i as int]) {
        GrepModel { skipped: state.skipped + 1, ..state }
    } else {
        let value = without_ending(lines[i as int]);
        if !line_matches(value, pattern, case_sensitive) {
            grep_lines(
                state,
                pattern,
                case_sensitive,
                max_matches,
                relative,
                lines,
                failed,
                i + 1,
            )
        } else if state.matches >= max_matches {
            GrepModel { done: true, ..state }
        } else {
            let row = grep_row(relative, i + 1, value);
            let output = state.output + room_for(row, state.output.len());
            if fits_in(row, state.output.len()) {
                grep_lines(
                    GrepModel { output, matches: state.matches + 1, ..state },
                    pattern,
                    case_sensitive,
                    max_matches,
                    relative,
                    lines,
                    failed,
                    i + 1,
                )
            } else {
                GrepModel { output, done: true, ..state }
            }
        }
    }
}

impl GrepState {
    pub fn new() -> (r: Self)
        ensures
            r.deep_view() == (GrepModel {
                output: Seq::empty(),
                matches: 0,
                skipped: 0,
                done: false,
            }),
    {
        GrepState { output: String::new(), matches: 0, skipped: 0, done: false }
    }

    /// Searches through the lines of one more file. `failed` says that the file could not be read
    /// to its end.
    pub fn search(
        &mut self,
        request: &GrepRequest,
        relative: &str,
        lines: &[String],
        failed: bool,
    )
        requires
            !old(self).done,
            old(self).skipped < usize::MAX,
        ensures
            final(self).deep_view() == grep_lines(
                old(self).deep_view(),
                request.pattern@,
                request.case_sensitive,
                request.max_matches as nat,
                relative@,
                deep(lines@),
                failed,
                0,
            ),
    {
        let ghost models = deep(lines@);
        let ghost wanted = grep_lines(
            self.deep_view(),
            request.pattern@,
            request.case_sensitive,
            request.max_matches as nat,
            relative@,
            models,
            failed,
            0,
        );
        let ghost first = *self;
        let query = to_lowercase(&request.pattern);
        let mut chars: usize = self.output.as_str().unicode_len();
        let mut i: usize = 0;
        while i < lines.len()
            invariant
                i <= lines@.len(),
                models == deep(lines@),
                query@ == lowercase(request.pattern@),
                chars == self.output@.len(),
                self.skipped == first.skipped,
                first.skipped < usize::MAX,
                wanted == grep_lines(
                    first.deep_view(),
                    request.pattern@,
                    request.case_sensitive,
                    request.max_matches as nat,
                    relative@,
                    models,
                    failed,
                    0,
                ),
                wanted == grep_lines(
                    self.deep_view(),
                    request.pattern@,
                    request.case_sensitive,
                    request.max_matches as nat,
                    relative@,
                    models,
                    failed,
                    i as nat,
                ),
                *old(self) == first,
            decreases lines@.len() - i,
        {
            let line = &lines[i];
            proof {
                assert(models[i as int] == line@);
            }
            if is_unreadable(line) {
                self.skipped = self.skipped + 1;
                return;
            }
            let value = strip_ending(line);
            let found = if request.case_sensitive {
                contains(&value, &request.pattern)
            } else if value.as_str().is_ascii() && query.as_str().is_ascii() {
                ascii_contains_case_insensitive(&value, &query)
            } else {
                contains(&to_lowercase(&value), &query)
            };
            proof {
                assert(found == line_matches(value@, request.pattern@, request.case_sensitive));
            }
            if found {
                if self.matches >= request.max_matches {
                    self.done = true;
                    return;
                }
                let mut row = relative.to_owned();
                row.append(":");
                row.append(&number_text(i as u64 + 1));
                row.append(": ");
                row.append(&take_chars(&value, SNIPPET_CHARS));
                row.append("\n");
                if !bounded_append(&mut self.output, &row, &mut chars) {
                    self.done = true;
                    return;
                }
                self.matches = self.matches + 1;
            }
            i += 1;
        }
        if failed {
            self.skipped = self.skipped + 1;
        }
    }

    /// What is shown of a search.
    pub fn finish(self) -> (r: String)
        ensures
            r@ == grep_text(self.deep_view()),
    {
        if self.done {
            return finish_bounded(self.output, true);
        }
        let mut output = self.output;
        if self.matches == 0 {
            output.append("No matches\n");
        }
        if self.skipped > 0 {
            output.append("[skipped ");
            output.append(&number_text(self.skipped as u64));
            output.append(" unreadable or binary file(s)]\n");
        }
        finish_bounded(output, false)
    }
}

/// What is shown of a search.
pub open spec fn grep_text(state: GrepModel) -> Seq<char> {
    if state.done {
        finished_output(state.output, true)
    } else {
        let found = if state.matches == 0 {
            state.output + "No matches\n"@
        } else {
            state.output
        };
        let all = if state.skipped > 0 {
            found + "[skipped "@ + decimal(state.skipped) + " unreadable or binary file(s)]\n"@
        } else {
            found
        };
        finished_output(all, false)
    }
}

/// What is looked for, and how much of it is shown.
pub fn grep_request(arguments: &Json) -> (r: Result<GrepRequest, String>)
    ensures
        match pattern_argument(arguments.deep_view()) {
            Some(pattern) => r is Ok && r->Ok_0.pattern@ == pattern && r->Ok_0.case_sensitive
                == argument_flag(arguments.deep_view(), "case_sensitive"@, true)
                && r->Ok_0.max_matches == result_limit(
                arguments.deep_view(),
                "max_results"@,
                MAX_GREP_MATCHES as nat,
            ),
            None => r is Err && r->Err_0@ == "rust_code grep requires pattern"@,
        },
{
    match find_pattern(arguments) {
        Some(pattern) => Ok(
            GrepRequest {
                pattern,
                case_sensitive: flag_argument(arguments, "case_sensitive", true),
                max_matches: limit_argument(arguments, "max_results", MAX_GREP_MATCHES),
            },
        ),
        None => Err("rust_code grep requires pattern".to_owned()),
    }
}

/// The pattern of a search; it may be called a query.
pub open spec fn pattern_argument(arguments: JsonModel) -> Option<Seq<char>> {
    match argument_text(arguments, "pattern"@) {
        Some(pattern) => Some(pattern),
        None => argument_text(arguments, "query"@),
    }
}

/// The pattern of a search; it may be called a query.
pub fn find_pattern(arguments: &Json) -> (r: Option<String>)
    ensures
        r.deep_view() == pattern_argument(arguments.deep_view()),
{
    match argument(arguments, "pattern") {
        Some(pattern) => Some(pattern),
        None => argument(arguments, "query"),
    }
}

/// The pattern of the files that are listed.
pub fn glob_pattern(arguments: &Json) -> (r: Result<String, String>)
    ensures
        match pattern_argument(arguments.deep_view()) {
            Some(pattern) => r is Ok && r->Ok_0@ == pattern,
            None => r is Err && r->Err_0@ == "rust_code glob requires pattern"@,
        },
{
    match find_pattern(arguments) {
        Some(pattern) => Ok(pattern),
        None => Err("rust_code glob requires pattern".to_owned()),
    }
}

/// Whether a file is searched through: where the call names a pattern for files, only those that
/// match it are.
pub fn is_searched(arguments: &Json, relative: &str) -> (r: bool)
    ensures
        r == match argument_text(arguments.deep_view(), "glob"@) {
            Some(filter) => glob_matches(filter, relative@),
            None => true,
        },
{
    match argument(arguments, "glob") {
        Some(filter) => matches_glob(&filter, relative),
        None => true,
    }
}

/// A search never shows more matches than it may.
pub proof fn law_grep_shows_no_more_than_asked_for(
    state: GrepModel,
    pattern: Seq<char>,
    case_sensitive: bool,
    max_matches: nat,
    relative: Seq<char>,
    lines: Seq<Seq<char>>,
    failed: bool,
    i: nat,
)
    requires
        state.matches <= max_matches,
        state.output.len() <= MAX_OUTPUT_CHARS,
    ensures
        ({
            let after = grep_lines(
                state,
                pattern,
                case_sensitive,
                max_matches,
                relative,
                lines,
                failed,
                i,
            );
            after.matches <= max_matches && after.output.len() <= MAX_OUTPUT_CHARS
        }),
    decreases lines.len() - i,
{
    if i < lines.len() && !unreadable(lines[i as int]) {
        let value = without_ending(lines[i as int]);
        if !line_matches(value, pattern, case_sensitive) {
            law_grep_shows_no_more_than_asked_for(
                state,
                pattern,
                case_sensitive,
                max_matches,
                relative,
                lines,
                failed,
                i + 1,
            );
        } else if state.matches < max_matches {
            let row = grep_row(relative, i + 1, value);
            let output = state.output + room_for(row, state.output.len());
            super::limits::law_output_is_bounded(state.output, row);
            if fits_in(row, state.output.len()) {
                law_grep_shows_no_more_than_asked_for(
                    GrepModel { output, matches: state.matches + 1, ..state },
                    pattern,
                    case_sensitive,
                    max_matches,
                    relative,
                    lines,
                    failed,
                    i + 1,
                );
            }
        }
    }
}

} // verus!
