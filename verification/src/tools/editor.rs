//! The text editor of an agent, with its history.

use vstd::prelude::*;

use std::collections::VecDeque;

use crate::agent::newest;
use crate::coding::edit::{count_occurrences, occurrences, replace_occurrences, replaced};
use crate::coding::limits::{truncate_output, MAX_OUTPUT_CHARS, OUTPUT_NOTE};
use crate::coding::search::{padded, padded_number, DirEntry, EntryInfo, EntryKind};
use crate::deep::{deep, group_deep};
use crate::json::{Json, JsonModel};
use crate::number::{decimal, next_number_text, number_text, signed_decimal, signed_text};
use crate::text::{
    begins_with, concat2, join, joined, lines, lines_of, noted, same, starts_with,
};

verus! {

broadcast use group_deep;

/// Stands in the history for a file that was not there.
pub const CREATED_FILE_MARKER: &'static str = "__RUSTPILOT_CREATED__";

/// How many states of a file are remembered.
pub const MAX_HISTORY_ENTRIES: usize = 20;

/// How many entries of a directory are shown.
pub const MAX_DIRECTORY_LINES: usize = 120;

/// The commands of the editor.
#[derive(Debug, Clone, Copy, PartialEq, Eq, Structural)]
pub enum EditorCommand {
    View,
    Create,
    Replace,
    Insert,
    Undo,
}

/// The command with a name.
pub open spec fn command_named(name: Seq<char>) -> Option<EditorCommand> {
    if name == "view"@ {
        Some(EditorCommand::View)
    } else if name == "create"@ {
        Some(EditorCommand::Create)
    } else if name == "str_replace"@ {
        Some(EditorCommand::Replace)
    } else if name == "insert"@ {
        Some(EditorCommand::Insert)
    } else if name == "undo_edit"@ {
        Some(EditorCommand::Undo)
    } else {
        None
    }
}

/// The command and the path of a call.
pub fn editor_command(arguments: &Json) -> (r: Result<(EditorCommand, String), String>)
    ensures
        ({
            let command = arguments.deep_view().text("command"@);
            let path = arguments.deep_view().text("path"@);
            if command is None {
                r is Err && r->Err_0@ == "rust_str_replace_editor requires command"@
            } else if path is None {
                r is Err && r->Err_0@ == "rust_str_replace_editor requires path"@
            } else {
                match command_named(command->0) {
                    Some(command) => r is Ok && r->Ok_0.0 == command && r->Ok_0.1@ == path->0,
                    None => r is Err && r->Err_0@ == "Unsupported editor command: "@ + command->0,
                }
            }
        }),
{
    let name = match arguments.text("command") {
        Some(name) => name,
        None => {
            return Err("rust_str_replace_editor requires command".to_owned());
        },
    };
    let path = match arguments.text("path") {
        Some(path) => path.clone(),
        None => {
            return Err("rust_str_replace_editor requires path".to_owned());
        },
    };
    let command = if same(name, "view") {
        EditorCommand::View
    } else if same(name, "create") {
        EditorCommand::Create
    } else if same(name, "str_replace") {
        EditorCommand::Replace
    } else if same(name, "insert") {
        EditorCommand::Insert
    } else if same(name, "undo_edit") {
        EditorCommand::Undo
    } else {
        let mut error = "Unsupported editor command: ".to_owned();
        error.append(name);
        return Err(error);
    };
    Ok((command, path))
}

// ---- showing ----

/// The whole number at a place of the argument `view_range`.
pub open spec fn range_item(arguments: JsonModel, i: int) -> Option<i64> {
    match arguments.items("view_range"@) {
        Some(items) => if i < items.len() {
            items[i].as_i64()
        } else {
            None
        },
        None => None,
    }
}

/// The first line that is shown.
pub open spec fn view_start(arguments: JsonModel) -> nat {
    match range_item(arguments, 0) {
        Some(n) if n > 1 => n as nat,
        _ => 1,
    }
}

/// The last line that is shown, of `count` lines.
pub open spec fn view_end(arguments: JsonModel, count: nat) -> nat {
    match range_item(arguments, 1) {
        Some(n) if n >= 0 && n < count => n as nat,
        _ => count,
    }
}

/// The lines from `start` on, each with its number.
pub open spec fn numbered(lines: Seq<Seq<char>>, start: nat, end: nat) -> Seq<Seq<char>> {
    Seq::new(
        (end - start + 1) as nat,
        |k: int| padded((start + k) as nat) + "\t"@ + lines[start - 1 + k],
    )
}

/// What is shown of a file.
pub open spec fn file_view(contents: Seq<char>, start: nat, end: nat) -> Seq<char> {
    let all = lines_of(contents);
    if start > end || all.len() == 0 {
        Seq::empty()
    } else {
        noted(joined(numbered(all, start, end), "\n"@), MAX_OUTPUT_CHARS as nat, OUTPUT_NOTE@)
    }
}

fn range_argument(arguments: &Json, i: usize) -> (r: Option<i64>)
    ensures
        r == range_item(arguments.deep_view(), i as int),
{
    match arguments.items("view_range") {
        Some(items) => if i < items.len() {
            proof {
                assert(deep(items@)[i as int] == items@[i as int].deep_view());
            }
            items[i].as_i64()
        } else {
            None
        },
        None => None,
    }
}

/// What is shown of a file.
pub fn view(contents: &str, arguments: &Json) -> (r: String)
    ensures
        r@ == file_view(
            contents@,
            view_start(arguments.deep_view()),
            view_end(arguments.deep_view(), lines_of(contents@).len()),
        ),
{
    let all = lines(contents);
    let ghost models = deep(all@);
    let count = all.len();
    let start: u64 = match range_argument(arguments, 0) {
        Some(n) => if n > 1 {
            n as u64
        } else {
            1
        },
        None => 1,
    };
    let end: usize = match range_argument(arguments, 1) {
        Some(n) => if n >= 0 && (n as u64) < count as u64 {
            n as usize
        } else {
            count
        },
        None => count,
    };
    if start > end as u64 || count == 0 {
        return String::new();
    }
    let first: usize = start as usize;
    let mut shown: Vec<String> = Vec::new();
    let mut i: usize = first - 1;
    while i < end
        invariant
            models == deep(all@),
            1 <= first,
            first - 1 <= i <= end <= all@.len(),
            shown@.len() == i - (first - 1),
            forall|k: int|
                0 <= k < shown@.len() ==> #[trigger] deep(shown@)[k] == padded(
                    (first + k) as nat,
                ) + "\t"@ + models[first - 1 + k],
        decreases end - i,
    {
        let mut line = padded_number(i + 1);
        line.append("\t");
        line.append(&all[i]);
        let ghost before = deep(shown@);
        shown.push(line);
        proof {
            assert(models[i as int] == all@[i as int]@);
            assert(deep(shown@) == before.push(line@));
        }
        i += 1;
    }
    proof {
        assert(deep(shown@) =~= numbered(models, first as nat, end as nat));
    }
    truncate_output(&join(&shown, "\n"))
}

/// The entries of a directory that are shown: those that are not hidden, up to a limit.
pub open spec fn visible_lines(entries: Seq<EntryInfo>) -> Seq<Seq<char>>
    decreases entries.len(),
{
    if entries.len() == 0 {
        Seq::empty()
    } else {
        let head = visible_lines(entries.drop_last());
        let entry = entries.last();
        if begins_with(entry.name, "."@) || head.len() >= MAX_DIRECTORY_LINES {
            head
        } else {
            head.push(
                (if entry.kind == EntryKind::Directory {
                    "dir "@
                } else {
                    "file"@
                }) + entry.name,
            )
        }
    }
}

/// What is shown of a directory.
pub fn view_directory(entries: &[DirEntry]) -> (r: String)
    ensures
        r@ == joined(visible_lines(deep(entries@)), "\n"@),
{
    let ghost models = deep(entries@);
    let mut shown: Vec<String> = Vec::new();
    let mut i: usize = 0;
    proof {
        assert(models.take(0) =~= Seq::<EntryInfo>::empty());
        assert(deep(shown@) =~= Seq::<Seq<char>>::empty());
    }
    while i < entries.len()
        invariant
            i <= entries@.len(),
            models == deep(entries@),
            deep(shown@) == visible_lines(models.take(i as int)),
        decreases entries@.len() - i,
    {
        let entry = &entries[i];
        proof {
            assert(models.take(i + 1).drop_last() =~= models.take(i as int));
            assert(models.take(i + 1).last() == entry.deep_view());
            assert(deep(shown@).len() == shown@.len());
        }
        if !starts_with(&entry.name, ".") && shown.len() < MAX_DIRECTORY_LINES {
            let mut line = if entry.kind == EntryKind::Directory {
                "dir ".to_owned()
            } else {
                "file".to_owned()
            };
            line.append(&entry.name);
            shown.push(line);
        }
        i += 1;
    }
    proof {
        assert(models.take(entries@.len() as int) =~= models);
    }
    join(&shown, "\n")
}

// ---- changing ----

/// In how many places `old` stands. The empty text stands before and behind each character.
pub open spec fn places(original: Seq<char>, old: Seq<char>) -> nat {
    if old.len() == 0 {
        original.len() + 1
    } else {
        occurrences(original, old, 0)
    }
}

/// The text with its only occurrence of `old` replaced.
pub open spec fn replaced_once(original: Seq<char>, old: Seq<char>, new: Seq<char>) -> Result<
    Seq<char>,
    Seq<char>,
> {
    let count = places(original, old);
    if count == 1 && old.len() == 0 {
        Ok(new)
    } else if count == 1 {
        Ok(replaced(original, old, new, 0, 1))
    } else {
        Err("old_str must match exactly one location; found "@ + decimal(count) + "."@)
    }
}

/// The text with its only occurrence of `old` replaced.
pub fn replace(original: &str, old: &str, new: &str) -> (r: Result<String, String>)
    ensures
        match replaced_once(original@, old@, new@) {
            Ok(text) => r is Ok && r->Ok_0@ == text,
            Err(error) => r is Err && r->Err_0@ == error,
        },
{
    if old.is_empty() {
        if original.is_empty() {
            return Ok(new.to_owned());
        }
        let mut error = "old_str must match exactly one location; found ".to_owned();
        error.append(&next_number_text(original.unicode_len() as u64));
        error.append(".");
        return Err(error);
    }
    let count = count_occurrences(original, old);
    if count != 1 {
        let mut error = "old_str must match exactly one location; found ".to_owned();
        error.append(&number_text(count as u64));
        error.append(".");
        return Err(error);
    }
    Ok(replace_occurrences(original, old, new, 1))
}

/// The text with a line inserted behind the line `line`.
pub open spec fn inserted(original: Seq<char>, line: i64, new: Seq<char>) -> Result<
    Seq<char>,
    Seq<char>,
> {
    let all = lines_of(original);
    let index = if line < 0 {
        0
    } else {
        line as int
    };
    if index > all.len() {
        Err("insert_line "@ + signed_decimal(line as int) + " is outside the file."@)
    } else {
        Ok(joined(all.insert(index, new), "\n"@))
    }
}

/// The text with a line inserted behind the line `line`.
pub fn insert(original: &str, line: i64, new: &str) -> (r: Result<String, String>)
    ensures
        match inserted(original@, line, new@) {
            Ok(text) => r is Ok && r->Ok_0@ == text,
            Err(error) => r is Err && r->Err_0@ == error,
        },
{
    let mut all = lines(original);
    let ghost before = all@;
    let index: u64 = if line < 0 {
        0
    } else {
        line as u64
    };
    if index > all.len() as u64 {
        let mut error = "insert_line ".to_owned();
        error.append(&signed_text(line));
        error.append(" is outside the file.");
        return Err(error);
    }
    let text = new.to_owned();
    all.insert(index as usize, text);
    proof {
        assert(deep(all@) =~= deep(before).insert(index as int, new@));
    }
    Ok(join(&all, "\n"))
}

// ---- what a call brings along ----

/// The contents of a file that is created. `taken` says that there is already a file.
pub fn created_text(arguments: &Json, path: &str, taken: bool) -> (r: Result<String, String>)
    ensures
        if taken {
            r is Err && r->Err_0@ == "File already exists: "@ + path@
        } else {
            match arguments.deep_view().text("file_text"@) {
                Some(text) => r is Ok && r->Ok_0@ == text,
                None => r is Err && r->Err_0@ == "Parameter file_text is required for create"@,
            }
        },
{
    if taken {
        return Err(concat2("File already exists: ", path));
    }
    match arguments.text("file_text") {
        Some(text) => Ok(text.clone()),
        None => Err("Parameter file_text is required for create".to_owned()),
    }
}

/// The text that is replaced, and the text that takes its place.
pub fn replaced_texts(arguments: &Json) -> (r: Result<(String, String), String>)
    ensures
        match arguments.deep_view().text("old_str"@) {
            Some(old) => r is Ok && r->Ok_0.0@ == old && r->Ok_0.1@
                == arguments.deep_view().text_or("new_str"@, ""@),
            None => r is Err && r->Err_0@ == "Parameter old_str is required for str_replace"@,
        },
{
    match arguments.text("old_str") {
        Some(old) => Ok((old.clone(), arguments.text_or("new_str", ""))),
        None => Err("Parameter old_str is required for str_replace".to_owned()),
    }
}

/// The line behind which a text is inserted, and the text.
pub open spec fn insertion(arguments: JsonModel) -> Result<(i64, Seq<char>), Seq<char>> {
    let line = match arguments.get("insert_line"@) {
        Some(value) => value.as_i64(),
        None => None,
    };
    match (line, arguments.text("new_str"@)) {
        (Some(line), Some(text)) => Ok((line, text)),
        (Some(_), None) => Err("Parameter new_str is required for insert"@),
        (None, _) => Err("Parameter insert_line is required for insert"@),
    }
}

/// The line behind which a text is inserted, and the text.
pub fn inserted_text(arguments: &Json) -> (r: Result<(i64, String), String>)
    ensures
        match insertion(arguments.deep_view()) {
            Ok((line, text)) => r is Ok && r->Ok_0.0 == line && r->Ok_0.1@ == text,
            Err(error) => r is Err && r->Err_0@ == error,
        },
{
    let line = match arguments.get("insert_line") {
        Some(value) => value.as_i64(),
        None => None,
    };
    match line {
        Some(line) => match arguments.text("new_str") {
            Some(text) => Ok((line, text.clone())),
            None => Err("Parameter new_str is required for insert".to_owned()),
        },
        None => Err("Parameter insert_line is required for insert".to_owned()),
    }
}

/// How an edit is undone.
#[derive(Debug, PartialEq, Eq)]
pub enum UndoEdit {
    /// The file is removed: it was not there.
    Remove,
    /// The file gets these contents back.
    Restore(String),
}

/// How an edit is undone. `previous` is the latest state of the file in the history.
pub fn undo_edit(previous: Option<String>, path: &str) -> (r: Result<UndoEdit, String>)
    ensures
        match previous {
            None => r is Err && r->Err_0@ == "No edit history is available for "@ + path@,
            Some(contents) => if contents@ == CREATED_FILE_MARKER@ {
                r == Ok::<UndoEdit, String>(UndoEdit::Remove)
            } else {
                r == Ok::<UndoEdit, String>(UndoEdit::Restore(contents))
            },
        },
{
    match previous {
        None => Err(concat2("No edit history is available for ", path)),
        Some(contents) => if same(&contents, CREATED_FILE_MARKER) {
            Ok(UndoEdit::Remove)
        } else {
            Ok(UndoEdit::Restore(contents))
        },
    }
}

// ---- the history ----

/// The earlier states of the files that were edited. Each file stands in the list at most once.
#[derive(Debug, PartialEq, Eq)]
pub struct EditHistory {
    pub files: Vec<(String, VecDeque<String>)>,
}

/// The place of a file in the list; the length where it is not there.
pub open spec fn file_index(files: Seq<(String, VecDeque<String>)>, path: Seq<char>) -> int
    decreases files.len(),
{
    if files.len() == 0 {
        0
    } else if files.first().0@ == path {
        0
    } else {
        1 + file_index(files.drop_first(), path)
    }
}

impl EditHistory {
    /// The earlier states of a file, the latest last.
    pub open spec fn states(&self, path: Seq<char>) -> Seq<Seq<char>> {
        let i = file_index(self.files@, path);
        if i < self.files@.len() {
            deep(self.files@[i].1@)
        } else {
            Seq::empty()
        }
    }

    pub fn new() -> (r: Self)
        ensures
            forall|path: Seq<char>| #[trigger] r.states(path) == Seq::<Seq<char>>::empty(),
    {
        EditHistory { files: Vec::new() }
    }

    fn find(&self, path: &str) -> (r: usize)
        ensures
            r == file_index(self.files@, path@),
            r <= self.files@.len(),
            r < self.files@.len() ==> self.files@[r as int].0@ == path@,
    {
        let mut i: usize = 0;
        proof {
            assert(self.files@.skip(0) =~= self.files@);
        }
        while i < self.files.len() && !same(&self.files[i].0, path)
            invariant
                i <= self.files@.len(),
                file_index(self.files@, path@) == i + file_index(
                    self.files@.skip(i as int),
                    path@,
                ),
            decreases self.files@.len() - i,
        {
            proof {
                assert(self.files@.skip(i as int).first() == self.files@[i as int]);
                assert(self.files@.skip(i as int).drop_first() =~= self.files@.skip(i + 1));
            }
            i += 1;
        }
        proof {
            if i < self.files@.len() {
                assert(self.files@.skip(i as int).first() == self.files@[i as int]);
            }
        }
        i
    }

    /// Remembers the state of a file, unless it is the one that was remembered last. Only the
    /// latest states are kept.
    pub fn record(&mut self, path: &str, contents: String)
        ensures
            final(self).states(path@) == recorded(old(self).states(path@), contents@),
            forall|other: Seq<char>|
                other != path@ ==> #[trigger] final(self).states(other) == old(self).states(other),
    {
        let i = self.find(path);
        let ghost before = self.files@;
        let ghost old_states = self.states(path@);
        let ghost text = contents@;
        if i >= self.files.len() {
            let mut states: VecDeque<String> = VecDeque::new();
            states.push_back(contents);
            self.files.push((path.to_owned(), states));
            proof {
                assert(deep(states@) =~= seq![text]);
                assert(recorded(Seq::empty(), text) =~= seq![text]);
                lemma_index_push(before, self.files@.last(), path@);
                assert(self.files@ =~= before.push(self.files@.last()));
                assert forall|other: Seq<char>| other != path@ implies #[trigger] self.states(other)
                    == old(self).states(other) by {
                    lemma_index_push(before, self.files@.last(), other);
                    lemma_file_index(before, other);
                }
            }
            return;
        }
        let entry = self.files.remove(i);
        let mut states = entry.1;
        proof {
            assert(deep(states@) == old_states);
        }
        let n = states.len();
        let repeated = n > 0 && same(&states[n - 1], &contents);
        proof {
            if n > 0 {
                assert(old_states.last() == states@[n - 1]@);
            }
            assert(old_states.len() == n);
        }
        if !repeated {
            states.push_back(contents);
        }
        let ghost all = deep(states@);
        let ghost mut dropped: int = 0;
        proof {
            assert(all == if repeated { old_states } else { old_states.push(text) });
            assert(all.skip(0) =~= all);
        }
        while states.len() > MAX_HISTORY_ENTRIES
            invariant
                0 <= dropped <= all.len(),
                deep(states@) == all.skip(dropped),
                dropped > 0 ==> all.len() - dropped >= MAX_HISTORY_ENTRIES,
            decreases states@.len(),
        {
            let ghost was = states@;
            proof {
                assert(deep(was).len() == was.len());
            }
            let _ = states.pop_front();
            proof {
                dropped = dropped + 1;
                assert(deep(states@) =~= deep(was).drop_first());
                assert(deep(states@) =~= all.skip(dropped));
            }
        }
        proof {
            assert(deep(states@).len() == states@.len());
            assert(deep(states@) == recorded(old_states, text));
        }
        self.files.insert(i, (entry.0, states));
        proof {
            let after = self.files@;
            assert(after =~= before.update(i as int, (before[i as int].0, states)));
            assert forall|other: Seq<char>| #[trigger] file_index(after, other) == file_index(
                before,
                other,
            ) by {
                lemma_same_names(before, after, other);
            }
            assert forall|other: Seq<char>| other != path@ implies #[trigger] self.states(other)
                == old(self).states(other) by {
                assert(file_index(after, other) == file_index(before, other));
                lemma_file_index(before, other);
            }
            assert(file_index(after, path@) == i);
        }
    }

    /// Gives back the state of a file that was remembered last, and forgets it.
    pub fn undo(&mut self, path: &str) -> (r: Option<String>)
        ensures
            ({
                let states = old(self).states(path@);
                if states.len() == 0 {
                    r is None && forall|other: Seq<char>| #[trigger]
                        final(self).states(other) == old(self).states(other)
                } else {
                    &&& r is Some
                    &&& r->0@ == states.last()
                    &&& final(self).states(path@) == states.drop_last()
                    &&& forall|other: Seq<char>|
                        other != path@ ==> #[trigger] final(self).states(other) == old(self).states(
                            other,
                        )
                }
            }),
    {
        let i = self.find(path);
        if i >= self.files.len() {
            return None;
        }
        let ghost before = self.files@;
        let ghost old_states = self.states(path@);
        let entry = self.files.remove(i);
        let mut states = entry.1;
        let ghost was = states@;
        let r = states.pop_back();
        proof {
            assert(old_states == deep(was));
            assert(old_states.len() == was.len());
            if was.len() > 0 {
                assert(deep(states@) =~= old_states.drop_last());
            } else {
                assert(states@ =~= was);
            }
        }
        self.files.insert(i, (entry.0, states));
        proof {
            let after = self.files@;
            assert(after =~= before.update(i as int, (before[i as int].0, states)));
            assert forall|other: Seq<char>| #[trigger] file_index(after, other) == file_index(
                before,
                other,
            ) by {
                lemma_same_names(before, after, other);
            }
            assert forall|other: Seq<char>| other != path@ implies #[trigger] self.states(other)
                == old(self).states(other) by {
                assert(file_index(after, other) == file_index(before, other));
                lemma_file_index(before, other);
            }
            assert(file_index(after, path@) == i);
            if was.len() == 0 {
                assert forall|other: Seq<char>| #[trigger] self.states(other) == old(self).states(
                    other,
                ) by {
                    assert(file_index(after, other) == file_index(before, other));
                }
            }
        }
        r
    }
}

/// The states of a file after one more was remembered.
pub open spec fn recorded(states: Seq<Seq<char>>, contents: Seq<char>) -> Seq<Seq<char>> {
    let all = if states.len() > 0 && states.last() == contents {
        states
    } else {
        states.push(contents)
    };
    newest(all, MAX_HISTORY_ENTRIES as nat)
}

proof fn lemma_file_index(files: Seq<(String, VecDeque<String>)>, path: Seq<char>)
    ensures
        0 <= file_index(files, path) <= files.len(),
        file_index(files, path) < files.len() ==> files[file_index(files, path)].0@ == path,
    decreases files.len(),
{
    if files.len() > 0 && files.first().0@ != path {
        lemma_file_index(files.drop_first(), path);
    }
}

proof fn lemma_index_push(
    files: Seq<(String, VecDeque<String>)>,
    file: (String, VecDeque<String>),
    path: Seq<char>,
)
    ensures
        file_index(files, path) < files.len() ==> file_index(files.push(file), path) == file_index(
            files,
            path,
        ),
        file_index(files, path) == files.len() ==> file_index(files.push(file), path)
            == files.len() + if file.0@ == path {
            0int
        } else {
            1int
        },
    decreases files.len(),
{
    lemma_file_index(files, path);
    if files.len() > 0 {
        assert(files.push(file).drop_first() =~= files.drop_first().push(file));
        assert(files.push(file).first() == files.first());
        lemma_index_push(files.drop_first(), file, path);
        lemma_file_index(files.drop_first(), path);
    } else {
        assert(files.push(file).drop_first() =~= Seq::<(String, VecDeque<String>)>::empty());
        assert(file_index(files.push(file).drop_first(), path) == 0);
    }
}

proof fn lemma_same_names(
    a: Seq<(String, VecDeque<String>)>,
    b: Seq<(String, VecDeque<String>)>,
    path: Seq<char>,
)
    requires
        a.len() == b.len(),
        forall|k: int| 0 <= k < a.len() ==> (#[trigger] a[k]).0@ == b[k].0@,
    ensures
        file_index(a, path) == file_index(b, path),
    decreases a.len(),
{
    if a.len() > 0 {
        assert(a[0].0@ == b[0].0@);
        assert forall|k: int| 0 <= k < a.drop_first().len() implies (
        #[trigger] a.drop_first()[k]).0@ == b.drop_first()[k].0@ by {
            assert(a.drop_first()[k] == a[k + 1]);
        }
        lemma_same_names(a.drop_first(), b.drop_first(), path);
    }
}

/// Undoing gives back the state that was remembered last, and leaves the states from before it,
/// as far as these were kept.
pub proof fn law_undo_gives_back_the_last_state(states: Seq<Seq<char>>, contents: Seq<char>)
    requires
        states.len() < MAX_HISTORY_ENTRIES,
        states.len() == 0 || states.last() != contents,
    ensures
        recorded(states, contents).last() == contents,
        recorded(states, contents).drop_last() == states,
{
    assert(recorded(states, contents).drop_last() =~= states);
}

/// No more states of a file are kept than may be.
pub proof fn law_history_is_bounded(states: Seq<Seq<char>>, contents: Seq<char>)
    ensures
        recorded(states, contents).len() <= MAX_HISTORY_ENTRIES,
        recorded(states, contents).len() > 0,
        recorded(states, contents).last() == contents,
{
}

} // verus!
