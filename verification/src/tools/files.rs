//! The plain file tool.

use vstd::prelude::*;
use vstd::utf8::encode_utf8;

use super::editor::MAX_DIRECTORY_LINES;
use crate::coding::limits::MAX_EDIT_BYTES;
use crate::coding::search::{DirEntry, EntryInfo, EntryKind};
use crate::deep::{deep, group_deep};
use crate::json::{Json, JsonModel};
use crate::text::{byte_len, join, joined, same};

verus! {

broadcast use group_deep;

/// The operations of the file tool.
#[derive(Debug, Clone, Copy, PartialEq, Eq, Structural)]
pub enum FileToolOperation {
    List,
    Read,
    Write,
    Delete,
    Exists,
}

/// The operation with a name.
pub open spec fn file_operation_named(name: Seq<char>) -> Option<FileToolOperation> {
    if name == "list"@ {
        Some(FileToolOperation::List)
    } else if name == "read"@ {
        Some(FileToolOperation::Read)
    } else if name == "write"@ {
        Some(FileToolOperation::Write)
    } else if name == "delete"@ {
        Some(FileToolOperation::Delete)
    } else if name == "exists"@ {
        Some(FileToolOperation::Exists)
    } else {
        None
    }
}

/// The operation and the path that a call asks for; listing the workspace, where it does not say.
pub fn file_operation(arguments: &Json) -> (r: Result<(FileToolOperation, String), String>)
    ensures
        ({
            let name = arguments.deep_view().text_or("operation"@, "list"@);
            match file_operation_named(name) {
                Some(operation) => r is Ok && r->Ok_0.0 == operation && r->Ok_0.1@
                    == arguments.deep_view().text_or("path"@, "."@),
                None => r is Err && r->Err_0@ == "Unsupported rust_files operation: "@ + name,
            }
        }),
{
    let name = arguments.text_or("operation", "list");
    let path = arguments.text_or("path", ".");
    let operation = if same(&name, "list") {
        FileToolOperation::List
    } else if same(&name, "read") {
        FileToolOperation::Read
    } else if same(&name, "write") {
        FileToolOperation::Write
    } else if same(&name, "delete") {
        FileToolOperation::Delete
    } else if same(&name, "exists") {
        FileToolOperation::Exists
    } else {
        let mut error = "Unsupported rust_files operation: ".to_owned();
        error.append(&name);
        return Err(error);
    };
    Ok((operation, path))
}

/// How an entry is shown.
pub open spec fn entry_text(entry: EntryInfo) -> Seq<char> {
    (if entry.kind == EntryKind::Directory {
        "dir "@
    } else {
        "file"@
    }) + " "@ + entry.name
}

/// The lines of a listing: the entries up to a limit, and a note where the limit was reached.
pub open spec fn listing_lines(entries: Seq<EntryInfo>) -> Seq<Seq<char>> {
    if entries.len() >= MAX_DIRECTORY_LINES {
        entries.take(MAX_DIRECTORY_LINES as int).map_values(|e: EntryInfo| entry_text(e)).push(
            "[directory listing truncated]"@,
        )
    } else {
        entries.map_values(|e: EntryInfo| entry_text(e))
    }
}

/// The listing of a directory.
pub fn list_entries(entries: &[DirEntry]) -> (r: String)
    ensures
        r@ == joined(listing_lines(deep(entries@)), "\n"@),
{
    let ghost models = deep(entries@);
    let n: usize = if entries.len() >= MAX_DIRECTORY_LINES {
        MAX_DIRECTORY_LINES
    } else {
        entries.len()
    };
    let mut shown: Vec<String> = Vec::new();
    let mut i: usize = 0;
    while i < n
        invariant
            i <= n <= entries@.len(),
            models == deep(entries@),
            shown@.len() == i,
            forall|k: int| 0 <= k < i ==> #[trigger] deep(shown@)[k] == entry_text(models[k]),
        decreases n - i,
    {
        let entry = &entries[i];
        let mut line = if entry.kind == EntryKind::Directory {
            "dir ".to_owned()
        } else {
            "file".to_owned()
        };
        line.append(" ");
        line.append(&entry.name);
        let ghost before = deep(shown@);
        shown.push(line);
        proof {
            assert(models[i as int] == entry.deep_view());
            assert(deep(shown@) == before.push(line@));
        }
        i += 1;
    }
    if entries.len() >= MAX_DIRECTORY_LINES {
        shown.push("[directory listing truncated]".to_owned());
    }
    proof {
        assert(deep(shown@) =~= listing_lines(models));
    }
    join(&shown, "\n")
}

/// The content that a call writes.
pub fn write_content(arguments: &Json) -> (r: Result<String, String>)
    ensures
        match arguments.deep_view().text("content"@) {
            None => r is Err && r->Err_0@ == "rust_files write requires content"@,
            Some(content) => if encode_utf8(content).len() > MAX_EDIT_BYTES {
                r is Err && r->Err_0@ == "Content exceeds the 16 MiB write limit"@
            } else {
                r is Ok && r->Ok_0@ == content
            },
        },
{
    match arguments.text("content") {
        None => Err("rust_files write requires content".to_owned()),
        Some(content) => if byte_len(content) > MAX_EDIT_BYTES {
            Err("Content exceeds the 16 MiB write limit".to_owned())
        } else {
            Ok(content.clone())
        },
    }
}

/// The arguments of a call with another path.
pub fn with_path(arguments: &Json, path: &str) -> (r: Json)
    ensures
        r.deep_view() == arguments.deep_view().with("path"@, JsonModel::Str(path@)),
{
    let mut forwarded = arguments.clone();
    forwarded.set("path", Json::string(path));
    forwarded
}

} // verus!
