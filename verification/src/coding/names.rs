//! The names of files: those of temporary files, and those that are shown.

use vstd::prelude::*;

use crate::deep::{deep, group_deep};
use crate::number::{decimal, law_numbers_are_written_without_loss, number_text};
use crate::text::{after_prefix, begins_with, concat2, replace_char, replaced_char};

verus! {

broadcast use group_deep;

/// How many names are tried for one temporary file.
pub const MAX_TEMPORARY_NAMES: usize = 32;

/// The name of a temporary file that stands beside a file.
pub open spec fn temporary_text(
    file_name: Option<Seq<char>>,
    process: nat,
    index: nat,
    suffix: Seq<char>,
) -> Seq<char> {
    let name = match file_name {
        Some(name) => name,
        None => "file"@,
    };
    "."@ + name + ".rustpilot-"@ + decimal(process) + ("-"@ + decimal(index) + "-"@ + suffix)
}

/// The name of a temporary file that stands beside a file.
pub fn temporary_name(file_name: &Option<String>, process: u32, index: usize, suffix: &str) -> (r:
    String)
    ensures
        r@ == temporary_text(file_name.deep_view(), process as nat, index as nat, suffix@),
{
    let mut r = ".".to_owned();
    match file_name {
        Some(name) => {
            r.append(name);
        },
        None => {
            r.append("file");
        },
    }
    r.append(".rustpilot-");
    r.append(&number_text(process as u64));
    let mut tail = "-".to_owned();
    tail.append(&number_text(index as u64));
    tail.append("-");
    tail.append(suffix);
    r.append(&tail);
    r
}

/// The sum, or the largest number there is.
pub open spec fn index_after(index: usize, k: int) -> nat {
    if index + k > usize::MAX {
        usize::MAX as nat
    } else {
        (index + k) as nat
    }
}

/// The names that are tried for a temporary file, one after the other, until one is free.
pub fn temporary_names(file_name: &Option<String>, process: u32, index: usize, suffix: &str) -> (r:
    Vec<String>)
    ensures
        deep(r@) == Seq::new(
            MAX_TEMPORARY_NAMES as nat,
            |k: int|
                temporary_text(
                    file_name.deep_view(),
                    process as nat,
                    index_after(index, k),
                    suffix@,
                ),
        ),
{
    let mut r: Vec<String> = Vec::new();
    let mut k: usize = 0;
    while k < MAX_TEMPORARY_NAMES
        invariant
            k <= MAX_TEMPORARY_NAMES,
            r@.len() == k,
            forall|j: int|
                0 <= j < k ==> (#[trigger] r@[j])@ == temporary_text(
                    file_name.deep_view(),
                    process as nat,
                    index_after(index, j),
                    suffix@,
                ),
        decreases MAX_TEMPORARY_NAMES - k,
    {
        r.push(temporary_name(file_name, process, index.saturating_add(k), suffix));
        k += 1;
    }
    proof {
        assert(deep(r@) =~= Seq::new(
            MAX_TEMPORARY_NAMES as nat,
            |k: int|
                temporary_text(
                    file_name.deep_view(),
                    process as nat,
                    index_after(index, k),
                    suffix@,
                ),
        ));
    }
    r
}

/// How a path is shown. `inside` is what is left of it behind the root, where it is in the root.
pub open spec fn shown_path(inside: Option<Seq<char>>, path: Seq<char>) -> Seq<char> {
    match inside {
        Some(rest) => if rest.len() == 0 {
            "."@
        } else {
            replaced_char(rest, '\\', '/')
        },
        None => replaced_char(path, '\\', '/'),
    }
}

/// How a path is shown. `inside` is what is left of it behind the root, where it is in the root.
pub fn relative_path(inside: &Option<String>, path: &str) -> (r: String)
    ensures
        r@ == shown_path(inside.deep_view(), path@),
{
    match inside {
        Some(rest) => if rest.as_str().is_empty() {
            ".".to_owned()
        } else {
            replace_char(rest, '\\', '/')
        },
        None => replace_char(path, '\\', '/'),
    }
}

/// The path in the form that every program can open: on Windows, without the prefix of long paths.
pub open spec fn plain_path(path: Seq<char>, windows: bool) -> Seq<char> {
    if windows && begins_with(path, "\\\\?\\UNC\\"@) {
        "\\\\"@ + path.skip("\\\\?\\UNC\\"@.len() as int)
    } else if windows && begins_with(path, "\\\\?\\"@) {
        path.skip("\\\\?\\"@.len() as int)
    } else {
        path
    }
}

/// The path in the form that every program can open.
pub fn io_compatible_path(path: &str, windows: bool) -> (r: String)
    ensures
        r@ == plain_path(path@, windows),
{
    if windows {
        if let Some(rest) = after_prefix(path, "\\\\?\\UNC\\") {
            return concat2("\\\\", &rest);
        }
        if let Some(rest) = after_prefix(path, "\\\\?\\") {
            return rest;
        }
    }
    path.to_owned()
}

/// Names that are tried one after the other are different.
pub proof fn law_temporary_names_differ(
    file_name: Option<Seq<char>>,
    process: nat,
    first: nat,
    second: nat,
    suffix: Seq<char>,
)
    requires
        first != second,
    ensures
        temporary_text(file_name, process, first, suffix) != temporary_text(
            file_name,
            process,
            second,
            suffix,
        ),
{
    let a = temporary_text(file_name, process, first, suffix);
    let b = temporary_text(file_name, process, second, suffix);
    reveal_strlit("-");
    if a == b {
        let start = a.len() - suffix.len() - 1 - decimal(first).len();
        law_numbers_are_written_without_loss(first);
        law_numbers_are_written_without_loss(second);
        assert(a.subrange(start, start + decimal(first).len()) =~= decimal(first));
        assert(b.subrange(start, start + decimal(first).len()) =~= decimal(second));
    }
}

} // verus!
