//! What a path must lead to before something is done with it.

use vstd::prelude::*;

use super::limits::MAX_EDIT_BYTES;
use crate::text::concat2;

verus! {

/// Whether a result is the refusal with this text, or success where nothing is refused.
pub open spec fn refused_if(refused: bool, error: Seq<char>, r: Result<(), String>) -> bool {
    match r {
        Ok(_) => !refused,
        Err(message) => refused && message@ == error,
    }
}

/// Only files are read.
pub fn check_readable(path: &str, is_file: bool) -> (r: Result<(), String>)
    ensures
        refused_if(!is_file, "Cannot read a directory as a file: "@ + path@, r),
{
    if is_file {
        Ok(())
    } else {
        Err(concat2("Cannot read a directory as a file: ", path))
    }
}

/// Only directories are listed.
pub fn check_listable(path: &str, is_directory: bool) -> (r: Result<(), String>)
    ensures
        refused_if(!is_directory, "Cannot list a file as a directory: "@ + path@, r),
{
    if is_directory {
        Ok(())
    } else {
        Err(concat2("Cannot list a file as a directory: ", path))
    }
}

/// No directory is written over.
pub fn check_writable(path: &str, is_directory: bool) -> (r: Result<(), String>)
    ensures
        refused_if(is_directory, "Cannot write a directory: "@ + path@, r),
{
    if is_directory {
        Err(concat2("Cannot write a directory: ", path))
    } else {
        Ok(())
    }
}

/// Only files are deleted.
pub fn check_deletable(is_file: bool) -> (r: Result<(), String>)
    ensures
        refused_if(!is_file, "rust_code delete only removes regular files"@, r),
{
    if is_file {
        Ok(())
    } else {
        Err("rust_code delete only removes regular files".to_owned())
    }
}

/// What is written to a file is not too long, and does not take the place of a directory.
pub fn check_staged(target: &str, bytes: usize, is_directory: bool) -> (r: Result<(), String>)
    ensures
        if bytes > MAX_EDIT_BYTES {
            r is Err && r->Err_0@ == "Edit exceeds the 16 MiB write limit"@
        } else {
            refused_if(is_directory, "Cannot replace directory: "@ + target@, r)
        },
{
    if bytes > MAX_EDIT_BYTES {
        Err("Edit exceeds the 16 MiB write limit".to_owned())
    } else if is_directory {
        Err(concat2("Cannot replace directory: ", target))
    } else {
        Ok(())
    }
}

/// No directory is set aside to be deleted.
pub fn check_set_aside(path: &str, is_directory: bool) -> (r: Result<(), String>)
    ensures
        refused_if(is_directory, "Cannot delete directory: "@ + path@, r),
{
    if is_directory {
        Err(concat2("Cannot delete directory: ", path))
    } else {
        Ok(())
    }
}

} // verus!
