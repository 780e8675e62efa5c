//! What a call of the coding tool asks for.

use vstd::prelude::*;

use crate::deep::group_deep;
use crate::json::{group_json, Json, JsonModel};
use crate::text::{blank, is_blank, same};

verus! {

broadcast use {group_deep, group_json};

/// The text of an argument, where it is not blank.
pub open spec fn argument_text(arguments: JsonModel, key: Seq<char>) -> Option<Seq<char>> {
    match arguments.text(key) {
        Some(text) if !is_blank(text) => Some(text),
        _ => None,
    }
}

/// The text of an argument, where it is not blank, or `default`.
pub open spec fn argument_or(
    arguments: JsonModel,
    key: Seq<char>,
    default: Seq<char>,
) -> Seq<char> {
    match argument_text(arguments, key) {
        Some(text) => text,
        None => default,
    }
}

/// The value of an argument that is a number from 0 on.
pub open spec fn argument_number(arguments: JsonModel, key: Seq<char>) -> Option<usize> {
    match arguments.get(key) {
        Some(value) => match value.as_u64() {
            Some(n) => Some(n as usize),
            None => None,
        },
        None => None,
    }
}

/// The value of an argument that is true or false, or `default`.
pub open spec fn argument_flag(arguments: JsonModel, key: Seq<char>, default: bool) -> bool {
    match arguments.get(key) {
        Some(value) => match value.as_bool() {
            Some(b) => b,
            None => default,
        },
        None => default,
    }
}

/// The text of an argument, where it is not blank.
pub fn argument(arguments: &Json, key: &str) -> (r: Option<String>)
    ensures
        r.deep_view() == argument_text(arguments.deep_view(), key@),
{
    match arguments.text(key) {
        Some(text) => if blank(text) {
            None
        } else {
            Some(text.clone())
        },
        None => None,
    }
}

/// The text of an argument, where it is not blank, or `default`.
pub fn argument_with_default(arguments: &Json, key: &str, default: &str) -> (r: String)
    ensures
        r@ == argument_or(arguments.deep_view(), key@, default@),
{
    match argument(arguments, key) {
        Some(text) => text,
        None => default.to_owned(),
    }
}

/// The value of an argument that is a number from 0 on.
pub fn integer_argument(arguments: &Json, key: &str) -> (r: Option<usize>)
    ensures
        r == argument_number(arguments.deep_view(), key@),
{
    match arguments.get(key) {
        Some(value) => match value.as_u64() {
            Some(n) => Some(n as usize),
            None => None,
        },
        None => None,
    }
}

/// The value of an argument that is true or false, or `default`.
pub fn flag_argument(arguments: &Json, key: &str, default: bool) -> (r: bool)
    ensures
        r == argument_flag(arguments.deep_view(), key@, default),
{
    match arguments.get(key) {
        Some(value) => match value.as_bool() {
            Some(b) => b,
            None => default,
        },
        None => default,
    }
}

/// The value of an argument that is true or false; false where there is none.
pub fn bool_argument(arguments: &Json, key: &str) -> (r: bool)
    ensures
        r == argument_flag(arguments.deep_view(), key@, false),
{
    flag_argument(arguments, key, false)
}

/// The operations that change files.
pub open spec fn changes_files(operation: Seq<char>) -> bool {
    operation == "apply_patch"@ || operation == "patch"@ || operation == "replace"@ || operation
        == "write"@ || operation == "delete"@
}

/// Whether a call changes files.
pub fn is_mutation(arguments: &Json) -> (r: bool)
    ensures
        r == match arguments.deep_view().text("operation"@) {
            Some(operation) => changes_files(operation),
            None => false,
        },
{
    match arguments.text("operation") {
        Some(operation) => same(operation, "apply_patch") || same(operation, "patch") || same(
            operation,
            "replace",
        ) || same(operation, "write") || same(operation, "delete"),
        None => false,
    }
}

/// The operations of the coding tool.
#[derive(Debug, Clone, Copy, PartialEq, Eq, Structural)]
pub enum CodeOperation {
    Read,
    List,
    Glob,
    Grep,
    Check,
    Status,
    Diff,
    ApplyPatch,
    Replace,
    Write,
    Delete,
}

/// The operation with a name.
pub open spec fn operation_named(name: Seq<char>) -> Option<CodeOperation> {
    if name == "read"@ {
        Some(CodeOperation::Read)
    } else if name == "list"@ {
        Some(CodeOperation::List)
    } else if name == "glob"@ {
        Some(CodeOperation::Glob)
    } else if name == "grep"@ {
        Some(CodeOperation::Grep)
    } else if name == "check"@ || name == "diagnostics"@ {
        Some(CodeOperation::Check)
    } else if name == "status"@ {
        Some(CodeOperation::Status)
    } else if name == "diff"@ {
        Some(CodeOperation::Diff)
    } else if name == "apply_patch"@ || name == "patch"@ {
        Some(CodeOperation::ApplyPatch)
    } else if name == "replace"@ {
        Some(CodeOperation::Replace)
    } else if name == "write"@ {
        Some(CodeOperation::Write)
    } else if name == "delete"@ {
        Some(CodeOperation::Delete)
    } else {
        None
    }
}

/// The operation that a call asks for; reading, where it does not say.
pub fn code_operation(arguments: &Json) -> (r: Result<CodeOperation, String>)
    ensures
        ({
            let name = argument_or(arguments.deep_view(), "operation"@, "read"@);
            match operation_named(name) {
                Some(operation) => r == Ok::<CodeOperation, String>(operation),
                None => r is Err && r->Err_0@ == "Unsupported rust_code operation: "@ + name,
            }
        }),
{
    let name = argument_with_default(arguments, "operation", "read");
    if same(&name, "read") {
        Ok(CodeOperation::Read)
    } else if same(&name, "list") {
        Ok(CodeOperation::List)
    } else if same(&name, "glob") {
        Ok(CodeOperation::Glob)
    } else if same(&name, "grep") {
        Ok(CodeOperation::Grep)
    } else if same(&name, "check") || same(&name, "diagnostics") {
        Ok(CodeOperation::Check)
    } else if same(&name, "status") {
        Ok(CodeOperation::Status)
    } else if same(&name, "diff") {
        Ok(CodeOperation::Diff)
    } else if same(&name, "apply_patch") || same(&name, "patch") {
        Ok(CodeOperation::ApplyPatch)
    } else if same(&name, "replace") {
        Ok(CodeOperation::Replace)
    } else if same(&name, "write") {
        Ok(CodeOperation::Write)
    } else if same(&name, "delete") {
        Ok(CodeOperation::Delete)
    } else {
        let mut error = "Unsupported rust_code operation: ".to_owned();
        error.append(&name);
        Err(error)
    }
}

/// A call changes files if and only if its operation is one of those that do.
pub proof fn law_mutations_are_the_changing_operations(name: Seq<char>)
    ensures
        changes_files(name) == (operation_named(name) == Some(CodeOperation::ApplyPatch)
            || operation_named(name) == Some(CodeOperation::Replace) || operation_named(name)
            == Some(CodeOperation::Write) || operation_named(name) == Some(CodeOperation::Delete)),
{
    reveal_strlit("read");
    reveal_strlit("list");
    reveal_strlit("glob");
    reveal_strlit("grep");
    reveal_strlit("check");
    reveal_strlit("diagnostics");
    reveal_strlit("status");
    reveal_strlit("diff");
    reveal_strlit("apply_patch");
    reveal_strlit("patch");
    reveal_strlit("replace");
    reveal_strlit("write");
    reveal_strlit("delete");
    assert("read"@.len() == 4 && "list"@.len() == 4 && "glob"@.len() == 4 && "grep"@.len() == 4
        && "diff"@.len() == 4);
    assert("check"@.len() == 5 && "check"@[0] == 'c');
    assert("patch"@.len() == 5 && "patch"@[0] == 'p');
    assert("write"@.len() == 5 && "write"@[0] == 'w');
    assert("status"@.len() == 6 && "status"@[0] == 's');
    assert("delete"@.len() == 6 && "delete"@[0] == 'd');
    assert("diagnostics"@.len() == 11 && "diagnostics"@[0] == 'd');
    assert("apply_patch"@.len() == 11 && "apply_patch"@[0] == 'a');
    assert("replace"@.len() == 7);
}

} // verus!
