//! Checking a project with its own tools.

use vstd::prelude::*;

use super::limits::{truncate_text, truncated_text, MAX_OUTPUT_CHARS};
use crate::deep::{deep, group_deep};
use crate::json::Json;
use crate::number::{signed_decimal, signed_text};
use crate::text::{concat2, lossy_text, read_lossy, same};

verus! {

broadcast use group_deep;

pub const MAX_CHECK_SECONDS: u64 = 90;

pub const MIN_CHECK_SECONDS: u64 = 5;

/// Four bytes for each character of an output.
pub const MAX_CAPTURE_BYTES: usize = 64000;

/// The error for a backend that there is not.
pub open spec fn backend_error(backend: Seq<char>) -> Seq<char> {
    "Unsupported diagnostics backend '"@ + backend + "'; use auto, cargo, or npm"@
}

fn unsupported(backend: &str) -> (r: String)
    ensures
        r@ == backend_error(backend@),
{
    let mut error = "Unsupported diagnostics backend '".to_owned();
    error.append(backend);
    error.append("'; use auto, cargo, or npm");
    error
}

/// Whether a backend is one of those that there are.
pub open spec fn is_backend(backend: Seq<char>) -> bool {
    backend == "auto"@ || backend == "cargo"@ || backend == "npm"@
}

/// Whether a directory holds a project for a backend.
pub open spec fn holds_project(backend: Seq<char>, has_cargo: bool, has_npm: bool) -> bool {
    ||| backend == "auto"@ && (has_cargo || has_npm)
    ||| backend == "cargo"@ && has_cargo
    ||| backend == "npm"@ && has_npm
}

/// Whether a directory holds a project for a backend.
pub fn project_found(backend: &str, has_cargo: bool, has_npm: bool) -> (r: Result<bool, String>)
    ensures
        is_backend(backend@) ==> r == Ok::<bool, String>(
            holds_project(backend@, has_cargo, has_npm),
        ),
        !is_backend(backend@) ==> r is Err && r->Err_0@ == backend_error(backend@),
{
    let auto = same(backend, "auto");
    let cargo = same(backend, "cargo");
    let npm = same(backend, "npm");
    if !(auto || cargo || npm) {
        return Err(unsupported(backend));
    }
    Ok((auto && (has_cargo || has_npm)) || (cargo && has_cargo) || (npm && has_npm))
}

/// What a directory holds that a project is known by.
#[derive(Debug, Clone, Copy, PartialEq, Eq, Structural)]
pub struct Manifests {
    pub has_cargo: bool,
    pub has_npm: bool,
}

/// Finds the directory of the project, among those from the place where the search begins up to
/// the root: the nearest one that holds a project for the backend. Gives its position.
pub fn find_project(start: &str, backend: &str, directories: &[Manifests]) -> (r: Result<
    usize,
    String,
>)
    requires
        directories@.len() > 0,
    ensures
        !is_backend(backend@) ==> r is Err && r->Err_0@ == backend_error(backend@),
        is_backend(backend@) ==> match r {
            Ok(i) => {
                &&& i < directories@.len()
                &&& holds_project(backend@, directories@[i as int].has_cargo, directories@[i as int].has_npm)
                &&& forall|k: int|
                    0 <= k < i ==> !holds_project(
                        backend@,
                        (#[trigger] directories@[k]).has_cargo,
                        directories@[k].has_npm,
                    )
            },
            Err(error) => {
                &&& error@ == "No supported project manifest found from "@ + start@
                &&& forall|k: int|
                    0 <= k < directories@.len() ==> !holds_project(
                        backend@,
                        (#[trigger] directories@[k]).has_cargo,
                        directories@[k].has_npm,
                    )
            },
        },
{
    let mut i: usize = 0;
    while i < directories.len()
        invariant
            i <= directories@.len(),
            directories@.len() > 0,
            i > 0 ==> is_backend(backend@),
            forall|k: int|
                0 <= k < i ==> !holds_project(
                    backend@,
                    (#[trigger] directories@[k]).has_cargo,
                    directories@[k].has_npm,
                ),
        decreases directories@.len() - i,
    {
        match project_found(backend, directories[i].has_cargo, directories[i].has_npm) {
            Ok(found) => {
                if found {
                    return Ok(i);
                }
            },
            Err(error) => {
                return Err(error);
            },
        }
        i += 1;
    }
    Err(concat2("No supported project manifest found from ", start))
}

/// The command that checks a project.
#[derive(Debug, PartialEq, Eq)]
pub struct CheckCommand {
    pub program: String,
    pub arguments: Vec<String>,
    pub label: &'static str,
}

/// The backend that is used.
pub open spec fn chosen_backend(backend: Seq<char>, has_cargo: bool) -> Seq<char> {
    if backend == "auto"@ {
        if has_cargo {
            "cargo"@
        } else {
            "npm"@
        }
    } else {
        backend
    }
}

/// The command that checks a project.
pub fn command_for(backend: &str, has_cargo: bool, offline: bool, windows: bool) -> (r: Result<
    CheckCommand,
    String,
>)
    ensures
        ({
            let chosen = chosen_backend(backend@, has_cargo);
            if chosen == "cargo"@ {
                &&& r is Ok
                &&& r->Ok_0.program@ == "cargo"@
                &&& r->Ok_0.label@ == "cargo"@
                &&& deep(r->Ok_0.arguments@) == if offline {
                    seq!["check"@, "--message-format=short"@, "--offline"@]
                } else {
                    seq!["check"@, "--message-format=short"@]
                }
            } else if chosen == "npm"@ {
                &&& r is Ok
                &&& r->Ok_0.program@ == if windows {
                    "npm.cmd"@
                } else {
                    "npm"@
                }
                &&& r->Ok_0.label@ == "npm"@
                &&& deep(r->Ok_0.arguments@) == seq!["run"@, "check"@]
            } else {
                r is Err && r->Err_0@ == backend_error(backend@)
            }
        }),
{
    proof {
        reveal_strlit("auto");
        reveal_strlit("cargo");
        reveal_strlit("npm");
        assert("auto"@.len() == 4 && "cargo"@.len() == 5 && "npm"@.len() == 3);
    }
    let auto = same(backend, "auto");
    if same(backend, "cargo") || (auto && has_cargo) {
        let mut arguments: Vec<String> = Vec::new();
        arguments.push("check".to_owned());
        arguments.push("--message-format=short".to_owned());
        if offline {
            arguments.push("--offline".to_owned());
        }
        proof {
            assert(deep(arguments@) =~= if offline {
                seq!["check"@, "--message-format=short"@, "--offline"@]
            } else {
                seq!["check"@, "--message-format=short"@]
            });
        }
        Ok(CheckCommand { program: "cargo".to_owned(), arguments, label: "cargo" })
    } else if same(backend, "npm") || auto {
        let mut arguments: Vec<String> = Vec::new();
        arguments.push("run".to_owned());
        arguments.push("check".to_owned());
        proof {
            assert(deep(arguments@) =~= seq!["run"@, "check"@]);
        }
        Ok(
            CheckCommand {
                program: if windows {
                    "npm.cmd".to_owned()
                } else {
                    "npm".to_owned()
                },
                arguments,
                label: "npm",
            },
        )
    } else {
        Err(unsupported(backend))
    }
}

/// How long a check may take.
pub fn check_seconds(arguments: &Json) -> (r: u64)
    ensures
        r == match arguments.deep_view().get("timeout"@) {
            Some(value) => match value.as_u64() {
                Some(n) => if n < MIN_CHECK_SECONDS {
                    MIN_CHECK_SECONDS
                } else if n > MAX_CHECK_SECONDS {
                    MAX_CHECK_SECONDS
                } else {
                    n
                },
                None => MAX_CHECK_SECONDS,
            },
            None => MAX_CHECK_SECONDS,
        },
{
    match arguments.get("timeout") {
        Some(value) => match value.as_u64() {
            Some(n) => if n < MIN_CHECK_SECONDS {
                MIN_CHECK_SECONDS
            } else if n > MAX_CHECK_SECONDS {
                MAX_CHECK_SECONDS
            } else {
                n
            },
            None => MAX_CHECK_SECONDS,
        },
        None => MAX_CHECK_SECONDS,
    }
}

/// Adds as much of a chunk of output as may be kept.
pub fn capture_limited(output: &mut Vec<u8>, chunk: &[u8])
    ensures
        final(output)@ == if old(output)@.len() >= MAX_CAPTURE_BYTES {
            old(output)@
        } else if chunk@.len() <= MAX_CAPTURE_BYTES - old(output)@.len() {
            old(output)@ + chunk@
        } else {
            old(output)@ + chunk@.take(MAX_CAPTURE_BYTES - old(output)@.len())
        },
{
    let ghost before = output@;
    let mut i: usize = 0;
    proof {
        assert(before + chunk@.take(0) =~= before);
    }
    while i < chunk.len() && output.len() < MAX_CAPTURE_BYTES
        invariant
            i <= chunk@.len(),
            output@ == before + chunk@.take(i as int),
            i > 0 ==> output@.len() <= MAX_CAPTURE_BYTES,
        decreases chunk@.len() - i,
    {
        output.push(chunk[i]);
        i += 1;
        proof {
            assert(before + chunk@.take(i as int) =~= (before + chunk@.take(i - 1)).push(
                chunk@[i - 1],
            ));
        }
    }
    proof {
        assert(chunk@.take(chunk@.len() as int) =~= chunk@);
    }
}

/// How a check ended.
pub open spec fn check_status(timed_out: bool, success: bool) -> Seq<char> {
    if timed_out {
        "timed_out"@
    } else if success {
        "passed"@
    } else {
        "failed"@
    }
}

/// The report of a check that wrote these texts.
pub open spec fn check_text(
    label: Seq<char>,
    project: Seq<char>,
    timed_out: bool,
    success: bool,
    exit_code: Option<i32>,
    stdout: Seq<char>,
    stderr: Seq<char>,
) -> Seq<char> {
    truncated_text(
        "backend: "@ + label + "\nproject: "@ + project + "\nstatus: "@ + check_status(
            timed_out,
            success,
        ) + "\nexit_code: "@ + signed_decimal(
            match exit_code {
                Some(code) => code as int,
                None => -1,
            },
        ) + "\nstdout:\n"@ + stdout + "\nstderr:\n"@ + stderr,
        "diagnostics"@,
    )
}

/// The report of a check.
pub fn check_report(
    label: &str,
    project: &str,
    timed_out: bool,
    success: bool,
    exit_code: Option<i32>,
    stdout: &str,
    stderr: &str,
) -> (r: String)
    ensures
        r@ == check_text(label@, project@, timed_out, success, exit_code, stdout@, stderr@),
{
    let mut output = "backend: ".to_owned();
    output.append(label);
    output.append("\nproject: ");
    output.append(project);
    output.append("\nstatus: ");
    if timed_out {
        output.append("timed_out");
    } else if success {
        output.append("passed");
    } else {
        output.append("failed");
    }
    output.append("\nexit_code: ");
    let code: i64 = match exit_code {
        Some(code) => code as i64,
        None => -1,
    };
    output.append(&signed_text(code));
    output.append("\nstdout:\n");
    output.append(stdout);
    output.append("\nstderr:\n");
    output.append(stderr);
    truncate_text(&output, "diagnostics")
}

/// The report of a check, from the bytes that it wrote.
pub fn check_output_report(
    label: &str,
    project: &str,
    timed_out: bool,
    success: bool,
    exit_code: Option<i32>,
    stdout: &[u8],
    stderr: &[u8],
) -> (r: String)
    ensures
        r@ == check_text(
            label@,
            project@,
            timed_out,
            success,
            exit_code,
            lossy_text(stdout@),
            lossy_text(stderr@),
        ),
{
    check_report(
        label,
        project,
        timed_out,
        success,
        exit_code,
        &read_lossy(stdout),
        &read_lossy(stderr),
    )
}

} // verus!
