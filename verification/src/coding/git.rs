//! What is asked of git, and how its answer is shown.

use vstd::prelude::*;

use super::limits::{truncate_text, truncated_text};
use crate::deep::{deep, group_deep};
use crate::text::{blank, is_blank, join, joined, lossy_text, read_lossy, same, trim, trimmed};

verus! {

broadcast use group_deep;

/// The arguments for the state of the working tree.
pub fn status() -> (r: Vec<String>)
    ensures
        deep(r@) == seq!["status"@, "--short"@, "--branch"@, "--untracked-files=normal"@],
{
    let mut r: Vec<String> = Vec::new();
    r.push("status".to_owned());
    r.push("--short".to_owned());
    r.push("--branch".to_owned());
    r.push("--untracked-files=normal".to_owned());
    proof {
        assert(deep(r@) =~= seq![
            "status"@,
            "--short"@,
            "--branch"@,
            "--untracked-files=normal"@,
        ]);
    }
    r
}

/// The arguments for the changes, of one path where it is not empty.
pub fn diff(staged: bool, relative: &str) -> (r: Vec<String>)
    ensures
        deep(r@) == seq!["diff"@, "--no-ext-diff"@, "--unified=3"@] + (if staged {
            seq!["--cached"@]
        } else {
            Seq::<Seq<char>>::empty()
        }) + seq!["--"@] + (if relative@.len() > 0 && relative@ != "."@ {
            seq![relative@]
        } else {
            Seq::<Seq<char>>::empty()
        }),
{
    let mut r: Vec<String> = Vec::new();
    r.push("diff".to_owned());
    r.push("--no-ext-diff".to_owned());
    r.push("--unified=3".to_owned());
    if staged {
        r.push("--cached".to_owned());
    }
    r.push("--".to_owned());
    if !relative.is_empty() && !same(relative, ".") {
        r.push(relative.to_owned());
    }
    proof {
        assert(deep(r@) =~= seq!["diff"@, "--no-ext-diff"@, "--unified=3"@] + (if staged {
            seq!["--cached"@]
        } else {
            Seq::<Seq<char>>::empty()
        }) + seq!["--"@] + (if relative@.len() > 0 && relative@ != "."@ {
            seq![relative@]
        } else {
            Seq::<Seq<char>>::empty()
        }));
    }
    r
}

/// Both outputs of git in one text.
pub open spec fn combined_output(stdout: Seq<char>, stderr: Seq<char>) -> Seq<char> {
    if is_blank(stderr) {
        stdout
    } else if stdout.len() == 0 {
        trimmed(stderr)
    } else {
        stdout + "\n"@ + trimmed(stderr)
    }
}

/// What is shown of git's answer.
pub open spec fn git_output(
    arguments: Seq<Seq<char>>,
    success: bool,
    stdout: Seq<char>,
    stderr: Seq<char>,
    empty_message: Seq<char>,
) -> Result<Seq<char>, Seq<char>> {
    let text = combined_output(stdout, stderr);
    if !success {
        Err(truncated_text(text, "git "@ + joined(arguments, " "@) + " failed"@))
    } else if is_blank(text) {
        Ok(empty_message)
    } else {
        Ok(truncated_text(text, Seq::empty()))
    }
}

/// What is shown of git's answer.
pub fn run_report(
    arguments: &[String],
    success: bool,
    stdout: &str,
    stderr: &str,
    empty_message: Option<&str>,
) -> (r: Result<String, String>)
    ensures
        match git_output(
            deep(arguments@),
            success,
            stdout@,
            stderr@,
            match empty_message {
                Some(message) => message@,
                None => "No git output."@,
            },
        ) {
            Ok(text) => r is Ok && r->Ok_0@ == text,
            Err(error) => r is Err && r->Err_0@ == error,
        },
{
    let mut text = stdout.to_owned();
    if !blank(stderr) {
        if !stdout.is_empty() {
            text.append("\n");
        }
        text.append(&trim(stderr));
        proof {
            assert(text@ =~= combined_output(stdout@, stderr@));
        }
    }
    if !success {
        let mut prefix = "git ".to_owned();
        prefix.append(&join(arguments, " "));
        prefix.append(" failed");
        return Err(truncate_text(&text, &prefix));
    }
    if blank(&text) {
        return Ok(
            match empty_message {
                Some(message) => message.to_owned(),
                None => "No git output.".to_owned(),
            },
        );
    }
    let none = String::new();
    Ok(truncate_text(&text, &none))
}

/// What is shown of git's answer, from the bytes that it wrote.
pub fn output_report(
    arguments: &[String],
    success: bool,
    stdout: &[u8],
    stderr: &[u8],
    empty_message: Option<&str>,
) -> (r: Result<String, String>)
    ensures
        match git_output(
            deep(arguments@),
            success,
            lossy_text(stdout@),
            lossy_text(stderr@),
            match empty_message {
                Some(message) => message@,
                None => "No git output."@,
            },
        ) {
            Ok(text) => r is Ok && r->Ok_0@ == text,
            Err(error) => r is Err && r->Err_0@ == error,
        },
{
    run_report(arguments, success, &read_lossy(stdout), &read_lossy(stderr), empty_message)
}

} // verus!
