//! Reading, searching and changing the files of a project.

use rustpilot::coding::arguments::{code_operation, is_mutation, CodeOperation};
use rustpilot::coding::batch::{validate_batch_paths, Batch, BatchPhase, BatchStep, Undo};
use rustpilot::coding::diagnostics::{
    capture_limited, check_output_report, check_report, check_seconds, command_for, find_project, project_found,
    Manifests,
};
use rustpilot::coding::edit::{
    count_occurrences, replace_in, replace_report, replace_request, write_report, write_request,
};
use rustpilot::coding::git::{diff, output_report, run_report, status};
use rustpilot::coding::glob::{matches_glob, wildcard_match};
use rustpilot::coding::guards::{
    check_deletable, check_listable, check_readable, check_set_aside, check_staged, check_writable,
};
use rustpilot::coding::hunks::apply_hunks;
use rustpilot::coding::limits::{truncate_output, MAX_OUTPUT_CHARS};
use rustpilot::coding::names::{
    io_compatible_path, relative_path, temporary_name, temporary_names,
};
use rustpilot::coding::patch::{parse, FileOperation};
use rustpilot::coding::plan::{patch_operations, PatchPlan, PatchTarget};
use rustpilot::coding::search::{
    glob_files, glob_pattern, grep_request, is_ignored_directory, is_searched, limit_argument, list_directory, read_file,
    read_request, DirEntry, EntryKind, GrepState,
};
use rustpilot::coding::walk::{Child, Walk};
use rustpilot::json::Json;
use rustpilot::tools::editor::{
    created_text, editor_command, insert, inserted_text, replace, replaced_texts, undo_edit, view,
    EditHistory, EditorCommand, UndoEdit, CREATED_FILE_MARKER,
};
use rustpilot::tools::files::{file_operation, list_entries, write_content, FileToolOperation};
use rustpilot::tools::http::{http_report, http_request};

fn text(value: &str) -> String {
    value.to_string()
}

fn texts(values: &[&str]) -> Vec<String> {
    values.iter().map(|value| value.to_string()).collect()
}

fn json(value: &str) -> Json {
    Json::parse(value).expect("the text should be JSON")
}

fn target(path: &str, contents: Option<&str>) -> PatchTarget {
    PatchTarget {
        path: text(path),
        relative: text(path),
        exists: contents.is_some(),
        is_file: contents.is_some(),
        text: contents.map(text).ok_or(text("not found")),
    }
}

fn planned(patch: &str, path: &str, contents: Option<&str>) -> Result<PatchPlan, String> {
    let mut plan = PatchPlan::new();
    for operation in parse(patch)? {
        plan.add(&operation, &target(path, contents), &target(path, contents), false)?;
    }
    Ok(plan)
}

#[test]
fn reading_and_searching_are_bounded_and_numbered() {
    let lines = texts(&["fn main() {}\n", "needle here\n"]);
    let request = read_request(&json(
        "{\"operation\":\"read\",\"path\":\"src/main.rs\",\"line_start\":2,\"line_end\":2}",
    ));
    let read = read_file(&request, "src/main.rs", &lines, &None).expect("read should succeed");
    let broken = read_file(&read_request(&json("{}")), "a", &lines, &Some(text("bad")));
    assert_eq!(broken, Err(text("Unable to read a: bad")));
    let reached = read_file(&request, "a", &lines, &Some(text("bad")));
    assert!(reached.is_ok());
    assert!(read.contains("2 | needle here"));
    assert!(!read.contains("fn main"));

    let request = grep_request(&json(
        "{\"operation\":\"grep\",\"pattern\":\"needle\",\"path\":\"src\"}",
    ))
    .expect("grep should have a pattern");
    let mut grep = GrepState::new();
    grep.search(&request, "src/main.rs", &lines, false);
    assert!(grep.finish().contains("src/main.rs:2: needle here"));
    assert!(grep_request(&json("{}")).is_err());
}

#[test]
fn replacing_needs_one_match_unless_all_are_meant() {
    let request = replace_request(&json(
        "{\"path\":\"main.rs\",\"old_text\":\"value\",\"new_text\":\"changed\"}",
    ))
    .expect("the request is complete");
    assert!(replace_in(&request, "value\nvalue\n").is_err());
    assert!(replace_in(&request, "other\n").is_err());
    let request = replace_request(&json(
        "{\"path\":\"main.rs\",\"old_text\":\"value\",\"new_text\":\"changed\",\"replace_all\":true}",
    ))
    .expect("the request is complete");
    let (changed, count) =
        replace_in(&request, "value\nvalue\n").expect("all of them are replaced");
    assert_eq!(changed, "changed\nchanged\n");
    assert!(replace_report(count, "main.rs").contains("Replaced 2 occurrences"));
    assert!(replace_request(&json("{\"path\":\"x\",\"old_text\":\"\"}")).is_err());
    assert_eq!(count_occurrences("aaaa", "aa"), 2);
}

#[test]
fn unknown_backends_are_rejected() {
    assert!(project_found("shell", true, false).is_err());
    assert!(command_for("shell", true, false, false).is_err());
    assert!(project_found("auto", false, false).is_ok());
}

#[test]
fn checks_have_a_command_and_a_report() {
    let command = command_for("cargo", true, true, false).expect("cargo is known");
    assert_eq!(command.program, "cargo");
    assert_eq!(command.arguments, texts(&["check", "--message-format=short", "--offline"]));
    assert_eq!(command_for("npm", false, false, true).map(|c| c.program), Ok(text("npm.cmd")));
    assert_eq!(check_seconds(&json("{\"timeout\":30}")), 30);
    let report = check_report("cargo", ".", false, true, Some(0), "fine", "");
    assert!(report.contains("backend: cargo"));
    assert!(report.contains("status: passed"));
    assert!(report.contains("exit_code: 0"));
    assert_eq!(check_output_report("cargo", ".", false, true, Some(0), b"fine", b""), report);
    let broken = check_output_report("npm", ".", true, false, None, &[104, 105, 255], b"");
    assert!(broken.contains("status: timed_out\nexit_code: -1\nstdout:\nhi\u{fffd}\n"));
    let mut kept = Vec::new();
    capture_limited(&mut kept, b"ab");
    assert_eq!(kept, b"ab".to_vec());
}

#[test]
fn generated_directories_are_skipped() {
    assert!(is_ignored_directory("target"));
    assert!(!is_ignored_directory("src"));
    let mut walk = Walk::new(".");
    let mut visited = Vec::new();
    while let Some(directory) = walk.next() {
        if directory == "." {
            walk.visit(vec![
                Child { name: text("main.rs"), path: text("main.rs"), kind: EntryKind::File },
                Child { name: text("target"), path: text("target"), kind: EntryKind::Directory },
                Child { name: text("src"), path: text("src"), kind: EntryKind::Directory },
            ]);
        }
        visited.push(directory);
    }
    assert_eq!(visited, texts(&[".", "src"]));
    let output = glob_files("**/*.rs", &walk.files, 10, walk.truncated);
    assert_eq!(output, "main.rs\n");
}

#[test]
fn exact_limits_are_not_reported_as_truncated() {
    let request = grep_request(&json(
        "{\"pattern\":\"needle\",\"case_sensitive\":false,\"max_results\":2}",
    ))
    .expect("grep should have a pattern");
    let mut state = GrepState::new();
    state.search(&request, "a.rs", &texts(&["Needle one\n", "Needle two\n"]), false);
    state.search(&request, "b.rs", &texts(&["other\n"]), false);
    let grep = state.finish();
    assert_eq!(grep.matches("a.rs:").count(), 2);
    assert!(!grep.contains("[output truncated]"));

    let limit = limit_argument(&json("{\"limit\":2}"), "limit", 100);
    let glob = glob_files("*.rs", &texts(&["a.rs", "b.rs"]), limit, false);
    assert_eq!(glob.lines().count(), 2);
    assert!(!glob.contains("[output truncated]"));
    assert!(glob_files("*.rs", &texts(&["a.rs", "b.rs"]), 1, false).contains("truncated"));
}

#[test]
fn both_forms_of_patches_are_applied() {
    let first = "*** Begin Patch\n*** Update File: main.rs\n@@\n two\n-three\n+four\n*** End Patch";
    let plan = planned(first, "main.rs", Some("one\ntwo\nthree\n")).expect("the patch fits");
    assert_eq!(plan.writes, vec![(text("main.rs"), text("one\ntwo\nfour\n"))]);
    let second = "--- a/main.rs\n+++ b/main.rs\n@@ -1,2 +1,2 @@\n-one\n-two\n+alpha\n+beta";
    let plan = planned(second, "main.rs", Some("one\ntwo\nfour\n")).expect("the patch fits");
    assert_eq!(plan.writes, vec![(text("main.rs"), text("alpha\nbeta\nfour\n"))]);
    assert!(plan.report().expect("something was changed").contains("main.rs"));
    assert!(PatchPlan::new().report().is_err());
}

#[test]
fn every_file_of_a_patch_is_looked_at_first() {
    let patch = "*** Begin Patch\n*** Update File: first.txt\n@@\n-old\n+new\n*** Update File: missing.txt\n@@\n-old\n+new\n*** End Patch";
    let operations = parse(patch).expect("the patch can be read");
    assert_eq!(operations.len(), 2);
    let mut plan = PatchPlan::new();
    let first = target("first.txt", Some("old\n"));
    let missing = target("missing.txt", None);
    assert!(plan.add(&operations[0], &first, &first, false).is_ok());
    assert!(plan.add(&operations[1], &missing, &missing, false).is_err());
}

#[test]
fn deletions_check_what_is_deleted() {
    let patch = "--- a/delete.txt\n+++ /dev/null\n@@ -1 +1 @@\n-remove\n";
    assert!(planned(patch, "delete.txt", Some("keep\n")).is_err());
    let plan = planned(patch, "delete.txt", Some("remove\n")).expect("the patch fits");
    assert_eq!(plan.deletes, texts(&["delete.txt"]));
}

#[test]
fn a_patch_names_each_path_once() {
    let patch = "*** Begin Patch\n*** Update File: same.txt\n@@\n-old\n+one\n*** Update File: same.txt\n@@\n-old\n+two\n*** End Patch";
    assert_eq!(
        planned(patch, "same.txt", Some("old\n")),
        Err(text("Patch references the same path more than once: same.txt"))
    );
}

#[test]
fn added_files_are_new() {
    let patch = "*** Begin Patch\n*** Add File: new.txt\n+one\n+two\n*** End Patch";
    let plan = planned(patch, "new.txt", None).expect("the file is new");
    assert_eq!(plan.writes[0].1, "one\ntwo\n");
    assert_eq!(
        planned(patch, "new.txt", Some("x")),
        Err(text("Cannot add existing file new.txt"))
    );
}

#[test]
fn files_are_moved_to_free_places() {
    let patch = "*** Begin Patch\n*** Update File: a\n*** Move to: b\n@@\n-old\n+new\n*** End Patch";
    let operations = parse(patch).expect("the patch can be read");
    assert!(matches!(&operations[0], FileOperation::Update { move_to: Some(b), .. } if b == "b"));
    let mut plan = PatchPlan::new();
    assert_eq!(
        plan.add(&operations[0], &target("a", Some("old\n")), &target("b", Some("x")), false),
        Err(text("Cannot move over existing file b"))
    );
    let mut plan = PatchPlan::new();
    plan.add(&operations[0], &target("a", Some("old\n")), &target("b", None), false)
        .expect("the place is free");
    assert_eq!(plan.writes, vec![(text("b"), text("new\n"))]);
    assert_eq!(plan.deletes, texts(&["a"]));
}

#[test]
fn malformed_patches_are_refused() {
    for (patch, error) in [
        ("*** Begin Patch\n*** Update File: a\n", "Patch is missing *** End Patch"),
        ("*** Begin Patch\n*** Add File: a\nx\n*** End Patch", "Added-file patch lines must start with +"),
        ("*** Begin Patch\nhello\n*** End Patch", "Unsupported apply_patch directive: hello"),
        ("*** Begin Patch\n*** Update File: a\n*** End Patch", "Patch update contains no hunks"),
        ("hello\n", "Unable to find a supported unified patch"),
        ("--- a/x\nhello\n", "Unified patch is missing its +++ path"),
    ] {
        assert_eq!(parse(patch), Err(text(error)));
    }
    assert!(patch_operations(&json("{}")).is_err());
    assert!(patch_operations(&json("{\"patch\":\"--- a/x\\n+++ b/x\\n@@ -1 +1 @@\\n-a\\n+b\\n\"}")).is_ok());
    let operations = parse("--- a/x\n+++ b/x\n@@ -1 +1 @@\n-a\n+b\n").expect("a patch");
    if let FileOperation::Update { hunks, .. } = &operations[0] {
        assert_eq!(apply_hunks("a", hunks), Ok(text("b")));
        assert!(apply_hunks("c", hunks).is_err());
    } else {
        panic!("the file is changed");
    }
}

#[test]
fn changes_are_told_apart() {
    assert!(is_mutation(&json("{\"operation\":\"apply_patch\"}")));
    assert!(!is_mutation(&json("{\"operation\":\"grep\"}")));
    assert_eq!(code_operation(&json("{\"operation\":\"grep\"}")), Ok(CodeOperation::Grep));
    assert!(code_operation(&json("{\"operation\":\"fly\"}")).is_err());
    assert_eq!(code_operation(&json("{}")), code_operation(&json("{\"operation\":\"read\"}")));
}

#[test]
fn globs_span_directories() {
    assert!(matches_glob("**/*.rs", "src/a/b.rs"));
    assert!(matches_glob("**/*.rs", "b.rs"));
    assert!(matches_glob("*.rs", "src/a.rs"));
    assert!(matches_glob("src*.rs", "src.rs"));
    // Only a wildcard stands for a separator.
    assert!(wildcard_match("src?*.rs", "src/a.rs"));
    assert!(!wildcard_match("src/*.rs", "src/a.rs"));
    assert!(wildcard_match("a?c*", "abcdef"));
    assert!(!wildcard_match("a?c", "abcd"));
}

#[test]
fn directories_are_listed_with_a_limit() {
    let entries = vec![
        DirEntry { kind: EntryKind::Directory, name: text("src") },
        DirEntry { kind: EntryKind::File, name: text("a.txt") },
    ];
    let all = list_directory(".", &entries, 10);
    assert!(all.contains("src") && all.contains("a.txt"));
    assert!(list_directory(".", &entries, 1).contains("truncated"));
    assert_eq!(list_directory("d", &[], 1), "d\n[empty]\n");
}

#[test]
fn long_output_is_cut() {
    let long = "x".repeat(MAX_OUTPUT_CHARS + 5);
    let cut = truncate_output(&long);
    assert!(cut.chars().count() <= MAX_OUTPUT_CHARS + 64);
    assert!(cut.contains("truncated"));
    assert_eq!(truncate_output("short"), "short");
}

#[test]
fn batches_are_committed_or_undone() {
    let mut batch = Batch::new(texts(&["a"]), texts(&["b"]));
    assert_eq!(batch.next(), BatchStep::Stage { index: 0, target: text("a") });
    batch.staged(text("a.tmp"));
    assert_eq!(batch.next(), BatchStep::SetAside { target: text("b") });
    batch.moved(Some(text("b.bak")));
    assert_eq!(batch.next(), BatchStep::Replace { target: text("a") });
    batch.moved(Some(text("a.bak")));
    assert_eq!(
        batch.next(),
        BatchStep::Install { temporary: text("a.tmp"), target: text("a") }
    );
    let undo = batch.rollback();
    assert!(undo.contains(&Undo::Restore { backup: text("b.bak"), target: text("b") }));
    assert!(undo.contains(&Undo::Restore { backup: text("a.bak"), target: text("a") }));
    assert!(undo.contains(&Undo::Remove { path: text("a.tmp") }));
    batch.installed();
    assert_eq!(batch.phase, BatchPhase::Committed);
    assert!(matches!(batch.next(), BatchStep::Clean { backups } if backups.len() == 2));
}

#[test]
fn batches_name_each_path_once() {
    assert!(validate_batch_paths(&texts(&["a", "b"]), &texts(&["c"]), false).is_ok());
    assert!(validate_batch_paths(&texts(&["a"]), &texts(&["a"]), false).is_err());
    assert!(validate_batch_paths(&texts(&["a"]), &texts(&["A"]), true).is_err());
    assert!(validate_batch_paths(&texts(&["a"]), &texts(&["A"]), false).is_ok());
}

#[test]
fn repositories_are_asked_with_fixed_arguments() {
    assert!(status().contains(&text("status")));
    assert!(diff(true, "src").contains(&text("--cached")));
    assert!(!diff(false, "src").contains(&text("--cached")));
    assert!(run_report(&status(), true, "", "", Some("clean")).is_ok());
    assert!(run_report(&status(), false, "", "boom", None).is_err());
    assert_eq!(
        output_report(&status(), true, b"## main", b" note\n", None),
        Ok(text("## main\nnote"))
    );
    assert_eq!(output_report(&status(), true, b"", b"", None), Ok(text("No git output.")));
}

#[test]
fn whole_files_are_written() {
    assert_eq!(
        write_request(&json("{\"path\":\"a\",\"content\":\"x\"}")),
        Ok((text("a"), text("x")))
    );
    assert!(write_request(&json("{\"path\":\"a\"}")).is_err());
    assert!(write_report("a", "xyz").contains('a'));
}

#[test]
fn editors_view_replace_and_insert() {
    assert_eq!(
        editor_command(&json("{\"command\":\"view\",\"path\":\"a\"}")),
        Ok((EditorCommand::View, text("a")))
    );
    assert_eq!(
        editor_command(&json("{\"path\":\"a\"}")),
        Err(text("rust_str_replace_editor requires command"))
    );
    assert_eq!(
        editor_command(&json("{\"command\":\"view\"}")),
        Err(text("rust_str_replace_editor requires path"))
    );
    assert!(view("one\ntwo\n", &json("{\"view_range\":[2,2]}")).contains("two"));
    assert_eq!(replace("abc", "b", "x"), Ok(text("axc")));
    assert_eq!(
        replace("abab", "ab", "x"),
        Err(text("old_str must match exactly one location; found 2."))
    );
    assert_eq!(insert("one\ntwo\n", 1, "mid"), Ok(text("one\nmid\ntwo")));
    assert_eq!(
        insert("one\n", 9, "mid"),
        Err(text("insert_line 9 is outside the file."))
    );
}

#[test]
fn edits_are_undone_last_first() {
    let mut history = EditHistory::new();
    history.record("a", text("1"));
    history.record("b", text("x"));
    history.record("a", text("2"));
    assert_eq!(history.undo("a"), Some(text("2")));
    assert_eq!(history.undo("a"), Some(text("1")));
    assert_eq!(history.undo("a"), None);
    assert_eq!(history.undo("b"), Some(text("x")));
}

#[test]
fn file_operations_are_named() {
    assert_eq!(
        file_operation(&json("{\"operation\":\"exists\",\"path\":\"a\"}")),
        Ok((FileToolOperation::Exists, text("a")))
    );
    assert_eq!(file_operation(&json("{}")), Ok((FileToolOperation::List, text("."))));
    assert_eq!(
        file_operation(&json("{\"operation\":\"fly\"}")),
        Err(text("Unsupported rust_files operation: fly"))
    );
    let entries = vec![DirEntry { kind: EntryKind::Directory, name: text("src") }];
    assert!(list_entries(&entries).contains("src"));
    assert_eq!(write_content(&json("{\"content\":\"x\"}")), Ok(text("x")));
    assert!(write_content(&json("{}")).is_err());
}

#[test]
fn requests_name_an_address() {
    let request = http_request(&json(
        "{\"url\":\"https://x.test\",\"method\":\"post\",\"body\":\"b\"}",
    ))
    .expect("the request is complete");
    assert_eq!(request.method, "post");
    assert_eq!(request.body, Some(text("b")));
    assert!(http_request(&json("{}")).is_err());
    assert!(http_report("200 OK", "body").contains("200 OK"));
}

#[test]
fn the_nearest_project_is_checked() {
    let none = Manifests { has_cargo: false, has_npm: false };
    let npm = Manifests { has_cargo: false, has_npm: true };
    let both = Manifests { has_cargo: true, has_npm: true };
    assert_eq!(find_project("s", "auto", &[none, npm, both]), Ok(1));
    assert_eq!(find_project("s", "cargo", &[none, npm, both]), Ok(2));
    assert_eq!(
        find_project("s", "npm", &[none]),
        Err(text("No supported project manifest found from s"))
    );
    assert_eq!(
        find_project("s", "make", &[both]),
        Err(text("Unsupported diagnostics backend 'make'; use auto, cargo, or npm"))
    );
}

#[test]
fn temporary_files_stand_beside_their_targets() {
    assert_eq!(
        temporary_name(&Some(text("main.rs")), 7, 3, "tmp"),
        ".main.rs.rustpilot-7-3-tmp"
    );
    assert_eq!(temporary_name(&None, 7, 0, "backup"), ".file.rustpilot-7-0-backup");
    let names = temporary_names(&Some(text("a")), 1, 5, "tmp");
    assert_eq!(names.len(), 32);
    assert_eq!(names[31], ".a.rustpilot-1-36-tmp");
    assert_eq!(relative_path(&Some(text("src\\a.rs")), "/w/src/a.rs"), "src/a.rs");
    assert_eq!(relative_path(&Some(String::new()), "/w"), ".");
    assert_eq!(relative_path(&None, "C:\\x"), "C:/x");
    assert_eq!(io_compatible_path("\\\\?\\C:\\a", true), "C:\\a");
    assert_eq!(io_compatible_path("\\\\?\\UNC\\s\\a", true), "\\\\s\\a");
    assert_eq!(io_compatible_path("\\\\?\\C:\\a", false), "\\\\?\\C:\\a");
}

#[test]
fn paths_lead_to_what_is_wanted() {
    assert!(check_readable("a", true).is_ok());
    assert_eq!(check_readable("a", false), Err(text("Cannot read a directory as a file: a")));
    assert!(check_listable("a", true).is_ok());
    assert_eq!(check_listable("a", false), Err(text("Cannot list a file as a directory: a")));
    assert!(check_writable("a", false).is_ok());
    assert_eq!(check_writable("a", true), Err(text("Cannot write a directory: a")));
    assert!(check_deletable(true).is_ok());
    assert_eq!(check_deletable(false), Err(text("rust_code delete only removes regular files")));
    assert!(check_staged("a", 16 * 1024 * 1024, false).is_ok());
    assert_eq!(
        check_staged("a", 16 * 1024 * 1024 + 1, true),
        Err(text("Edit exceeds the 16 MiB write limit"))
    );
    assert_eq!(check_staged("a", 1, true), Err(text("Cannot replace directory: a")));
    assert!(check_set_aside("a", false).is_ok());
    assert_eq!(check_set_aside("a", true), Err(text("Cannot delete directory: a")));
}

#[test]
fn files_are_chosen_by_their_names() {
    assert_eq!(glob_pattern(&json("{\"query\":\"*.rs\"}")), Ok(text("*.rs")));
    assert_eq!(glob_pattern(&json("{}")), Err(text("rust_code glob requires pattern")));
    assert!(is_searched(&json("{}"), "a.md"));
    assert!(is_searched(&json("{\"glob\":\"*.rs\"}"), "src/a.rs"));
    assert!(!is_searched(&json("{\"glob\":\"*.rs\"}"), "a.md"));
}

#[test]
fn editors_need_their_arguments() {
    assert_eq!(created_text(&json("{\"file_text\":\"x\"}"), "/a", false), Ok(text("x")));
    assert_eq!(created_text(&json("{}"), "/a", true), Err(text("File already exists: /a")));
    assert_eq!(
        created_text(&json("{}"), "/a", false),
        Err(text("Parameter file_text is required for create"))
    );
    assert_eq!(
        replaced_texts(&json("{\"old_str\":\"a\"}")),
        Ok((text("a"), String::new()))
    );
    assert_eq!(
        replaced_texts(&json("{}")),
        Err(text("Parameter old_str is required for str_replace"))
    );
    assert_eq!(
        inserted_text(&json("{\"insert_line\":2,\"new_str\":\"x\"}")),
        Ok((2, text("x")))
    );
    assert_eq!(
        inserted_text(&json("{\"new_str\":\"x\"}")),
        Err(text("Parameter insert_line is required for insert"))
    );
    assert_eq!(
        inserted_text(&json("{\"insert_line\":2}")),
        Err(text("Parameter new_str is required for insert"))
    );
    assert_eq!(undo_edit(Some(text(CREATED_FILE_MARKER)), "/a"), Ok(UndoEdit::Remove));
    assert_eq!(undo_edit(Some(text("x")), "/a"), Ok(UndoEdit::Restore(text("x"))));
    assert_eq!(
        undo_edit(None, "/a"),
        Err(text("No edit history is available for /a"))
    );
}
