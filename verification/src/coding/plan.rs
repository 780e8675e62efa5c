//! What a patch does to the files of a repository, decided before any file is touched.

use vstd::prelude::*;
use vstd::utf8::encode_utf8;

use super::batch::{path_key, path_key_of};
use super::hunks::{apply_hunks, join_lines, lines_text, patched};
use super::limits::MAX_EDIT_BYTES;
use super::patch::{operations_of, parse, FileOperation, HunkModel, OperationModel};
use crate::deep::{deep, group_deep};
use crate::json::Json;
use crate::text::{byte_len, contains_text, join, joined, same};

verus! {

broadcast use group_deep;

/// A file that a patch names, as it was found: its full path, its path in the repository,
/// whether it is there, and its text or why there is none.
#[derive(Debug, PartialEq, Eq)]
pub struct PatchTarget {
    pub path: String,
    pub relative: String,
    pub exists: bool,
    pub is_file: bool,
    pub text: Result<String, String>,
}

/// What a file was found to be.
pub struct TargetModel {
    pub path: Seq<char>,
    pub relative: Seq<char>,
    pub exists: bool,
    pub is_file: bool,
    pub text: Result<Seq<char>, Seq<char>>,
}

impl DeepView for PatchTarget {
    type V = TargetModel;

    open spec fn deep_view(&self) -> TargetModel {
        TargetModel {
            path: self.path@,
            relative: self.relative@,
            exists: self.exists,
            is_file: self.is_file,
            text: match self.text {
                Ok(text) => Ok(text@),
                Err(error) => Err(error@),
            },
        }
    }
}

/// What a patch is going to do.
#[derive(Debug, PartialEq, Eq)]
pub struct PatchPlan {
    pub writes: Vec<(String, String)>,
    pub deletes: Vec<String>,
    pub labels: Vec<String>,
    pub seen: Vec<String>,
}

/// What a patch is going to do.
pub struct PlanModel {
    pub writes: Seq<(Seq<char>, Seq<char>)>,
    pub deletes: Seq<Seq<char>>,
    pub labels: Seq<Seq<char>>,
    pub seen: Seq<Seq<char>>,
}

impl DeepView for PatchPlan {
    type V = PlanModel;

    open spec fn deep_view(&self) -> PlanModel {
        PlanModel {
            writes: deep(self.writes@),
            deletes: deep(self.deletes@),
            labels: deep(self.labels@),
            seen: deep(self.seen@),
        }
    }
}

impl PlanModel {
    /// The plan with one more file. No file may be named twice.
    pub open spec fn registered(self, path: Seq<char>, ignore_case: bool) -> Result<
        PlanModel,
        Seq<char>,
    > {
        let key = path_key_of(path, ignore_case);
        if self.seen.contains(key) {
            Err("Patch references the same path more than once: "@ + path)
        } else {
            Ok(PlanModel { seen: self.seen.push(key), ..self })
        }
    }

    pub open spec fn with_write(self, path: Seq<char>, text: Seq<char>) -> PlanModel {
        PlanModel { writes: self.writes.push((path, text)), ..self }
    }

    pub open spec fn with_delete(self, path: Seq<char>) -> PlanModel {
        PlanModel { deletes: self.deletes.push(path), ..self }
    }

    pub open spec fn with_label(self, verb: Seq<char>, relative: Seq<char>) -> PlanModel {
        PlanModel { labels: self.labels.push(verb + relative), ..self }
    }

    /// The plan with a file added.
    pub open spec fn with_added(
        self,
        lines: Seq<Seq<char>>,
        source: TargetModel,
        ignore_case: bool,
    ) -> Result<PlanModel, Seq<char>> {
        match self.registered(source.path, ignore_case) {
            Err(error) => Err(error),
            Ok(plan) => if source.exists {
                Err("Cannot add existing file "@ + source.relative)
            } else {
                Ok(
                    plan.with_write(source.path, lines_text(lines, true)).with_label(
                        "add "@,
                        source.relative,
                    ),
                )
            },
        }
    }

    /// The text of a file after the hunks of the patch.
    pub open spec fn text_after(source: TargetModel, hunks: Seq<HunkModel>) -> Result<
        Seq<char>,
        Seq<char>,
    > {
        match source.text {
            Err(error) => Err("Unable to read "@ + source.relative + ": "@ + error),
            Ok(text) => patched(text, hunks),
        }
    }

    /// The plan with a file deleted. Where the patch says what the file holds, it must.
    pub open spec fn with_deleted(
        self,
        hunks: Option<Seq<HunkModel>>,
        source: TargetModel,
        ignore_case: bool,
    ) -> Result<PlanModel, Seq<char>> {
        match self.registered(source.path, ignore_case) {
            Err(error) => Err(error),
            Ok(plan) => if !source.is_file {
                Err("Cannot delete missing file "@ + source.relative)
            } else {
                let checked = match hunks {
                    Some(hunks) => Self::text_after(source, hunks),
                    None => Ok(Seq::empty()),
                };
                match checked {
                    Err(error) => Err(error),
                    Ok(_) => Ok(
                        plan.with_delete(source.path).with_label("delete "@, source.relative),
                    ),
                }
            },
        }
    }

    /// The plan with a file updated, and moved where `destination` is another file.
    pub open spec fn with_updated(
        self,
        hunks: Seq<HunkModel>,
        source: TargetModel,
        destination: TargetModel,
        ignore_case: bool,
    ) -> Result<PlanModel, Seq<char>> {
        match self.registered(source.path, ignore_case) {
            Err(error) => Err(error),
            Ok(plan) => match Self::text_after(source, hunks) {
                Err(error) => Err(error),
                Ok(text) => if destination.path == source.path {
                    Ok(
                        plan.with_write(source.path, text).with_label(
                            "update "@,
                            destination.relative,
                        ),
                    )
                } else {
                    match plan.registered(destination.path, ignore_case) {
                        Err(error) => Err(error),
                        Ok(plan) => if destination.exists {
                            Err("Cannot move over existing file "@ + destination.relative)
                        } else {
                            Ok(
                                plan.with_write(destination.path, text).with_delete(
                                    source.path,
                                ).with_label("update "@, destination.relative),
                            )
                        },
                    }
                },
            },
        }
    }

    /// The plan with one more operation. `destination` is the file itself where it does not move.
    pub open spec fn with_operation(
        self,
        operation: OperationModel,
        source: TargetModel,
        destination: TargetModel,
        ignore_case: bool,
    ) -> Result<PlanModel, Seq<char>> {
        match operation {
            OperationModel::Add { path, lines } => self.with_added(lines, source, ignore_case),
            OperationModel::Delete { path, hunks } => self.with_deleted(
                hunks,
                source,
                ignore_case,
            ),
            OperationModel::Update { path, move_to, hunks } => self.with_updated(
                hunks,
                source,
                destination,
                ignore_case,
            ),
        }
    }
}

/// An error behind a text.
fn with_path(text: &str, path: &str) -> (r: String)
    ensures
        r@ == text@ + path@,
{
    let mut r = text.to_owned();
    r.append(path);
    r
}

fn text_after(source: &PatchTarget, hunks: &[super::patch::Hunk]) -> (r: Result<String, String>)
    ensures
        match r {
            Ok(text) => PlanModel::text_after(source.deep_view(), deep(hunks@)) == Ok::<
                Seq<char>,
                Seq<char>,
            >(text@),
            Err(error) => PlanModel::text_after(source.deep_view(), deep(hunks@)) == Err::<
                Seq<char>,
                Seq<char>,
            >(error@),
        },
{
    match &source.text {
        Err(reason) => {
            let mut error = with_path("Unable to read ", &source.relative);
            error.append(": ");
            error.append(reason);
            Err(error)
        },
        Ok(text) => apply_hunks(text, hunks),
    }
}

impl PatchPlan {
    /// A plan that does nothing yet.
    pub fn new() -> (r: Self)
        ensures
            r.deep_view() == (PlanModel {
                writes: Seq::empty(),
                deletes: Seq::empty(),
                labels: Seq::empty(),
                seen: Seq::empty(),
            }),
    {
        let r = PatchPlan {
            writes: Vec::new(),
            deletes: Vec::new(),
            labels: Vec::new(),
            seen: Vec::new(),
        };
        proof {
            assert(r.deep_view().writes =~= Seq::<(Seq<char>, Seq<char>)>::empty());
            assert(r.deep_view().deletes =~= Seq::<Seq<char>>::empty());
            assert(r.deep_view().labels =~= Seq::<Seq<char>>::empty());
            assert(r.deep_view().seen =~= Seq::<Seq<char>>::empty());
        }
        r
    }

    /// Notes a file. No file may be named twice.
    pub fn register_path(&mut self, path: &str, ignore_case: bool) -> (r: Result<(), String>)
        ensures
            match old(self).deep_view().registered(path@, ignore_case) {
                Ok(plan) => r is Ok && final(self).deep_view() == plan,
                Err(error) => r is Err && r->Err_0@ == error,
            },
    {
        let key = path_key(path, ignore_case);
        if contains_text(&self.seen, &key) {
            return Err(with_path("Patch references the same path more than once: ", path));
        }
        self.seen.push(key);
        Ok(())
    }

    /// Takes one more operation into the plan. `destination` is the file itself where it does not
    /// move.
    pub fn add(
        &mut self,
        operation: &FileOperation,
        source: &PatchTarget,
        destination: &PatchTarget,
        ignore_case: bool,
    ) -> (r: Result<(), String>)
        ensures
            match old(self).deep_view().with_operation(
                operation.deep_view(),
                source.deep_view(),
                destination.deep_view(),
                ignore_case,
            ) {
                Ok(plan) => r is Ok && final(self).deep_view() == plan,
                Err(error) => r is Err && r->Err_0@ == error,
            },
    {
        match self.register_path(&source.path, ignore_case) {
            Ok(_) => {},
            Err(error) => {
                return Err(error);
            },
        }
        match operation {
            FileOperation::Add { path, lines } => {
                if source.exists {
                    return Err(with_path("Cannot add existing file ", &source.relative));
                }
                let text = join_lines(lines, true);
                self.writes.push((source.path.clone(), text));
                self.labels.push(with_path("add ", &source.relative));
            },
            FileOperation::Delete { path, hunks } => {
                if !source.is_file {
                    return Err(with_path("Cannot delete missing file ", &source.relative));
                }
                if let Some(hunks) = hunks {
                    match text_after(source, hunks) {
                        Ok(_) => {},
                        Err(error) => {
                            return Err(error);
                        },
                    }
                }
                self.deletes.push(source.path.clone());
                self.labels.push(with_path("delete ", &source.relative));
            },
            FileOperation::Update { path, move_to, hunks } => {
                let text = match text_after(source, hunks) {
                    Ok(text) => text,
                    Err(error) => {
                        return Err(error);
                    },
                };
                if same(&destination.path, &source.path) {
                    self.writes.push((source.path.clone(), text));
                } else {
                    match self.register_path(&destination.path, ignore_case) {
                        Ok(_) => {},
                        Err(error) => {
                            return Err(error);
                        },
                    }
                    if destination.exists {
                        return Err(
                            with_path("Cannot move over existing file ", &destination.relative),
                        );
                    }
                    self.writes.push((destination.path.clone(), text));
                    self.deletes.push(source.path.clone());
                }
                self.labels.push(with_path("update ", &destination.relative));
            },
        }
        Ok(())
    }

    /// The report of a plan that does something.
    pub fn report(&self) -> (r: Result<String, String>)
        ensures
            ({
                let plan = self.deep_view();
                if plan.writes.len() == 0 && plan.deletes.len() == 0 {
                    r is Err && r->Err_0@ == "Patch contains no file operations"@
                } else {
                    r is Ok && r->Ok_0@ == "Applied patch: "@ + joined(plan.labels, ", "@)
                }
            }),
    {
        if self.writes.is_empty() && self.deletes.is_empty() {
            return Err("Patch contains no file operations".to_owned());
        }
        let mut report = "Applied patch: ".to_owned();
        report.append(&join(&self.labels, ", "));
        Ok(report)
    }
}

/// The operations that a call with a patch asks for.
pub fn patch_operations(arguments: &Json) -> (r: Result<Vec<FileOperation>, String>)
    ensures
        match arguments.deep_view().text("patch"@) {
            None => r is Err && r->Err_0@ == "rust_code apply_patch requires patch"@,
            Some(patch) => if encode_utf8(patch).len() > MAX_EDIT_BYTES {
                r is Err && r->Err_0@ == "Patch exceeds the 16 MiB limit"@
            } else {
                match operations_of(patch) {
                    Ok(operations) => r is Ok && deep(r->Ok_0@) == operations,
                    Err(error) => r is Err && r->Err_0@ == error,
                }
            },
        },
{
    match arguments.text("patch") {
        None => Err("rust_code apply_patch requires patch".to_owned()),
        Some(patch) => if byte_len(patch) > MAX_EDIT_BYTES {
            Err("Patch exceeds the 16 MiB limit".to_owned())
        } else {
            parse(patch)
        },
    }
}

/// A plan never writes or deletes a file that it has not noted, and it notes no file twice.
pub open spec fn plan_wf(plan: PlanModel, ignore_case: bool) -> bool {
    &&& plan.seen.no_duplicates()
    &&& forall|i: int|
        0 <= i < plan.writes.len() ==> plan.seen.contains(
            path_key_of((#[trigger] plan.writes[i]).0, ignore_case),
        )
    &&& forall|i: int|
        0 <= i < plan.deletes.len() ==> plan.seen.contains(
            path_key_of(#[trigger] plan.deletes[i], ignore_case),
        )
}

proof fn lemma_registered(plan: PlanModel, path: Seq<char>, ignore_case: bool)
    requires
        plan_wf(plan, ignore_case),
    ensures
        plan.registered(path, ignore_case) matches Ok(next) ==> plan_wf(next, ignore_case)
            && next.seen.contains(path_key_of(path, ignore_case)) && forall|key: Seq<char>|
            plan.seen.contains(key) ==> #[trigger] next.seen.contains(key),
{
    let key = path_key_of(path, ignore_case);
    let seen = plan.seen.push(key);
    if !plan.seen.contains(key) {
        assert forall|k: Seq<char>| plan.seen.contains(k) implies #[trigger] seen.contains(k) by {
            let i = choose|i: int| 0 <= i < plan.seen.len() && plan.seen[i] == k;
            assert(seen[i] == k);
        }
        assert(seen[plan.seen.len() as int] == key);
        assert forall|i: int, j: int| 0 <= i < seen.len() && 0 <= j < seen.len() && i
            != j implies seen[i] != seen[j] by {
            if i == plan.seen.len() {
                assert(plan.seen[j] == seen[j]);
                assert(plan.seen.contains(seen[j]));
            } else if j == plan.seen.len() {
                assert(plan.seen[i] == seen[i]);
                assert(plan.seen.contains(seen[i]));
            } else {
                assert(plan.seen[i] != plan.seen[j]);
            }
        }
    }
}

/// Each operation keeps the plan sound.
pub proof fn law_plan_stays_sound(
    plan: PlanModel,
    operation: OperationModel,
    source: TargetModel,
    destination: TargetModel,
    ignore_case: bool,
)
    requires
        plan_wf(plan, ignore_case),
    ensures
        plan.with_operation(operation, source, destination, ignore_case) matches Ok(next)
            ==> plan_wf(next, ignore_case),
{
    lemma_registered(plan, source.path, ignore_case);
    if let Ok(first) = plan.registered(source.path, ignore_case) {
        lemma_registered(first, destination.path, ignore_case);
    }
}

} // verus!
