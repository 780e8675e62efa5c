//! Writing and deleting several files at once.
//!
//! The new contents are first written to temporary files. Then the old files are set aside, and
//! only then the new ones are put in their places. Where one of these steps fails, all of them
//! are undone. This module decides which step comes next and what has to be undone; the steps
//! themselves are carried out by the caller.

use vstd::prelude::*;

use crate::deep::{deep, group_deep};
use crate::text::{lowered, replace_char, replaced_char, same, to_ascii_lower};

verus! {

broadcast use group_deep;

// ---- the files of a batch ----

/// What two paths to the same file have in common. Some systems ignore the case of letters.
pub open spec fn path_key_of(path: Seq<char>, ignore_case: bool) -> Seq<char> {
    let key = replaced_char(path, '\\', '/');
    if ignore_case {
        lowered(key)
    } else {
        key
    }
}

/// What two paths to the same file have in common.
pub fn path_key(path: &str, ignore_case: bool) -> (r: String)
    ensures
        r@ == path_key_of(path@, ignore_case),
{
    let key = replace_char(path, '\\', '/');
    if ignore_case {
        to_ascii_lower(&key)
    } else {
        key
    }
}

/// Whether one of the first `n` paths has the key.
pub open spec fn key_among(
    paths: Seq<Seq<char>>,
    n: int,
    key: Seq<char>,
    ignore_case: bool,
) -> bool {
    exists|k: int| 0 <= k < n && path_key_of(#[trigger] paths[k], ignore_case) == key
}

/// Whether the path `i` is the same file as an earlier one.
pub open spec fn repeated(paths: Seq<Seq<char>>, i: int, ignore_case: bool) -> bool {
    key_among(paths, i, path_key_of(paths[i], ignore_case), ignore_case)
}

/// The first path from `i` on that is the same file as an earlier one.
pub open spec fn first_repeated(paths: Seq<Seq<char>>, i: int, ignore_case: bool) -> Option<int>
    decreases paths.len() - i,
{
    if i >= paths.len() {
        None
    } else if repeated(paths, i, ignore_case) {
        Some(i)
    } else {
        first_repeated(paths, i + 1, ignore_case)
    }
}

/// What is wrong with the files of a batch: no file may occur twice.
pub open spec fn batch_error(
    writes: Seq<Seq<char>>,
    deletes: Seq<Seq<char>>,
    ignore_case: bool,
) -> Option<Seq<char>> {
    match first_repeated(writes + deletes, 0, ignore_case) {
        Some(i) => if i < writes.len() {
            Some("The same file is scheduled more than once: "@ + writes[i])
        } else {
            Some(
                "A file cannot be written and deleted in one batch: "@ + deletes[i
                    - writes.len()],
            )
        },
        None => None,
    }
}

/// Where no file occurs twice, no two paths are the same.
pub proof fn law_batch_files_are_distinct(
    writes: Seq<Seq<char>>,
    deletes: Seq<Seq<char>>,
    ignore_case: bool,
)
    requires
        batch_error(writes, deletes, ignore_case) is None,
    ensures
        (writes + deletes).no_duplicates(),
{
    let all = writes + deletes;
    assert forall|i: int, j: int| 0 <= i < all.len() && 0 <= j < all.len() && i != j implies all[i]
        != all[j] by {
        let (a, b) = if i < j {
            (i, j)
        } else {
            (j, i)
        };
        lemma_first_repeated(all, 0, ignore_case, b);
        if all[a] == all[b] {
            assert(path_key_of(all[a], ignore_case) == path_key_of(all[b], ignore_case));
            assert(repeated(all, b, ignore_case));
        }
    }
}

proof fn lemma_first_repeated(paths: Seq<Seq<char>>, i: int, ignore_case: bool, k: int)
    requires
        0 <= i <= k < paths.len(),
        first_repeated(paths, i, ignore_case) is None,
    ensures
        !repeated(paths, k, ignore_case),
    decreases k - i,
{
    if i < k {
        lemma_first_repeated(paths, i + 1, ignore_case, k);
    }
}

fn copy_into(all: &mut Vec<String>, paths: &[String])
    ensures
        deep(final(all)@) == deep(old(all)@) + deep(paths@),
{
    let ghost before = deep(all@);
    let mut i: usize = 0;
    proof {
        assert(before + deep(paths@).take(0) =~= before);
    }
    while i < paths.len()
        invariant
            i <= paths@.len(),
            deep(all@) == before + deep(paths@).take(i as int),
        decreases paths@.len() - i,
    {
        all.push(paths[i].clone());
        i += 1;
        proof {
            assert(before + deep(paths@).take(i as int) =~= (before + deep(paths@).take(
                i - 1,
            )).push(deep(paths@)[i - 1]));
        }
    }
    proof {
        assert(deep(paths@).take(paths@.len() as int) =~= deep(paths@));
    }
}

/// Checks that no file occurs twice.
pub fn validate_batch_paths(writes: &[String], deletes: &[String], ignore_case: bool) -> (r: Result<
    (),
    String,
>)
    ensures
        match r {
            Ok(_) => batch_error(deep(writes@), deep(deletes@), ignore_case) is None,
            Err(error) => batch_error(deep(writes@), deep(deletes@), ignore_case) == Some(error@),
        },
{
    let mut all: Vec<String> = Vec::new();
    copy_into(&mut all, writes);
    copy_into(&mut all, deletes);
    let n = writes.len();
    let ghost models = deep(writes@) + deep(deletes@);
    proof {
        assert(deep(all@) =~= models);
    }
    let mut i: usize = 0;
    while i < all.len()
        invariant
            i <= all@.len(),
            deep(all@) == models,
            models == deep(writes@) + deep(deletes@),
            n == writes@.len(),
            first_repeated(models, 0, ignore_case) == first_repeated(
                models,
                i as int,
                ignore_case,
            ),
        decreases all@.len() - i,
    {
        let key = path_key(&all[i], ignore_case);
        let mut k: usize = 0;
        let mut found = false;
        while k < i && !found
            invariant
                k <= i < all@.len(),
                deep(all@) == models,
                key@ == path_key_of(models[i as int], ignore_case),
                !found ==> forall|j: int|
                    0 <= j < k ==> path_key_of(#[trigger] models[j], ignore_case) != key@,
                found ==> repeated(models, i as int, ignore_case),
            decreases (if found { 0int } else { 1 + i - k }),
        {
            proof {
                assert(models[k as int] == all@[k as int]@);
            }
            if same(&path_key(&all[k], ignore_case), &key) {
                found = true;
            } else {
                k += 1;
            }
        }
        if found {
            let mut error = if i < n {
                "The same file is scheduled more than once: ".to_owned()
            } else {
                "A file cannot be written and deleted in one batch: ".to_owned()
            };
            error.append(&all[i]);
            proof {
                assert(models[i as int] == all@[i as int]@);
            }
            return Err(error);
        }
        i += 1;
    }
    Ok(())
}

// ---- the steps of a batch ----

/// A new content that was written to a temporary file.
#[derive(Debug, PartialEq, Eq)]
pub struct StagedWrite {
    pub target: String,
    pub temporary: String,
    pub installed: bool,
}

/// A file that was set aside.
#[derive(Debug, PartialEq, Eq)]
pub struct Backup {
    pub target: String,
    pub backup: String,
}

pub struct StagedModel {
    pub target: Seq<char>,
    pub temporary: Seq<char>,
    pub installed: bool,
}

pub struct BackupModel {
    pub target: Seq<char>,
    pub backup: Seq<char>,
}

impl DeepView for StagedWrite {
    type V = StagedModel;

    open spec fn deep_view(&self) -> StagedModel {
        StagedModel {
            target: self.target@,
            temporary: self.temporary@,
            installed: self.installed,
        }
    }
}

impl DeepView for Backup {
    type V = BackupModel;

    open spec fn deep_view(&self) -> BackupModel {
        BackupModel { target: self.target@, backup: self.backup@ }
    }
}

/// What a batch is busy with.
#[derive(Debug, Clone, Copy, PartialEq, Eq, Structural)]
pub enum BatchPhase {
    /// The new contents are written to temporary files.
    Staging,
    /// The files that are to be deleted are set aside.
    SettingAside,
    /// The files that are to be replaced are set aside.
    Replacing,
    /// The temporary files are put in their places.
    Installing,
    Committed,
}

/// Several files that are written or deleted at once.
#[derive(Debug, PartialEq, Eq)]
pub struct Batch {
    pub writes: Vec<String>,
    pub deletes: Vec<String>,
    pub staged: Vec<StagedWrite>,
    pub backups: Vec<Backup>,
    pub phase: BatchPhase,
    pub index: usize,
}

pub struct BatchModel {
    pub writes: Seq<Seq<char>>,
    pub deletes: Seq<Seq<char>>,
    pub staged: Seq<StagedModel>,
    pub backups: Seq<BackupModel>,
    pub phase: BatchPhase,
    pub index: nat,
}

impl DeepView for Batch {
    type V = BatchModel;

    open spec fn deep_view(&self) -> BatchModel {
        BatchModel {
            writes: deep(self.writes@),
            deletes: deep(self.deletes@),
            staged: deep(self.staged@),
            backups: deep(self.backups@),
            phase: self.phase,
            index: self.index as nat,
        }
    }
}

impl BatchModel {
    /// How many steps the phase has.
    pub open spec fn steps(self) -> nat {
        match self.phase {
            BatchPhase::Staging => self.writes.len(),
            BatchPhase::SettingAside => self.deletes.len(),
            BatchPhase::Replacing => self.writes.len(),
            BatchPhase::Installing => self.writes.len(),
            BatchPhase::Committed => 0,
        }
    }

    /// The next phase.
    pub open spec fn next_phase(self) -> BatchPhase {
        match self.phase {
            BatchPhase::Staging => BatchPhase::SettingAside,
            BatchPhase::SettingAside => BatchPhase::Replacing,
            BatchPhase::Replacing => BatchPhase::Installing,
            _ => BatchPhase::Committed,
        }
    }

    /// How many phases come behind this one.
    pub open spec fn phases_left(self) -> nat {
        match self.phase {
            BatchPhase::Staging => 4,
            BatchPhase::SettingAside => 3,
            BatchPhase::Replacing => 2,
            BatchPhase::Installing => 1,
            BatchPhase::Committed => 0,
        }
    }

    /// The batch with the phases ended that have no step left.
    pub open spec fn settled(self) -> BatchModel
        decreases self.phases_left(),
    {
        if self.phase != BatchPhase::Committed && self.index >= self.steps() {
            BatchModel { phase: self.next_phase(), index: 0, ..self }.settled()
        } else {
            self
        }
    }

    /// The batch is where its phase says.
    pub open spec fn wf(self) -> bool {
        &&& self.phase != BatchPhase::Committed ==> self.index < self.steps()
        &&& self.staged.len() == if self.phase == BatchPhase::Staging {
            self.index
        } else {
            self.writes.len()
        }
        &&& forall|i: int|
            0 <= i < self.staged.len() ==> (#[trigger] self.staged[i]).target == self.writes[i]
        &&& forall|i: int|
            0 <= i < self.staged.len() ==> (#[trigger] self.staged[i]).installed == (self.phase
                == BatchPhase::Committed || (self.phase == BatchPhase::Installing && i
                < self.index))
    }

    /// The batch after a content was written to a temporary file.
    pub open spec fn after_stage(self, temporary: Seq<char>) -> BatchModel {
        BatchModel {
            staged: self.staged.push(
                StagedModel {
                    target: self.writes[self.index as int],
                    temporary,
                    installed: false,
                },
            ),
            index: self.index + 1,
            ..self
        }.settled()
    }

    /// The file that is set aside in this step.
    pub open spec fn aside(self) -> Seq<char> {
        if self.phase == BatchPhase::SettingAside {
            self.deletes[self.index as int]
        } else {
            self.writes[self.index as int]
        }
    }

    /// The batch after a file was set aside, or was found not to exist.
    pub open spec fn after_move(self, backup: Option<Seq<char>>) -> BatchModel {
        BatchModel {
            backups: match backup {
                Some(backup) => self.backups.push(BackupModel { target: self.aside(), backup }),
                None => self.backups,
            },
            index: self.index + 1,
            ..self
        }.settled()
    }

    /// The batch after a temporary file was put in its place.
    pub open spec fn after_install(self) -> BatchModel {
        let i = self.index as int;
        BatchModel {
            staged: self.staged.update(i, StagedModel { installed: true, ..self.staged[i] }),
            index: self.index + 1,
            ..self
        }.settled()
    }
}

/// What has to be done next.
#[derive(Debug, PartialEq, Eq)]
pub enum BatchStep {
    /// Write the content `index` to a temporary file beside `target`.
    Stage { index: usize, target: String },
    /// Move the file to another name, if it is there.
    SetAside { target: String },
    /// Move the file, which is to be replaced, to another name, if it is there.
    Replace { target: String },
    /// Move the temporary file to its place.
    Install { temporary: String, target: String },
    /// Remove the files that were set aside.
    Clean { backups: Vec<String> },
}

/// A step that undoes something.
#[derive(Debug, PartialEq, Eq)]
pub enum Undo {
    /// Remove the file.
    Remove { path: String },
    /// Move the file back, if its place is free; else remove it.
    Restore { backup: String, target: String },
}

pub enum UndoModel {
    Remove { path: Seq<char> },
    Restore { backup: Seq<char>, target: Seq<char> },
}

impl DeepView for Undo {
    type V = UndoModel;

    open spec fn deep_view(&self) -> UndoModel {
        match self {
            Undo::Remove { path } => UndoModel::Remove { path: path@ },
            Undo::Restore { backup, target } => UndoModel::Restore {
                backup: backup@,
                target: target@,
            },
        }
    }
}

/// What undoes the staged writes: the last first, the file in its place before the temporary one.
pub open spec fn undo_staged(staged: Seq<StagedModel>) -> Seq<UndoModel>
    decreases staged.len(),
{
    if staged.len() == 0 {
        Seq::empty()
    } else {
        let last = staged.last();
        let both = if last.installed {
            seq![
                UndoModel::Remove { path: last.target },
                UndoModel::Remove { path: last.temporary },
            ]
        } else {
            seq![UndoModel::Remove { path: last.temporary }]
        };
        both + undo_staged(staged.drop_last())
    }
}

/// What brings back the files that were set aside: the last first.
pub open spec fn undo_backups(backups: Seq<BackupModel>) -> Seq<UndoModel>
    decreases backups.len(),
{
    if backups.len() == 0 {
        Seq::empty()
    } else {
        seq![
            UndoModel::Restore { backup: backups.last().backup, target: backups.last().target },
        ] + undo_backups(backups.drop_last())
    }
}

impl Batch {
    /// A batch whose files were checked.
    pub fn new(writes: Vec<String>, deletes: Vec<String>) -> (r: Self)
        ensures
            r.deep_view().wf(),
            r.deep_view() == (BatchModel {
                writes: deep(writes@),
                deletes: deep(deletes@),
                staged: Seq::empty(),
                backups: Seq::empty(),
                phase: BatchPhase::Staging,
                index: 0,
            }).settled(),
    {
        let mut batch = Batch {
            writes,
            deletes,
            staged: Vec::new(),
            backups: Vec::new(),
            phase: BatchPhase::Staging,
            index: 0,
        };
        proof {
            assert(batch.deep_view().staged =~= Seq::<StagedModel>::empty());
            assert(batch.deep_view().backups =~= Seq::<BackupModel>::empty());
        }
        batch.settle();
        batch
    }

    /// Ends the phases that have no step left.
    fn settle(&mut self)
        requires
            ({
                let b = old(self).deep_view();
                &&& b.index <= b.steps() || b.phase == BatchPhase::Committed
                &&& b.staged.len() == if b.phase == BatchPhase::Staging {
                    b.index
                } else {
                    b.writes.len()
                }
                &&& forall|i: int|
                    0 <= i < b.staged.len() ==> (#[trigger] b.staged[i]).target == b.writes[i]
                &&& forall|i: int|
                    0 <= i < b.staged.len() ==> (#[trigger] b.staged[i]).installed == (b.phase
                        == BatchPhase::Committed || (b.phase == BatchPhase::Installing && i
                        < b.index))
            }),
        ensures
            final(self).deep_view() == old(self).deep_view().settled(),
            final(self).deep_view().wf(),
    {
        let mut done = false;
        while !done
            invariant
                self.deep_view().settled() == old(self).deep_view().settled(),
                done ==> self.deep_view().settled() == self.deep_view() && self.deep_view().wf(),
                ({
                    let b = self.deep_view();
                    &&& b.index <= b.steps() || b.phase == BatchPhase::Committed
                    &&& b.staged.len() == if b.phase == BatchPhase::Staging {
                        b.index
                    } else {
                        b.writes.len()
                    }
                    &&& forall|i: int|
                        0 <= i < b.staged.len() ==> (#[trigger] b.staged[i]).target == b.writes[i]
                    &&& forall|i: int|
                        0 <= i < b.staged.len() ==> (#[trigger] b.staged[i]).installed == (b.phase
                            == BatchPhase::Committed || (b.phase == BatchPhase::Installing && i
                            < b.index))
                }),
            decreases (if done { 0int } else { 1 + self.deep_view().phases_left() as int }),
        {
            let steps: usize = match self.phase {
                BatchPhase::Staging => self.writes.len(),
                BatchPhase::SettingAside => self.deletes.len(),
                BatchPhase::Replacing => self.writes.len(),
                BatchPhase::Installing => self.writes.len(),
                BatchPhase::Committed => 0,
            };
            if self.phase == BatchPhase::Committed || self.index < steps {
                done = true;
            } else {
                self.phase =
                match self.phase {
                    BatchPhase::Staging => BatchPhase::SettingAside,
                    BatchPhase::SettingAside => BatchPhase::Replacing,
                    BatchPhase::Replacing => BatchPhase::Installing,
                    _ => BatchPhase::Committed,
                };
                self.index = 0;
            }
        }
    }

    /// What has to be done next.
    pub fn next(&self) -> (r: BatchStep)
        requires
            self.deep_view().wf(),
        ensures
            ({
                let b = self.deep_view();
                let i = b.index as int;
                match b.phase {
                    BatchPhase::Staging => r matches BatchStep::Stage { index, target } && index
                        == i && target@ == b.writes[i],
                    BatchPhase::SettingAside => r matches BatchStep::SetAside { target } && target@
                        == b.deletes[i],
                    BatchPhase::Replacing => r matches BatchStep::Replace { target } && target@
                        == b.writes[i],
                    BatchPhase::Installing => r matches BatchStep::Install { temporary, target }
                        && temporary@ == b.staged[i].temporary && target@ == b.staged[i].target,
                    BatchPhase::Committed => r matches BatchStep::Clean { backups } && deep(
                        backups@,
                    ) == b.backups.map_values(|x: BackupModel| x.backup),
                }
            }),
    {
        let i = self.index;
        match self.phase {
            BatchPhase::Staging => BatchStep::Stage { index: i, target: self.writes[i].clone() },
            BatchPhase::SettingAside => BatchStep::SetAside { target: self.deletes[i].clone() },
            BatchPhase::Replacing => BatchStep::Replace { target: self.writes[i].clone() },
            BatchPhase::Installing => {
                proof {
                    assert(self.deep_view().staged[i as int] == self.staged@[i as int].deep_view());
                }
                BatchStep::Install {
                    temporary: self.staged[i].temporary.clone(),
                    target: self.staged[i].target.clone(),
                }
            },
            BatchPhase::Committed => {
                let mut backups: Vec<String> = Vec::new();
                let mut k: usize = 0;
                while k < self.backups.len()
                    invariant
                        k <= self.backups@.len(),
                        backups@.len() == k,
                        forall|j: int|
                            0 <= j < k ==> #[trigger] deep(backups@)[j] == deep(
                                self.backups@,
                            )[j].backup,
                    decreases self.backups@.len() - k,
                {
                    let ghost before = deep(backups@);
                    backups.push(self.backups[k].backup.clone());
                    proof {
                        assert(deep(backups@) == before.push(self.backups@[k as int].backup@));
                    }
                    k += 1;
                }
                proof {
                    assert(deep(backups@) =~= deep(self.backups@).map_values(
                        |x: BackupModel| x.backup,
                    ));
                }
                BatchStep::Clean { backups }
            },
        }
    }

    /// The content was written to the file `temporary`.
    pub fn staged(&mut self, temporary: String)
        requires
            old(self).deep_view().wf(),
            old(self).phase == BatchPhase::Staging,
        ensures
            final(self).deep_view() == old(self).deep_view().after_stage(temporary@),
            final(self).deep_view().wf(),
    {
        let count = self.writes.len();
        let target = self.writes[self.index].clone();
        self.staged.push(StagedWrite { target, temporary, installed: false });
        self.index = self.index + 1;
        self.settle();
    }

    /// The file was moved to `backup`, or was not there.
    pub fn moved(&mut self, backup: Option<String>)
        requires
            old(self).deep_view().wf(),
            old(self).phase == BatchPhase::SettingAside || old(self).phase
                == BatchPhase::Replacing,
        ensures
            final(self).deep_view() == old(self).deep_view().after_move(backup.deep_view()),
            final(self).deep_view().wf(),
    {
        let count = self.writes.len();
        let delete_count = self.deletes.len();
        let target = if self.phase == BatchPhase::SettingAside {
            self.deletes[self.index].clone()
        } else {
            self.writes[self.index].clone()
        };
        match backup {
            Some(backup) => {
                self.backups.push(Backup { target, backup });
            },
            None => {},
        }
        self.index = self.index + 1;
        self.settle();
    }

    /// The temporary file was moved to its place.
    pub fn installed(&mut self)
        requires
            old(self).deep_view().wf(),
            old(self).phase == BatchPhase::Installing,
        ensures
            final(self).deep_view() == old(self).deep_view().after_install(),
            final(self).deep_view().wf(),
    {
        let i = self.index;
        let count = self.staged.len();
        let ghost before = self.deep_view();
        let entry = StagedWrite {
            target: self.staged[i].target.clone(),
            temporary: self.staged[i].temporary.clone(),
            installed: true,
        };
        proof {
            assert(before.staged[i as int] == self.staged@[i as int].deep_view());
        }
        self.staged.set(i, entry);
        self.index = i + 1;
        self.settle();
    }

    /// What has to be done where a step has failed.
    pub fn rollback(&self) -> (r: Vec<Undo>)
        ensures
            deep(r@) == undo_staged(self.deep_view().staged) + undo_backups(
                self.deep_view().backups,
            ),
    {
        let ghost staged = deep(self.staged@);
        let ghost backups = deep(self.backups@);
        let mut r: Vec<Undo> = Vec::new();
        let mut i: usize = self.staged.len();
        proof {
            assert(staged.take(i as int) =~= staged);
            assert(deep(r@) + undo_staged(staged) =~= undo_staged(staged));
        }
        while i > 0
            invariant
                i <= self.staged@.len(),
                staged == deep(self.staged@),
                deep(r@) + undo_staged(staged.take(i as int)) == undo_staged(staged),
            decreases i,
        {
            let last = &self.staged[i - 1];
            let ghost before = deep(r@);
            let ghost head = staged.take(i as int);
            proof {
                assert(head.last() == last.deep_view());
                assert(head.drop_last() =~= staged.take(i - 1));
            }
            if last.installed {
                r.push(Undo::Remove { path: last.target.clone() });
            }
            r.push(Undo::Remove { path: last.temporary.clone() });
            proof {
                assert(before + undo_staged(head) =~= deep(r@) + undo_staged(staged.take(i - 1)));
            }
            i -= 1;
        }
        proof {
            assert(staged.take(0) =~= Seq::<StagedModel>::empty());
            assert(deep(r@) =~= undo_staged(staged));
        }
        let mut k: usize = self.backups.len();
        proof {
            assert(backups.take(k as int) =~= backups);
        }
        while k > 0
            invariant
                k <= self.backups@.len(),
                backups == deep(self.backups@),
                deep(r@) + undo_backups(backups.take(k as int)) == undo_staged(staged)
                    + undo_backups(backups),
            decreases k,
        {
            let last = &self.backups[k - 1];
            let ghost before = deep(r@);
            let ghost head = backups.take(k as int);
            proof {
                assert(head.last() == last.deep_view());
                assert(head.drop_last() =~= backups.take(k - 1));
            }
            r.push(Undo::Restore { backup: last.backup.clone(), target: last.target.clone() });
            proof {
                assert(before + undo_backups(head) =~= deep(r@) + undo_backups(
                    backups.take(k - 1),
                ));
            }
            k -= 1;
        }
        proof {
            assert(backups.take(0) =~= Seq::<BackupModel>::empty());
            assert(deep(r@) + Seq::<UndoModel>::empty() =~= deep(r@));
        }
        r
    }
}

} // verus!
