//! A batch is carried out as a whole, or not at all.
//!
//! A disk is a map from paths to contents. The laws follow what the steps of a batch do to it.

use vstd::prelude::*;

use super::batch::{
    undo_backups, undo_staged, BackupModel, BatchModel, BatchPhase, StagedModel, UndoModel,
};

verus! {

pub type Disk = Map<Seq<char>, Seq<u8>>;

/// The content of a file, where it is there.
pub open spec fn content(disk: Disk, path: Seq<char>) -> Option<Seq<u8>> {
    if disk.dom().contains(path) {
        Some(disk[path])
    } else {
        None
    }
}

/// The disk after a file was moved.
pub open spec fn moved(disk: Disk, from: Seq<char>, to: Seq<char>) -> Disk {
    disk.remove(from).insert(to, disk[from])
}

/// The disk after one step of an undo.
pub open spec fn undone(disk: Disk, undo: UndoModel) -> Disk {
    match undo {
        UndoModel::Remove { path } => disk.remove(path),
        UndoModel::Restore { backup, target } => if disk.dom().contains(target) {
            disk.remove(backup)
        } else {
            moved(disk, backup, target)
        },
    }
}

/// The disk after the steps of an undo, the first first.
pub open spec fn undone_all(disk: Disk, undo: Seq<UndoModel>) -> Disk
    decreases undo.len(),
{
    if undo.len() == 0 {
        disk
    } else {
        undone_all(undone(disk, undo.first()), undo.drop_first())
    }
}

/// The disk without the files that were set aside.
pub open spec fn cleaned(disk: Disk, backups: Seq<BackupModel>) -> Disk
    decreases backups.len(),
{
    if backups.len() == 0 {
        disk
    } else {
        cleaned(disk.remove(backups.last().backup), backups.drop_last())
    }
}

/// Whether a path is one of the files of the batch.
pub open spec fn is_target(batch: BatchModel, path: Seq<char>) -> bool {
    (batch.writes + batch.deletes).contains(path)
}

/// Whether a path is one that the batch made up.
pub open spec fn is_made_up(batch: BatchModel, path: Seq<char>) -> bool {
    ||| exists|i: int|
        0 <= i < batch.staged.len() && (#[trigger] batch.staged[i]).temporary == path
    ||| exists|j: int| 0 <= j < batch.backups.len() && (#[trigger] batch.backups[j]).backup == path
}

/// Whether a file of the batch was set aside.
pub open spec fn is_aside(batch: BatchModel, path: Seq<char>) -> bool {
    exists|j: int| 0 <= j < batch.backups.len() && (#[trigger] batch.backups[j]).target == path
}

/// Whether a file of the batch has its new content.
pub open spec fn is_installed(batch: BatchModel, path: Seq<char>) -> bool {
    exists|i: int|
        0 <= i < batch.staged.len() && (#[trigger] batch.staged[i]).installed
            && batch.staged[i].target == path
}

/// The names of a batch: no file occurs twice, and the made-up names are all different and new.
pub open spec fn names_ok(batch: BatchModel, before: Disk) -> bool {
    &&& (batch.writes + batch.deletes).no_duplicates()
    &&& forall|i: int, k: int|
        0 <= i < k < batch.staged.len() ==> (#[trigger] batch.staged[i]).temporary != (
        #[trigger] batch.staged[k]).temporary
    &&& forall|i: int, k: int|
        0 <= i < k < batch.backups.len() ==> (#[trigger] batch.backups[i]).backup != (
        #[trigger] batch.backups[k]).backup
    &&& forall|i: int, j: int|
        0 <= i < batch.staged.len() && 0 <= j < batch.backups.len() ==> (
        #[trigger] batch.staged[i]).temporary != (#[trigger] batch.backups[j]).backup
    &&& forall|p: Seq<char>| #[trigger]
        is_made_up(batch, p) ==> !before.dom().contains(p) && !is_target(batch, p)
    &&& forall|i: int, k: int|
        0 <= i < k < batch.backups.len() ==> (#[trigger] batch.backups[i]).target != (
        #[trigger] batch.backups[k]).target
    &&& forall|j: int|
        0 <= j < batch.backups.len() ==> is_target(batch, (#[trigger] batch.backups[j]).target)
            && before.dom().contains(batch.backups[j].target)
    &&& forall|i: int|
        0 <= i < batch.staged.len() ==> is_target(batch, (#[trigger] batch.staged[i]).target)
    &&& forall|i: int, k: int|
        0 <= i < k < batch.staged.len() ==> (#[trigger] batch.staged[i]).target != (
        #[trigger] batch.staged[k]).target
}

/// How many of the files that are to be deleted were set aside or found missing.
pub open spec fn deletes_done(batch: BatchModel) -> nat {
    match batch.phase {
        BatchPhase::Staging => 0,
        BatchPhase::SettingAside => batch.index,
        _ => batch.deletes.len(),
    }
}

/// How many of the files that are to be written were set aside or found missing.
pub open spec fn places_freed(batch: BatchModel) -> nat {
    match batch.phase {
        BatchPhase::Staging => 0,
        BatchPhase::SettingAside => 0,
        BatchPhase::Replacing => batch.index,
        _ => batch.writes.len(),
    }
}

/// The files that were set aside or found missing are not there, but for those that have their
/// new content.
pub open spec fn cleared(batch: BatchModel, now: Disk) -> bool {
    &&& forall|k: int|
        0 <= k < deletes_done(batch) && k < batch.deletes.len() ==> content(
            now,
            #[trigger] batch.deletes[k],
        ) is None
    &&& forall|i: int|
        0 <= i < places_freed(batch) && i < batch.writes.len() && !is_installed(
            batch,
            #[trigger] batch.writes[i],
        ) ==> content(now, batch.writes[i]) is None
}

/// The disk `now` is what the steps of the batch made of the disk `before`.
pub open spec fn explains(
    batch: BatchModel,
    contents: Seq<Seq<u8>>,
    before: Disk,
    now: Disk,
) -> bool {
    &&& names_ok(batch, before)
    &&& contents.len() == batch.writes.len()
    &&& forall|i: int|
        0 <= i < batch.staged.len() ==> content(now, (#[trigger] batch.staged[i]).temporary)
            == if batch.staged[i].installed {
            None
        } else {
            Some(contents[i])
        }
    &&& forall|i: int|
        0 <= i < batch.staged.len() && (#[trigger] batch.staged[i]).installed ==> content(
            now,
            batch.staged[i].target,
        ) == Some(contents[i]) && (is_aside(batch, batch.staged[i].target)
            || !before.dom().contains(batch.staged[i].target))
    &&& forall|j: int|
        0 <= j < batch.backups.len() ==> content(now, (#[trigger] batch.backups[j]).backup)
            == content(before, batch.backups[j].target)
    &&& forall|j: int|
        0 <= j < batch.backups.len() && !is_installed(
            batch,
            (#[trigger] batch.backups[j]).target,
        ) ==> content(now, batch.backups[j].target) is None
    &&& forall|p: Seq<char>|
        !is_made_up(batch, p) && !is_aside(batch, p) && !is_installed(batch, p) ==> #[trigger]
        content(now, p) == content(before, p)
    &&& cleared(batch, now)
}

proof fn lemma_same_disk(a: Disk, b: Disk)
    requires
        forall|p: Seq<char>| #[trigger] content(a, p) == content(b, p),
    ensures
        a == b,
{
    assert forall|p: Seq<char>| #[trigger] a.dom().contains(p) == b.dom().contains(p) by {
        assert(content(a, p) == content(b, p));
    }
    assert forall|p: Seq<char>| a.dom().contains(p) implies #[trigger] a[p] == b[p] by {
        assert(content(a, p) == content(b, p));
    }
    assert(a =~= b);
}

proof fn lemma_undone_add(disk: Disk, a: Seq<UndoModel>, b: Seq<UndoModel>)
    ensures
        undone_all(disk, a + b) == undone_all(undone_all(disk, a), b),
    decreases a.len(),
{
    if a.len() == 0 {
        assert(a + b =~= b);
    } else {
        assert((a + b).first() == a.first());
        assert((a + b).drop_first() =~= a.drop_first() + b);
        lemma_undone_add(undone(disk, a.first()), a.drop_first(), b);
    }
}

/// Whether undoing the staged writes removes a path.
spec fn removes(staged: Seq<StagedModel>, path: Seq<char>) -> bool {
    exists|i: int|
        0 <= i < staged.len() && ((#[trigger] staged[i]).temporary == path || (staged[i].installed
            && staged[i].target == path))
}

proof fn lemma_undo_staged(disk: Disk, staged: Seq<StagedModel>, path: Seq<char>)
    ensures
        content(undone_all(disk, undo_staged(staged)), path) == if removes(staged, path) {
            None
        } else {
            content(disk, path)
        },
    decreases staged.len(),
{
    if staged.len() > 0 {
        let last = staged.last();
        let head = staged.drop_last();
        let both = if last.installed {
            seq![
                UndoModel::Remove { path: last.target },
                UndoModel::Remove { path: last.temporary },
            ]
        } else {
            seq![UndoModel::Remove { path: last.temporary }]
        };
        lemma_undone_add(disk, both, undo_staged(head));
        let mid = undone_all(disk, both);
        if last.installed {
            let first = undone(disk, both[0]);
            assert(both.drop_first() =~= seq![both[1]]);
            assert(undone_all(disk, both) == undone_all(first, seq![both[1]]));
            assert(seq![both[1]].drop_first() =~= Seq::<UndoModel>::empty());
            assert(undone_all(first, seq![both[1]]) == undone_all(
                undone(first, both[1]),
                Seq::<UndoModel>::empty(),
            ));
            assert(mid == disk.remove(last.target).remove(last.temporary));
        } else {
            assert(both.drop_first() =~= Seq::<UndoModel>::empty());
            assert(undone_all(disk, both) == undone_all(
                undone(disk, both[0]),
                Seq::<UndoModel>::empty(),
            ));
            assert(mid == disk.remove(last.temporary));
        }
        lemma_undo_staged(mid, head, path);
        if removes(staged, path) {
            let i = choose|i: int|
                0 <= i < staged.len() && ((#[trigger] staged[i]).temporary == path || (
                staged[i].installed && staged[i].target == path));
            if i < head.len() {
                assert(head[i] == staged[i]);
                assert(removes(head, path));
            } else {
                assert(content(mid, path) is None);
            }
        } else {
            assert(!removes(head, path)) by {
                if removes(head, path) {
                    let i = choose|i: int|
                        0 <= i < head.len() && ((#[trigger] head[i]).temporary == path || (
                        head[i].installed && head[i].target == path));
                    assert(staged[i] == head[i]);
                }
            }
            assert(staged[staged.len() - 1] == last);
        }
    }
}

/// Bringing back the files that were set aside, where their places are free.
proof fn lemma_undo_backups(disk: Disk, backups: Seq<BackupModel>, path: Seq<char>)
    requires
        forall|j: int|
            0 <= j < backups.len() ==> content(disk, (#[trigger] backups[j]).target) is None
                && content(disk, backups[j].backup) is Some,
        forall|i: int, k: int|
            0 <= i < k < backups.len() ==> (#[trigger] backups[i]).backup != (
            #[trigger] backups[k]).backup && backups[i].target != backups[k].target,
        forall|i: int, k: int|
            0 <= i < backups.len() && 0 <= k < backups.len() ==> (#[trigger] backups[i]).backup != (
            #[trigger] backups[k]).target,
    ensures
        forall|j: int|
            0 <= j < backups.len() && path == (#[trigger] backups[j]).target ==> content(
                undone_all(disk, undo_backups(backups)),
                path,
            ) == content(disk, backups[j].backup),
        forall|j: int|
            0 <= j < backups.len() && path == (#[trigger] backups[j]).backup ==> content(
                undone_all(disk, undo_backups(backups)),
                path,
            ) is None,
        (forall|j: int|
            0 <= j < backups.len() ==> path != (#[trigger] backups[j]).target && path
                != backups[j].backup) ==> content(undone_all(disk, undo_backups(backups)), path)
            == content(disk, path),
    decreases backups.len(),
{
    if backups.len() > 0 {
        let n = backups.len() - 1;
        let last = backups[n];
        let head = backups.drop_last();
        let step = UndoModel::Restore { backup: last.backup, target: last.target };
        let mid = moved(disk, last.backup, last.target);
        assert(content(disk, last.target) is None);
        assert(content(disk, last.backup) is Some);
        assert(undone(disk, step) == mid);
        let all = undo_backups(backups);
        assert(all == seq![step] + undo_backups(head));
        assert(all.drop_first() =~= undo_backups(head));
        assert(undone_all(disk, all) == undone_all(mid, undo_backups(head)));
        assert forall|j: int| 0 <= j < head.len() implies content(
            mid,
            (#[trigger] head[j]).target,
        ) is None && content(mid, head[j].backup) is Some by {
            assert(head[j] == backups[j]);
            assert(backups[j].target != last.target);
            assert(backups[j].backup != last.backup);
            assert(backups[j].backup != last.target);
            assert(last.backup != backups[j].target);
        }
        assert forall|i: int, k: int| 0 <= i < k < head.len() implies (#[trigger] head[i]).backup
            != (#[trigger] head[k]).backup && head[i].target != head[k].target by {
            assert(head[i] == backups[i] && head[k] == backups[k]);
        }
        assert forall|i: int, k: int| 0 <= i < head.len() && 0 <= k < head.len() implies (
        #[trigger] head[i]).backup != (#[trigger] head[k]).target by {
            assert(head[i] == backups[i] && head[k] == backups[k]);
        }
        lemma_undo_backups(mid, head, path);
        let end = undone_all(disk, all);
        assert forall|j: int| 0 <= j < backups.len() && path == (
        #[trigger] backups[j]).target implies content(end, path) == content(
            disk,
            backups[j].backup,
        ) by {
            if j < n {
                assert(head[j] == backups[j]);
                assert(backups[j].backup != last.backup);
                assert(backups[j].backup != last.target);
            } else {
                assert forall|k: int| 0 <= k < head.len() implies path != (
                #[trigger] head[k]).target && path != head[k].backup by {
                    assert(head[k] == backups[k]);
                    assert(backups[k].target != backups[n].target);
                    assert(backups[k].backup != backups[n].target);
                }
            }
        }
        assert forall|j: int| 0 <= j < backups.len() && path == (
        #[trigger] backups[j]).backup implies content(end, path) is None by {
            if j < n {
                assert(head[j] == backups[j]);
            } else {
                assert forall|k: int| 0 <= k < head.len() implies path != (
                #[trigger] head[k]).target && path != head[k].backup by {
                    assert(head[k] == backups[k]);
                    assert(backups[k].backup != backups[n].backup);
                    assert(backups[n].backup != backups[k].target);
                }
                assert(last.backup != last.target);
            }
        }
        if forall|j: int|
            0 <= j < backups.len() ==> path != (#[trigger] backups[j]).target && path
                != backups[j].backup {
            assert forall|k: int| 0 <= k < head.len() implies path != (#[trigger] head[k]).target
                && path != head[k].backup by {
                assert(head[k] == backups[k]);
            }
            assert(path != backups[n].target && path != backups[n].backup);
        }
    }
}

/// Whichever step of a batch fails, undoing the steps before it brings back the disk as it was.
pub proof fn law_rollback_restores_the_disk(
    batch: BatchModel,
    contents: Seq<Seq<u8>>,
    before: Disk,
    now: Disk,
)
    requires
        explains(batch, contents, before, now),
    ensures
        undone_all(now, undo_staged(batch.staged) + undo_backups(batch.backups)) == before,
{
    let mid = undone_all(now, undo_staged(batch.staged));
    lemma_undone_add(now, undo_staged(batch.staged), undo_backups(batch.backups));
    let end = undone_all(mid, undo_backups(batch.backups));
    // What was set aside is still there, and its place is free.
    assert forall|j: int| 0 <= j < batch.backups.len() implies content(
        mid,
        (#[trigger] batch.backups[j]).target,
    ) is None && content(mid, batch.backups[j].backup) == content(
        before,
        batch.backups[j].target,
    ) by {
        let b = batch.backups[j];
        lemma_undo_staged(now, batch.staged, b.target);
        lemma_undo_staged(now, batch.staged, b.backup);
        assert(is_made_up(batch, b.backup));
        assert(!removes(batch.staged, b.backup)) by {
            if removes(batch.staged, b.backup) {
                let i = choose|i: int|
                    0 <= i < batch.staged.len() && ((#[trigger] batch.staged[i]).temporary
                        == b.backup || (batch.staged[i].installed && batch.staged[i].target
                        == b.backup));
                assert(batch.staged[i].temporary != b.backup);
                assert(is_target(batch, batch.staged[i].target));
            }
        }
        if is_installed(batch, b.target) {
            let i = choose|i: int|
                0 <= i < batch.staged.len() && (#[trigger] batch.staged[i]).installed
                    && batch.staged[i].target == b.target;
            assert(removes(batch.staged, b.target));
        }
    }
    assert forall|i: int, k: int| 0 <= i < batch.backups.len() && 0 <= k
        < batch.backups.len() implies (#[trigger] batch.backups[i]).backup != (
    #[trigger] batch.backups[k]).target by {
        assert(is_made_up(batch, batch.backups[i].backup));
        assert(is_target(batch, batch.backups[k].target));
    }
    assert forall|j: int| 0 <= j < batch.backups.len() implies content(
        mid,
        (#[trigger] batch.backups[j]).backup,
    ) is Some by {
        assert(before.dom().contains(batch.backups[j].target));
    }
    assert forall|p: Seq<char>| #[trigger] content(end, p) == content(before, p) by {
        lemma_undo_backups(mid, batch.backups, p);
        lemma_undo_staged(now, batch.staged, p);
        if is_aside(batch, p) {
            let j = choose|j: int|
                0 <= j < batch.backups.len() && (#[trigger] batch.backups[j]).target == p;
            assert(content(end, p) == content(mid, batch.backups[j].backup));
        } else if is_made_up(batch, p) {
            assert(!before.dom().contains(p));
            if exists|j: int| 0 <= j < batch.backups.len() && (#[trigger] batch.backups[j]).backup
                == p {
                let j = choose|j: int|
                    0 <= j < batch.backups.len() && (#[trigger] batch.backups[j]).backup == p;
                assert(content(end, p) is None);
            } else {
                let i = choose|i: int|
                    0 <= i < batch.staged.len() && (#[trigger] batch.staged[i]).temporary == p;
                assert(removes(batch.staged, p));
                assert(content(mid, p) is None);
            }
        } else {
            assert forall|j: int| 0 <= j < batch.backups.len() implies p != (
            #[trigger] batch.backups[j]).target && p != batch.backups[j].backup by {}
            assert(content(end, p) == content(mid, p));
            if is_installed(batch, p) {
                let i = choose|i: int|
                    0 <= i < batch.staged.len() && (#[trigger] batch.staged[i]).installed
                        && batch.staged[i].target == p;
                assert(removes(batch.staged, p));
                assert(!before.dom().contains(p));
            } else {
                assert(!removes(batch.staged, p)) by {
                    if removes(batch.staged, p) {
                        let i = choose|i: int|
                            0 <= i < batch.staged.len() && ((#[trigger] batch.staged[i]).temporary
                                == p || (batch.staged[i].installed && batch.staged[i].target
                                == p));
                        if batch.staged[i].temporary == p {
                            assert(is_made_up(batch, p));
                        } else {
                            assert(is_installed(batch, p));
                        }
                    }
                }
                assert(content(now, p) == content(before, p));
            }
        }
    }
    lemma_same_disk(end, before);
}

/// Ending a phase touches no file.
proof fn lemma_settled(batch: BatchModel)
    ensures
        batch.settled().writes == batch.writes,
        batch.settled().deletes == batch.deletes,
        batch.settled().staged == batch.staged,
        batch.settled().backups == batch.backups,
    decreases batch.phases_left(),
{
    if batch.phase != BatchPhase::Committed && batch.index >= batch.steps() {
        lemma_settled(BatchModel { phase: batch.next_phase(), index: 0, ..batch });
    }
}

/// Ending a phase frees no place and takes none.
proof fn lemma_settled_cleared(batch: BatchModel, now: Disk)
    requires
        cleared(batch, now),
    ensures
        cleared(batch.settled(), now),
    decreases batch.phases_left(),
{
    if batch.phase != BatchPhase::Committed && batch.index >= batch.steps() {
        let next = BatchModel { phase: batch.next_phase(), index: 0, ..batch };
        assert forall|i: int|
            0 <= i < places_freed(next) && i < next.writes.len() && !is_installed(
                next,
                #[trigger] next.writes[i],
            ) implies content(now, next.writes[i]) is None by {
            if is_installed(batch, batch.writes[i]) {
                let k = choose|k: int|
                    0 <= k < batch.staged.len() && (#[trigger] batch.staged[k]).installed
                        && batch.staged[k].target == batch.writes[i];
                assert(next.staged[k].installed);
                assert(is_installed(next, next.writes[i]));
            }
            assert(!is_installed(batch, batch.writes[i]));
        }
        assert forall|k: int|
            0 <= k < deletes_done(next) && k < next.deletes.len() implies content(
            now,
            #[trigger] next.deletes[k],
        ) is None by {
            assert(content(now, batch.deletes[k]) is None);
        }
        lemma_settled_cleared(next, now);
    }
}

proof fn lemma_explains_same(
    a: BatchModel,
    b: BatchModel,
    contents: Seq<Seq<u8>>,
    before: Disk,
    now: Disk,
)
    requires
        explains(a, contents, before, now),
        a.writes == b.writes,
        a.deletes == b.deletes,
        a.staged == b.staged,
        a.backups == b.backups,
        cleared(b, now),
    ensures
        explains(b, contents, before, now),
{
    assert forall|p: Seq<char>| #[trigger] is_made_up(b, p) implies !before.dom().contains(p)
        && !is_target(b, p) by {
        assert(is_made_up(a, p));
    }
    assert forall|j: int| 0 <= j < b.backups.len() implies is_target(
        b,
        (#[trigger] b.backups[j]).target,
    ) && before.dom().contains(b.backups[j].target) by {
        assert(is_target(a, a.backups[j].target));
    }
    assert forall|i: int| 0 <= i < b.staged.len() implies is_target(
        b,
        (#[trigger] b.staged[i]).target,
    ) by {
        assert(is_target(a, a.staged[i].target));
    }
    assert forall|j: int| 0 <= j < b.backups.len() && !is_installed(
        b,
        (#[trigger] b.backups[j]).target,
    ) implies content(now, b.backups[j].target) is None by {
        assert(!is_installed(a, a.backups[j].target));
    }
    assert forall|p: Seq<char>| !is_made_up(b, p) && !is_aside(b, p) && !is_installed(
        b,
        p,
    ) implies #[trigger] content(now, p) == content(before, p) by {
        assert(!is_made_up(a, p) && !is_aside(a, p) && !is_installed(a, p));
    }
    assert forall|i: int| 0 <= i < b.staged.len() && (
    #[trigger] b.staged[i]).installed implies content(now, b.staged[i].target) == Some(contents[i])
        && (is_aside(b, b.staged[i].target) || !before.dom().contains(b.staged[i].target)) by {
        assert(a.staged[i].installed);
        if is_aside(a, a.staged[i].target) {
            assert(is_aside(b, b.staged[i].target));
        }
    }
}

/// A batch that has just begun has changed nothing.
pub proof fn law_batch_begins_with_the_disk(
    writes: Seq<Seq<char>>,
    deletes: Seq<Seq<char>>,
    contents: Seq<Seq<u8>>,
    before: Disk,
)
    requires
        (writes + deletes).no_duplicates(),
        contents.len() == writes.len(),
    ensures
        explains(
            (BatchModel {
                writes,
                deletes,
                staged: Seq::empty(),
                backups: Seq::empty(),
                phase: BatchPhase::Staging,
                index: 0,
            }).settled(),
            contents,
            before,
            before,
        ),
{
    let start = BatchModel {
        writes,
        deletes,
        staged: Seq::empty(),
        backups: Seq::empty(),
        phase: BatchPhase::Staging,
        index: 0,
    };
    assert(explains(start, contents, before, before));
    lemma_settled(start);
    lemma_settled_cleared(start, before);
    lemma_explains_same(start, start.settled(), contents, before, before);
}

/// Writing a content to a new temporary file.
pub proof fn law_staging_is_explained(
    batch: BatchModel,
    contents: Seq<Seq<u8>>,
    before: Disk,
    now: Disk,
    temporary: Seq<char>,
)
    requires
        batch.wf(),
        batch.phase == BatchPhase::Staging,
        explains(batch, contents, before, now),
        !now.dom().contains(temporary),
        !before.dom().contains(temporary),
        !is_target(batch, temporary),
        !is_made_up(batch, temporary),
    ensures
        explains(
            batch.after_stage(temporary),
            contents,
            before,
            now.insert(temporary, contents[batch.index as int]),
        ),
{
    let k = batch.index as int;
    let entry = StagedModel { target: batch.writes[k], temporary, installed: false };
    let next = BatchModel {
        staged: batch.staged.push(entry),
        index: batch.index + 1,
        ..batch
    };
    let after = now.insert(temporary, contents[k]);
    lemma_settled(next);
    let n = batch.staged.len() as int;
    assert(n == k);
    assert(batch.writes + batch.deletes == next.writes + next.deletes);
    assert((batch.writes + batch.deletes)[k] == batch.writes[k]);
    assert(is_target(next, batch.writes[k]));
    assert forall|p: Seq<char>| #[trigger] is_made_up(next, p) implies !before.dom().contains(p)
        && !is_target(next, p) by {
        if p != temporary {
            lemma_made_up_before(batch, next, p);
            assert(is_made_up(batch, p));
        }
    }
    assert forall|i: int, j: int| 0 <= i < next.staged.len() && 0 <= j
        < next.backups.len() implies (#[trigger] next.staged[i]).temporary != (
    #[trigger] next.backups[j]).backup by {
        if i < n {
            assert(next.staged[i] == batch.staged[i]);
        } else {
            if next.backups[j].backup == temporary {
                assert(batch.backups[j].backup == temporary);
                assert(is_made_up(batch, temporary));
            }
        }
    }
    assert forall|i: int, m: int| 0 <= i < m < next.staged.len() implies (
    #[trigger] next.staged[i]).temporary != (#[trigger] next.staged[m]).temporary by {
        assert(next.staged[i] == batch.staged[i]);
        if m == n {
            if batch.staged[i].temporary == temporary {
                assert(is_made_up(batch, temporary));
            }
        } else {
            assert(next.staged[m] == batch.staged[m]);
        }
    }
    assert forall|i: int, m: int| 0 <= i < m < next.staged.len() implies (
    #[trigger] next.staged[i]).target != (#[trigger] next.staged[m]).target by {
        assert(next.staged[i] == batch.staged[i]);
        if m == n {
            let all = batch.writes + batch.deletes;
            assert(batch.staged[i].target == batch.writes[i]);
            assert(all[i] == batch.writes[i] && all[k] == batch.writes[k]);
            assert(all[i] != all[k]);
        } else {
            assert(next.staged[m] == batch.staged[m]);
        }
    }
    assert forall|i: int| 0 <= i < next.staged.len() implies is_target(
        next,
        (#[trigger] next.staged[i]).target,
    ) by {
        if i < n {
            assert(next.staged[i] == batch.staged[i]);
            assert(is_target(batch, batch.staged[i].target));
        }
    }
    assert forall|p: Seq<char>| #[trigger] is_installed(next, p) == is_installed(batch, p) by {
        if is_installed(next, p) {
            let i = choose|i: int|
                0 <= i < next.staged.len() && (#[trigger] next.staged[i]).installed
                    && next.staged[i].target == p;
            assert(next.staged[i] == batch.staged[i]);
        }
        if is_installed(batch, p) {
            let i = choose|i: int|
                0 <= i < batch.staged.len() && (#[trigger] batch.staged[i]).installed
                    && batch.staged[i].target == p;
            assert(next.staged[i] == batch.staged[i]);
        }
    }
    assert forall|p: Seq<char>| #[trigger] is_aside(next, p) == is_aside(batch, p) by {
        if is_aside(next, p) {
            let j = choose|j: int|
                0 <= j < next.backups.len() && (#[trigger] next.backups[j]).target == p;
            assert(batch.backups[j].target == p);
        }
        if is_aside(batch, p) {
            let j = choose|j: int|
                0 <= j < batch.backups.len() && (#[trigger] batch.backups[j]).target == p;
            assert(next.backups[j].target == p);
        }
    }
    assert forall|i: int| 0 <= i < next.staged.len() implies content(
        after,
        (#[trigger] next.staged[i]).temporary,
    ) == if next.staged[i].installed {
        None
    } else {
        Some(contents[i])
    } by {
        if i < n {
            assert(next.staged[i] == batch.staged[i]);
            if batch.staged[i].temporary == temporary {
                assert(is_made_up(batch, temporary));
            }
        }
    }
    assert forall|i: int| 0 <= i < next.staged.len() && (
    #[trigger] next.staged[i]).installed implies content(after, next.staged[i].target) == Some(
        contents[i],
    ) && (is_aside(next, next.staged[i].target) || !before.dom().contains(next.staged[i].target)) by {
        assert(next.staged[i] == batch.staged[i]);
        assert(is_target(batch, batch.staged[i].target));
        assert(batch.staged[i].target != temporary);
    }
    assert forall|j: int| 0 <= j < next.backups.len() implies content(
        after,
        (#[trigger] next.backups[j]).backup,
    ) == content(before, next.backups[j].target) by {
        assert(batch.backups[j] == next.backups[j]);
        if batch.backups[j].backup == temporary {
            assert(is_made_up(batch, temporary));
        }
    }
    assert forall|j: int| 0 <= j < next.backups.len() && !is_installed(
        next,
        (#[trigger] next.backups[j]).target,
    ) implies content(after, next.backups[j].target) is None by {
        assert(batch.backups[j] == next.backups[j]);
        assert(is_target(batch, batch.backups[j].target));
        assert(!is_installed(batch, batch.backups[j].target));
    }
    assert forall|p: Seq<char>| !is_made_up(next, p) && !is_aside(next, p) && !is_installed(
        next,
        p,
    ) implies #[trigger] content(after, p) == content(before, p) by {
        assert(p != temporary) by {
            if p == temporary {
                assert(next.staged[n].temporary == p);
            }
        }
        if is_made_up(batch, p) {
            lemma_made_up_after(batch, next, p);
        }
        assert(!is_made_up(batch, p) && !is_aside(batch, p) && !is_installed(batch, p));
        assert(content(now, p) == content(before, p));
    }
    assert(explains(next, contents, before, after));
    lemma_settled_cleared(next, after);
    lemma_explains_same(next, next.settled(), contents, before, after);
}

proof fn lemma_made_up_before(batch: BatchModel, next: BatchModel, p: Seq<char>)
    requires
        is_made_up(next, p),
        batch.staged.len() <= next.staged.len(),
        batch.backups.len() <= next.backups.len(),
        forall|i: int|
            0 <= i < next.staged.len() && (#[trigger] next.staged[i]).temporary == p ==> i
                < batch.staged.len() && batch.staged[i].temporary == p,
        forall|j: int|
            0 <= j < next.backups.len() && (#[trigger] next.backups[j]).backup == p ==> j
                < batch.backups.len() && batch.backups[j].backup == p,
    ensures
        is_made_up(batch, p),
{
    if exists|i: int| 0 <= i < next.staged.len() && (#[trigger] next.staged[i]).temporary == p {
        let i = choose|i: int|
            0 <= i < next.staged.len() && (#[trigger] next.staged[i]).temporary == p;
        assert(batch.staged[i].temporary == p);
    } else {
        let j = choose|j: int|
            0 <= j < next.backups.len() && (#[trigger] next.backups[j]).backup == p;
        assert(batch.backups[j].backup == p);
    }
}

proof fn lemma_made_up_after(batch: BatchModel, next: BatchModel, p: Seq<char>)
    requires
        is_made_up(batch, p),
        batch.staged.len() <= next.staged.len(),
        batch.backups.len() <= next.backups.len(),
        forall|i: int|
            0 <= i < batch.staged.len() ==> (#[trigger] next.staged[i]).temporary
                == batch.staged[i].temporary,
        forall|j: int|
            0 <= j < batch.backups.len() ==> (#[trigger] next.backups[j]).backup
                == batch.backups[j].backup,
    ensures
        is_made_up(next, p),
{
    if exists|i: int| 0 <= i < batch.staged.len() && (#[trigger] batch.staged[i]).temporary == p {
        let i = choose|i: int|
            0 <= i < batch.staged.len() && (#[trigger] batch.staged[i]).temporary == p;
        assert(next.staged[i].temporary == p);
    } else {
        let j = choose|j: int|
            0 <= j < batch.backups.len() && (#[trigger] batch.backups[j]).backup == p;
        assert(next.backups[j].backup == p);
    }
}

/// Setting a file aside under a new name.
pub proof fn law_setting_aside_is_explained(
    batch: BatchModel,
    contents: Seq<Seq<u8>>,
    before: Disk,
    now: Disk,
    backup: Seq<char>,
)
    requires
        batch.wf(),
        batch.phase == BatchPhase::SettingAside || batch.phase == BatchPhase::Replacing,
        explains(batch, contents, before, now),
        now.dom().contains(batch.aside()),
        !now.dom().contains(backup),
        !before.dom().contains(backup),
        !is_target(batch, backup),
        !is_made_up(batch, backup),
    ensures
        explains(
            batch.after_move(Some(backup)),
            contents,
            before,
            moved(now, batch.aside(), backup),
        ),
{
    let t = batch.aside();
    let next = BatchModel {
        backups: batch.backups.push(BackupModel { target: t, backup }),
        index: batch.index + 1,
        ..batch
    };
    let after = moved(now, t, backup);
    lemma_settled(next);
    let n = batch.backups.len() as int;
    let all = batch.writes + batch.deletes;
    assert(is_target(batch, t)) by {
        if batch.phase == BatchPhase::SettingAside {
            assert(all[batch.writes.len() + batch.index as int] == t);
        } else {
            assert(all[batch.index as int] == t);
        }
    }
    assert(next.writes + next.deletes == all);
    assert forall|p: Seq<char>| !#[trigger] is_installed(batch, p) by {
        if is_installed(batch, p) {
            let i = choose|i: int|
                0 <= i < batch.staged.len() && (#[trigger] batch.staged[i]).installed
                    && batch.staged[i].target == p;
            assert(!batch.staged[i].installed);
        }
    }
    assert forall|p: Seq<char>| !#[trigger] is_installed(next, p) by {
        if is_installed(next, p) {
            let i = choose|i: int|
                0 <= i < next.staged.len() && (#[trigger] next.staged[i]).installed
                    && next.staged[i].target == p;
            assert(batch.staged[i].installed && batch.staged[i].target == p);
            assert(is_installed(batch, p));
        }
    }
    assert(!is_aside(batch, t)) by {
        if is_aside(batch, t) {
            let j = choose|j: int|
                0 <= j < batch.backups.len() && (#[trigger] batch.backups[j]).target == t;
            assert(!is_installed(batch, batch.backups[j].target));
            assert(content(now, t) is None);
        }
    }
    assert(!is_made_up(batch, t));
    assert(!is_installed(batch, t));
    assert(content(now, t) == content(before, t));
    assert(t != backup);
    assert forall|j: int| 0 <= j < n implies (#[trigger] batch.backups[j]).target != t by {
        if batch.backups[j].target == t {
            assert(is_aside(batch, t));
        }
    }
    assert forall|p: Seq<char>| #[trigger] is_made_up(next, p) implies !before.dom().contains(p)
        && !is_target(next, p) by {
        if p != backup {
            lemma_made_up_before(batch, next, p);
            assert(is_made_up(batch, p));
        }
    }
    assert forall|i: int| 0 <= i < batch.staged.len() implies (
    #[trigger] batch.staged[i]).temporary != backup && batch.staged[i].temporary != t by {
        assert(is_made_up(batch, batch.staged[i].temporary));
        if batch.staged[i].temporary == backup {
            assert(is_made_up(batch, backup));
        }
    }
    assert forall|j: int| 0 <= j < n implies (#[trigger] batch.backups[j]).backup != backup
        && batch.backups[j].backup != t by {
        assert(is_made_up(batch, batch.backups[j].backup));
        if batch.backups[j].backup == backup {
            assert(is_made_up(batch, backup));
        }
    }
    assert forall|i: int, m: int| 0 <= i < m < next.backups.len() implies (
    #[trigger] next.backups[i]).backup != (#[trigger] next.backups[m]).backup by {
        assert(next.backups[i] == batch.backups[i]);
        if m < n {
            assert(next.backups[m] == batch.backups[m]);
        }
    }
    assert forall|i: int, m: int| 0 <= i < m < next.backups.len() implies (
    #[trigger] next.backups[i]).target != (#[trigger] next.backups[m]).target by {
        assert(next.backups[i] == batch.backups[i]);
        if m < n {
            assert(next.backups[m] == batch.backups[m]);
        }
    }
    assert forall|i: int, j: int| 0 <= i < next.staged.len() && 0 <= j
        < next.backups.len() implies (#[trigger] next.staged[i]).temporary != (
    #[trigger] next.backups[j]).backup by {
        assert(next.staged[i] == batch.staged[i]);
        if j < n {
            assert(next.backups[j] == batch.backups[j]);
        }
    }
    assert forall|j: int| 0 <= j < next.backups.len() implies is_target(
        next,
        (#[trigger] next.backups[j]).target,
    ) && before.dom().contains(next.backups[j].target) by {
        if j < n {
            assert(next.backups[j] == batch.backups[j]);
            assert(is_target(batch, batch.backups[j].target));
        } else {
            assert(is_target(next, t));
        }
    }
    assert forall|i: int| 0 <= i < next.staged.len() implies is_target(
        next,
        (#[trigger] next.staged[i]).target,
    ) by {
        assert(next.staged[i] == batch.staged[i]);
        assert(is_target(batch, batch.staged[i].target));
    }
    assert forall|i: int| 0 <= i < next.staged.len() implies content(
        after,
        (#[trigger] next.staged[i]).temporary,
    ) == if next.staged[i].installed {
        None
    } else {
        Some(contents[i])
    } by {
        assert(next.staged[i] == batch.staged[i]);
        assert(content(now, batch.staged[i].temporary) == Some(contents[i]));
    }
    assert forall|j: int| 0 <= j < next.backups.len() implies content(
        after,
        (#[trigger] next.backups[j]).backup,
    ) == content(before, next.backups[j].target) by {
        if j < n {
            assert(next.backups[j] == batch.backups[j]);
            assert(content(now, batch.backups[j].backup) == content(
                before,
                batch.backups[j].target,
            ));
        }
    }
    assert forall|j: int| 0 <= j < next.backups.len() && !is_installed(
        next,
        (#[trigger] next.backups[j]).target,
    ) implies content(after, next.backups[j].target) is None by {
        if j < n {
            assert(next.backups[j] == batch.backups[j]);
            assert(!is_installed(batch, batch.backups[j].target));
            assert(content(now, batch.backups[j].target) is None);
            assert(is_target(batch, batch.backups[j].target));
            assert(batch.backups[j].target != backup);
        }
    }
    assert forall|p: Seq<char>| !is_made_up(next, p) && !is_aside(next, p) && !is_installed(
        next,
        p,
    ) implies #[trigger] content(after, p) == content(before, p) by {
        assert(p != backup) by {
            if p == backup {
                assert(next.backups[n].backup == p);
            }
        }
        assert(p != t) by {
            if p == t {
                assert(next.backups[n].target == p);
            }
        }
        if is_made_up(batch, p) {
            lemma_made_up_after(batch, next, p);
        }
        if is_aside(batch, p) {
            let j = choose|j: int|
                0 <= j < batch.backups.len() && (#[trigger] batch.backups[j]).target == p;
            assert(next.backups[j].target == p);
        }
        assert(!is_installed(batch, p));
        assert(content(now, p) == content(before, p));
    }
    assert forall|k: int|
        0 <= k < deletes_done(next) && k < next.deletes.len() implies content(
        after,
        #[trigger] next.deletes[k],
    ) is None by {
        assert(all[batch.writes.len() + k] == batch.deletes[k]);
        assert(is_target(batch, batch.deletes[k]));
        assert(batch.deletes[k] != backup);
        if batch.deletes[k] != t {
            assert(content(now, batch.deletes[k]) is None);
        }
    }
    assert forall|i: int|
        0 <= i < places_freed(next) && i < next.writes.len() && !is_installed(
            next,
            #[trigger] next.writes[i],
        ) implies content(after, next.writes[i]) is None by {
        assert(all[i] == batch.writes[i]);
        assert(is_target(batch, batch.writes[i]));
        assert(batch.writes[i] != backup);
        assert(!is_installed(batch, batch.writes[i]));
        if batch.writes[i] != t {
            assert(content(now, batch.writes[i]) is None);
        }
    }
    assert(explains(next, contents, before, after));
    lemma_settled_cleared(next, after);
    lemma_explains_same(next, next.settled(), contents, before, after);
}

/// Going on where a file that would be set aside is not there.
pub proof fn law_missing_file_is_explained(
    batch: BatchModel,
    contents: Seq<Seq<u8>>,
    before: Disk,
    now: Disk,
)
    requires
        batch.wf(),
        batch.phase == BatchPhase::SettingAside || batch.phase == BatchPhase::Replacing,
        explains(batch, contents, before, now),
        !now.dom().contains(batch.aside()),
    ensures
        explains(batch.after_move(None), contents, before, now),
{
    let next = BatchModel { index: batch.index + 1, ..batch };
    lemma_settled(next);
    assert forall|k: int|
        0 <= k < deletes_done(next) && k < next.deletes.len() implies content(
        now,
        #[trigger] next.deletes[k],
    ) is None by {
        if batch.deletes[k] != batch.aside() {
            assert(content(now, batch.deletes[k]) is None);
        }
    }
    assert forall|i: int|
        0 <= i < places_freed(next) && i < next.writes.len() && !is_installed(
            next,
            #[trigger] next.writes[i],
        ) implies content(now, next.writes[i]) is None by {
        if is_installed(batch, batch.writes[i]) {
            let k = choose|k: int|
                0 <= k < batch.staged.len() && (#[trigger] batch.staged[k]).installed
                    && batch.staged[k].target == batch.writes[i];
            assert(next.staged[k].installed);
            assert(is_installed(next, next.writes[i]));
        }
        if batch.writes[i] != batch.aside() {
            assert(content(now, batch.writes[i]) is None);
        }
    }
    lemma_settled_cleared(next, now);
    lemma_explains_same(batch, next.settled(), contents, before, now);
}

/// Putting a temporary file in its place, which was freed before.
pub proof fn law_installing_is_explained(
    batch: BatchModel,
    contents: Seq<Seq<u8>>,
    before: Disk,
    now: Disk,
)
    requires
        batch.wf(),
        batch.phase == BatchPhase::Installing,
        explains(batch, contents, before, now),
    ensures
        ({
            let entry = batch.staged[batch.index as int];
            explains(
                batch.after_install(),
                contents,
                before,
                moved(now, entry.temporary, entry.target),
            )
        }),
{
    let k = batch.index as int;
    let entry = batch.staged[k];
    let t = entry.target;
    let temp = entry.temporary;
    let next = BatchModel {
        staged: batch.staged.update(k, StagedModel { installed: true, ..entry }),
        index: batch.index + 1,
        ..batch
    };
    let after = moved(now, temp, t);
    lemma_settled(next);
    assert(!entry.installed);
    assert(is_target(batch, t));
    assert(is_made_up(batch, temp));
    assert(temp != t);
    assert(content(now, temp) == Some(contents[k]));
    assert(next.writes + next.deletes == batch.writes + batch.deletes);
    assert forall|i: int| 0 <= i < next.staged.len() implies (#[trigger] next.staged[i]).temporary
        == batch.staged[i].temporary && next.staged[i].target == batch.staged[i].target by {}
    assert forall|p: Seq<char>| #[trigger] is_made_up(next, p) == is_made_up(batch, p) by {
        if is_made_up(next, p) {
            lemma_made_up_before(batch, next, p);
        }
        if is_made_up(batch, p) {
            lemma_made_up_after(batch, next, p);
        }
    }
    assert forall|p: Seq<char>| #[trigger] is_aside(next, p) == is_aside(batch, p) by {
        if is_aside(next, p) {
            let j = choose|j: int|
                0 <= j < next.backups.len() && (#[trigger] next.backups[j]).target == p;
            assert(batch.backups[j].target == p);
        }
        if is_aside(batch, p) {
            let j = choose|j: int|
                0 <= j < batch.backups.len() && (#[trigger] batch.backups[j]).target == p;
            assert(next.backups[j].target == p);
        }
    }
    assert forall|i: int| 0 <= i < batch.staged.len() && i != k implies (
    #[trigger] batch.staged[i]).target != t && batch.staged[i].temporary != temp by {
        if i < k {
            assert(batch.staged[i].target != batch.staged[k].target);
        } else {
            assert(batch.staged[k].target != batch.staged[i].target);
        }
    }
    assert(!is_installed(batch, t)) by {
        if is_installed(batch, t) {
            let i = choose|i: int|
                0 <= i < batch.staged.len() && (#[trigger] batch.staged[i]).installed
                    && batch.staged[i].target == t;
            assert(i != k);
        }
    }
    assert(content(now, t) is None) by {
        assert(batch.writes[k] == t);
    }
    assert(is_aside(batch, t) || !before.dom().contains(t)) by {
        if !is_aside(batch, t) {
            assert(!is_made_up(batch, t));
            assert(content(now, t) == content(before, t));
        }
    }
    assert forall|p: Seq<char>| #[trigger] is_installed(next, p) == (is_installed(batch, p) || p
        == t) by {
        if is_installed(next, p) {
            let i = choose|i: int|
                0 <= i < next.staged.len() && (#[trigger] next.staged[i]).installed
                    && next.staged[i].target == p;
            if i != k {
                assert(batch.staged[i].installed && batch.staged[i].target == p);
            }
        }
        if is_installed(batch, p) {
            let i = choose|i: int|
                0 <= i < batch.staged.len() && (#[trigger] batch.staged[i]).installed
                    && batch.staged[i].target == p;
            assert(next.staged[i].installed && next.staged[i].target == p);
        }
        if p == t {
            assert(next.staged[k].installed && next.staged[k].target == p);
        }
    }
    assert forall|i: int, m: int| 0 <= i < m < next.staged.len() implies (
    #[trigger] next.staged[i]).temporary != (#[trigger] next.staged[m]).temporary by {
        assert(batch.staged[i].temporary != batch.staged[m].temporary);
    }
    assert forall|i: int, m: int| 0 <= i < m < next.staged.len() implies (
    #[trigger] next.staged[i]).target != (#[trigger] next.staged[m]).target by {
        assert(batch.staged[i].target != batch.staged[m].target);
    }
    assert forall|i: int, j: int| 0 <= i < next.staged.len() && 0 <= j
        < next.backups.len() implies (#[trigger] next.staged[i]).temporary != (
    #[trigger] next.backups[j]).backup by {
        assert(batch.staged[i].temporary != batch.backups[j].backup);
    }
    assert forall|p: Seq<char>| #[trigger] is_made_up(next, p) implies !before.dom().contains(p)
        && !is_target(next, p) by {
        assert(is_made_up(batch, p));
        assert(!is_target(batch, p));
    }
    assert forall|j: int| 0 <= j < next.backups.len() implies is_target(
        next,
        (#[trigger] next.backups[j]).target,
    ) && before.dom().contains(next.backups[j].target) by {
        assert(is_target(batch, batch.backups[j].target));
    }
    assert forall|i: int| 0 <= i < next.staged.len() implies is_target(
        next,
        (#[trigger] next.staged[i]).target,
    ) by {
        assert(is_target(batch, batch.staged[i].target));
    }
    assert forall|i: int| 0 <= i < next.staged.len() implies content(
        after,
        (#[trigger] next.staged[i]).temporary,
    ) == if next.staged[i].installed {
        None
    } else {
        Some(contents[i])
    } by {
        assert(is_made_up(batch, batch.staged[i].temporary));
        assert(batch.staged[i].temporary != t);
        if i != k {
            assert(next.staged[i] == batch.staged[i]);
        }
    }
    assert forall|i: int| 0 <= i < next.staged.len() && (
    #[trigger] next.staged[i]).installed implies content(after, next.staged[i].target) == Some(
        contents[i],
    ) && (is_aside(next, next.staged[i].target) || !before.dom().contains(next.staged[i].target)) by {
        if i != k {
            assert(next.staged[i] == batch.staged[i]);
            assert(is_target(batch, batch.staged[i].target));
            assert(batch.staged[i].target != temp);
        }
    }
    assert forall|j: int| 0 <= j < next.backups.len() implies content(
        after,
        (#[trigger] next.backups[j]).backup,
    ) == content(before, next.backups[j].target) by {
        assert(is_made_up(batch, batch.backups[j].backup));
        assert(batch.backups[j].backup != t);
        assert(batch.staged[k].temporary != batch.backups[j].backup);
    }
    assert forall|j: int| 0 <= j < next.backups.len() && !is_installed(
        next,
        (#[trigger] next.backups[j]).target,
    ) implies content(after, next.backups[j].target) is None by {
        assert(!is_installed(batch, batch.backups[j].target));
        assert(is_target(batch, batch.backups[j].target));
        assert(batch.backups[j].target != t);
    }
    assert forall|p: Seq<char>| !is_made_up(next, p) && !is_aside(next, p) && !is_installed(
        next,
        p,
    ) implies #[trigger] content(after, p) == content(before, p) by {
        assert(!is_made_up(batch, p) && !is_aside(batch, p) && !is_installed(batch, p) && p != t);
        assert(p != temp);
        assert(content(now, p) == content(before, p));
    }
    let all = batch.writes + batch.deletes;
    assert forall|d: int|
        0 <= d < deletes_done(next) && d < next.deletes.len() implies content(
        after,
        #[trigger] next.deletes[d],
    ) is None by {
        assert(all[batch.writes.len() + d] == batch.deletes[d]);
        assert(all[k] == t);
        assert(all[batch.writes.len() + d] != all[k]);
        assert(content(now, batch.deletes[d]) is None);
    }
    assert forall|i: int|
        0 <= i < places_freed(next) && i < next.writes.len() && !is_installed(
            next,
            #[trigger] next.writes[i],
        ) implies content(after, next.writes[i]) is None by {
        assert(!is_installed(batch, batch.writes[i]) && batch.writes[i] != t);
        assert(content(now, batch.writes[i]) is None);
    }
    assert(explains(next, contents, before, after));
    lemma_settled_cleared(next, after);
    lemma_explains_same(next, next.settled(), contents, before, after);
}

proof fn lemma_cleaned(disk: Disk, backups: Seq<BackupModel>, path: Seq<char>)
    ensures
        content(cleaned(disk, backups), path) == if exists|j: int|
            0 <= j < backups.len() && (#[trigger] backups[j]).backup == path {
            None
        } else {
            content(disk, path)
        },
    decreases backups.len(),
{
    if backups.len() > 0 {
        let head = backups.drop_last();
        lemma_cleaned(disk.remove(backups.last().backup), head, path);
        if exists|j: int| 0 <= j < backups.len() && (#[trigger] backups[j]).backup == path {
            let j = choose|j: int| 0 <= j < backups.len() && (#[trigger] backups[j]).backup == path;
            if j < head.len() {
                assert(head[j].backup == path);
            }
        }
        if exists|j: int| 0 <= j < head.len() && (#[trigger] head[j]).backup == path {
            let j = choose|j: int| 0 <= j < head.len() && (#[trigger] head[j]).backup == path;
            assert(backups[j].backup == path);
        }
        if backups.last().backup == path {
            assert(backups[backups.len() - 1].backup == path);
        }
    }
}

/// A batch that was carried out to its end leaves each written file with its new content, no
/// deleted file, and every other file as it was.
pub proof fn law_committed_batch_is_complete(
    batch: BatchModel,
    contents: Seq<Seq<u8>>,
    before: Disk,
    now: Disk,
    path: Seq<char>,
)
    requires
        batch.wf(),
        batch.phase == BatchPhase::Committed,
        explains(batch, contents, before, now),
    ensures
        forall|i: int|
            0 <= i < batch.writes.len() && path == #[trigger] batch.writes[i] ==> content(
                cleaned(now, batch.backups),
                path,
            ) == Some(contents[i]),
        batch.deletes.contains(path) ==> content(cleaned(now, batch.backups), path) is None,
        !is_target(batch, path) ==> content(cleaned(now, batch.backups), path) == content(
            before,
            path,
        ),
{
    lemma_cleaned(now, batch.backups, path);
    if is_target(batch, path) && exists|j: int|
        0 <= j < batch.backups.len() && (#[trigger] batch.backups[j]).backup == path {
        let j = choose|j: int|
            0 <= j < batch.backups.len() && (#[trigger] batch.backups[j]).backup == path;
        assert(is_made_up(batch, path));
    }
    assert forall|i: int| 0 <= i < batch.writes.len() && path == #[trigger] batch.writes[i] implies content(
        cleaned(now, batch.backups),
        path,
    ) == Some(contents[i]) by {
        assert((batch.writes + batch.deletes)[i] == path);
        assert(is_target(batch, path));
        assert(batch.staged[i].installed && batch.staged[i].target == path);
    }
    if batch.deletes.contains(path) {
        let k = choose|k: int| 0 <= k < batch.deletes.len() && batch.deletes[k] == path;
        assert(content(now, batch.deletes[k]) is None);
    }
    if !is_target(batch, path) {
        assert(!is_aside(batch, path)) by {
            if is_aside(batch, path) {
                let j = choose|j: int|
                    0 <= j < batch.backups.len() && (#[trigger] batch.backups[j]).target == path;
                assert(is_target(batch, batch.backups[j].target));
            }
        }
        assert(!is_installed(batch, path)) by {
            if is_installed(batch, path) {
                let i = choose|i: int|
                    0 <= i < batch.staged.len() && (#[trigger] batch.staged[i]).installed
                        && batch.staged[i].target == path;
                assert(is_target(batch, batch.staged[i].target));
            }
        }
        if is_made_up(batch, path) {
            assert(!before.dom().contains(path));
            if !(exists|j: int|
                0 <= j < batch.backups.len() && (#[trigger] batch.backups[j]).backup == path) {
                let i = choose|i: int|
                    0 <= i < batch.staged.len() && (#[trigger] batch.staged[i]).temporary == path;
                assert(batch.staged[i].installed);
                assert(content(now, path) is None);
            }
        } else {
            assert(content(now, path) == content(before, path));
            assert(!(exists|j: int|
                0 <= j < batch.backups.len() && (#[trigger] batch.backups[j]).backup == path));
        }
    }
}

} // verus!
