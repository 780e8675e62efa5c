//! What happens to the tasks when the application starts.

use vstd::prelude::*;

use crate::deep::{deep, group_deep};
use crate::tasks::records::{AgentStatus, SummaryModel, Task, TaskModel, TaskSummary};
use crate::tasks::repair::{
    interrupt_task, is_repaired_task, law_repaired_tasks_can_go_on, repair_task, was_at_work,
};
use crate::tasks::task::{
    insert_summary, inserted_summary, summary_of, task_summary, with_status,
};

verus! {

broadcast use group_deep;

/// The task that was at work is ended; any other stays as it is.
pub open spec fn interrupted(t: TaskModel, at: i64) -> TaskModel {
    if was_at_work(t.status) {
        with_status(
            t,
            AgentStatus::Failed,
            Some("The task was interrupted before the app closed."@),
            at,
        )
    } else {
        t
    }
}

/// Whether a task was brought in order and ended where it was at work, and whether anything of it
/// is new.
pub open spec fn is_restored(
    before: TaskModel,
    workspace: Seq<char>,
    at: i64,
    after: TaskModel,
    changed: bool,
) -> bool {
    exists|repaired: TaskModel, repair_changed: bool|
        {
            &&& #[trigger] is_repaired_task(before, workspace, at, repaired, repair_changed)
            &&& after == interrupted(repaired, at)
            &&& changed == (repair_changed || was_at_work(repaired.status))
        }
}

/// Brings a task in order, and ends it where it was at work. Says whether anything is new.
pub fn restore_task(task: &mut Task, workspace: &str, at: i64) -> (r: bool)
    ensures
        is_restored(old(task).deep_view(), workspace@, at, final(task).deep_view(), r),
{
    let ghost before = task.deep_view();
    let repaired = repair_task(task, workspace, at);
    let ghost mid = task.deep_view();
    proof {
        assert(is_repaired_task(before, workspace@, at, mid, repaired));
        assert(mid.status == task.status);
    }
    let stopped = interrupt_task(task, at);
    repaired || stopped
}

/// The identifiers of the tasks that are marked.
pub open spec fn marked_ids(tasks: Seq<TaskModel>, marks: Seq<bool>) -> Seq<Seq<char>>
    decreases tasks.len(),
{
    if tasks.len() == 0 || marks.len() != tasks.len() {
        Seq::empty()
    } else {
        let head = marked_ids(tasks.drop_last(), marks.drop_last());
        if marks.last() {
            head.push(tasks.last().id)
        } else {
            head
        }
    }
}

/// Whether each task was restored, and the marks say of which anything is new.
pub open spec fn are_restored(
    before: Seq<TaskModel>,
    workspaces: Seq<Seq<char>>,
    at: i64,
    after: Seq<TaskModel>,
    marks: Seq<bool>,
) -> bool {
    &&& after.len() == before.len()
    &&& marks.len() == before.len()
    &&& forall|i: int|
        0 <= i < before.len() ==> is_restored(
            #[trigger] before[i],
            workspaces[i],
            at,
            after[i],
            marks[i],
        )
}

/// Restores the tasks, and gives the identifiers of those of which anything is new. Each task has
/// its directory.
pub fn restore_tasks(tasks: &mut Vec<Task>, workspaces: &Vec<String>, at: i64) -> (r: Vec<String>)
    requires
        old(tasks)@.len() == workspaces@.len(),
    ensures
        exists|marks: Seq<bool>|
            #[trigger] are_restored(
                deep(old(tasks)@),
                deep(workspaces@),
                at,
                deep(final(tasks)@),
                marks,
            ) && deep(r@) == marked_ids(deep(old(tasks)@), marks),
{
    let ghost models = deep(tasks@);
    let ghost places = deep(workspaces@);
    let mut restored: Vec<Task> = Vec::new();
    let mut ids: Vec<String> = Vec::new();
    let ghost mut marks: Seq<bool> = Seq::empty();
    let mut i: usize = 0;
    proof {
        assert(models.take(0) =~= Seq::<TaskModel>::empty());
        assert(deep(ids@) =~= Seq::<Seq<char>>::empty());
        assert(models.len() == tasks@.len());
    }
    while i < tasks.len()
        invariant
            models == deep(tasks@),
            places == deep(workspaces@),
            tasks@.len() == workspaces@.len(),
            i <= tasks@.len(),
            restored@.len() == i,
            marks.len() == i,
            forall|k: int|
                0 <= k < i ==> is_restored(
                    #[trigger] models[k],
                    places[k],
                    at,
                    deep(restored@)[k],
                    marks[k],
                ),
            deep(ids@) == marked_ids(models.take(i as int), marks),
        decreases tasks@.len() - i,
    {
        proof {
            assert(models[i as int] == tasks@[i as int].deep_view());
            assert(places[i as int] == workspaces@[i as int]@);
            assert(models.take(i + 1).drop_last() =~= models.take(i as int));
            assert(models.take(i + 1).last() == models[i as int]);
        }
        let mut task = tasks[i].clone();
        let id = task.id.clone();
        let changed = restore_task(&mut task, &workspaces[i], at);
        let ghost before = deep(restored@);
        let ghost earlier = marks;
        restored.push(task);
        if changed {
            ids.push(id);
        }
        proof {
            marks = marks.push(changed);
            assert(marks.drop_last() =~= earlier);
            assert(deep(restored@) == before.push(task.deep_view()));
            assert forall|k: int| 0 <= k < i + 1 implies is_restored(
                #[trigger] models[k],
                places[k],
                at,
                deep(restored@)[k],
                marks[k],
            ) by {
                if k < i {
                    assert(deep(restored@)[k] == before[k]);
                    assert(marks[k] == earlier[k]);
                }
            }
        }
        i += 1;
    }
    proof {
        assert(models.take(models.len() as int) =~= models);
        assert(are_restored(models, places, at, deep(restored@), marks));
    }
    *tasks = restored;
    ids
}

/// No task is at work when the application has started, and what each agent remembers can be sent
/// to a model.
pub proof fn law_nothing_is_at_work_after_a_start(
    before: TaskModel,
    workspace: Seq<char>,
    at: i64,
    after: TaskModel,
    changed: bool,
)
    requires
        is_restored(before, workspace, at, after, changed),
    ensures
        !was_at_work(after.status),
        crate::memory_laws::replayable(after.memory),
{
    let (repaired, repair_changed) = choose|repaired: TaskModel, repair_changed: bool|
        {
            &&& #[trigger] is_repaired_task(before, workspace, at, repaired, repair_changed)
            &&& after == interrupted(repaired, at)
            &&& changed == (repair_changed || was_at_work(repaired.status))
        };
    law_repaired_tasks_can_go_on(before, workspace, at, repaired, repair_changed);
}

// ---- directories ----

/// The summaries of the tasks whose directory is there, the latest first.
pub open spec fn recent(tasks: Seq<TaskModel>, present: Seq<bool>) -> Seq<SummaryModel>
    decreases tasks.len(),
{
    if tasks.len() == 0 || present.len() != tasks.len() {
        Seq::empty()
    } else {
        let head = recent(tasks.drop_last(), present.drop_last());
        if present.last() {
            inserted_summary(head, summary_of(tasks.last()))
        } else {
            head
        }
    }
}

/// The directories in which tasks worked, those of the latest tasks first. `present` says of each
/// task whether its directory is there.
pub fn recent_workspaces(tasks: &Vec<Task>, present: &Vec<bool>) -> (r: Vec<String>)
    requires
        tasks@.len() == present@.len(),
    ensures
        deep(r@) == recent(deep(tasks@), present@).map_values(|s: SummaryModel| s.workspace),
{
    let ghost models = deep(tasks@);
    let mut list: Vec<TaskSummary> = Vec::new();
    let mut i: usize = 0;
    proof {
        assert(models.take(0) =~= Seq::<TaskModel>::empty());
        assert(deep(list@) =~= Seq::<SummaryModel>::empty());
    }
    while i < tasks.len()
        invariant
            models == deep(tasks@),
            tasks@.len() == present@.len(),
            i <= tasks@.len(),
            deep(list@) == recent(models.take(i as int), present@.take(i as int)),
        decreases tasks@.len() - i,
    {
        proof {
            assert(models.take(i + 1).drop_last() =~= models.take(i as int));
            assert(models.take(i + 1).last() == tasks@[i as int].deep_view());
            assert(present@.take(i + 1).drop_last() =~= present@.take(i as int));
            assert(present@.take(i + 1).last() == present@[i as int]);
        }
        if present[i] {
            insert_summary(&mut list, task_summary(&tasks[i]));
        }
        i += 1;
    }
    proof {
        assert(models.take(models.len() as int) =~= models);
        assert(present@.take(present@.len() as int) =~= present@);
    }
    let ghost wanted = deep(list@).map_values(|s: SummaryModel| s.workspace);
    let mut r: Vec<String> = Vec::new();
    let mut k: usize = 0;
    while k < list.len()
        invariant
            wanted == deep(list@).map_values(|s: SummaryModel| s.workspace),
            k <= list@.len(),
            r@.len() == k,
            forall|j: int| 0 <= j < k ==> #[trigger] deep(r@)[j] == wanted[j],
        decreases list@.len() - k,
    {
        let workspace = list[k].workspace.clone();
        let ghost before = deep(r@);
        r.push(workspace);
        proof {
            assert(deep(r@) == before.push(workspace@));
            assert(deep(list@)[k as int] == list@[k as int].deep_view());
        }
        k += 1;
    }
    proof {
        assert(deep(r@) =~= wanted);
    }
    r
}

} // verus!
