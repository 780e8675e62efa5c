//! The projects that tasks work in.

use vstd::prelude::*;

use crate::deep::{deep, group_deep};
use crate::text::same;

verus! {

broadcast use group_deep;

/// A project that was opened.
#[derive(Debug, PartialEq, Eq)]
pub struct ProjectRecord {
    pub directory: String,
    pub created_at: i64,
    pub updated_at: i64,
}

/// What is shown of a project in a list.
#[derive(Debug, PartialEq, Eq)]
pub struct ProjectSummary {
    pub id: String,
    pub directory: String,
    pub name: String,
    pub task_count: usize,
    pub created_at: i64,
    pub updated_at: i64,
}

/// What is shown of a project in a list.
pub struct ProjectModel {
    pub id: Seq<char>,
    pub directory: Seq<char>,
    pub name: Seq<char>,
    pub task_count: nat,
    pub created_at: i64,
    pub updated_at: i64,
}

impl DeepView for ProjectSummary {
    type V = ProjectModel;

    open spec fn deep_view(&self) -> ProjectModel {
        ProjectModel {
            id: self.id@,
            directory: self.directory@,
            name: self.name@,
            task_count: self.task_count as nat,
            created_at: self.created_at,
            updated_at: self.updated_at,
        }
    }
}

/// A project that was opened, with the key and the name of its directory.
#[derive(Debug, PartialEq, Eq)]
pub struct KeyedProject {
    pub key: String,
    pub name: String,
    pub record: ProjectRecord,
}

/// How many of the keys are the key.
pub open spec fn times(keys: Seq<Seq<char>>, key: Seq<char>) -> nat
    decreases keys.len(),
{
    if keys.len() == 0 {
        0
    } else {
        times(keys.drop_last(), key) + if keys.last() == key {
            1nat
        } else {
            0nat
        }
    }
}

/// How many tasks work in the directory with the key.
pub fn project_task_count(task_keys: &[String], key: &str) -> (r: usize)
    ensures
        r == times(deep(task_keys@), key@),
        r <= task_keys@.len(),
{
    let ghost models = deep(task_keys@);
    let mut count: usize = 0;
    let mut i: usize = 0;
    proof {
        assert(models.take(0) =~= Seq::<Seq<char>>::empty());
    }
    while i < task_keys.len()
        invariant
            models == deep(task_keys@),
            i <= task_keys@.len(),
            count <= i,
            count == times(models.take(i as int), key@),
        decreases task_keys@.len() - i,
    {
        proof {
            assert(models.take(i + 1).drop_last() =~= models.take(i as int));
            assert(models.take(i + 1).last() == task_keys@[i as int]@);
        }
        if same(&task_keys[i], key) {
            count += 1;
        }
        i += 1;
    }
    proof {
        assert(models.take(models.len() as int) =~= models);
    }
    count
}

/// What is shown of a project. `task_keys` are the keys of the directories of all tasks.
pub open spec fn project_shown(project: KeyedProject, task_keys: Seq<Seq<char>>) -> ProjectModel {
    ProjectModel {
        id: project.key@,
        directory: project.record.directory@,
        name: project.name@,
        task_count: times(task_keys, project.key@),
        created_at: project.record.created_at,
        updated_at: project.record.updated_at,
    }
}

/// What is shown of a project. `task_keys` are the keys of the directories of all tasks.
pub fn project_summary(project: &KeyedProject, task_keys: &[String]) -> (r: ProjectSummary)
    ensures
        r.deep_view() == project_shown(*project, deep(task_keys@)),
{
    ProjectSummary {
        id: project.key.clone(),
        directory: project.record.directory.clone(),
        name: project.name.clone(),
        task_count: project_task_count(task_keys, &project.key),
        created_at: project.record.created_at,
        updated_at: project.record.updated_at,
    }
}

/// What is shown of the projects, in their order.
pub fn project_summaries(projects: &Vec<KeyedProject>, task_keys: &[String]) -> (r: Vec<
    ProjectSummary,
>)
    ensures
        deep(r@) == projects@.map_values(
            |project: KeyedProject| project_shown(project, deep(task_keys@)),
        ),
{
    let mut r: Vec<ProjectSummary> = Vec::new();
    let mut i: usize = 0;
    while i < projects.len()
        invariant
            i <= projects@.len(),
            r@.len() == i,
            forall|k: int|
                0 <= k < i ==> (#[trigger] r@[k]).deep_view() == project_shown(
                    projects@[k],
                    deep(task_keys@),
                ),
        decreases projects@.len() - i,
    {
        r.push(project_summary(&projects[i], task_keys));
        i += 1;
    }
    proof {
        assert(deep(r@) =~= projects@.map_values(
            |project: KeyedProject| project_shown(project, deep(task_keys@)),
        ));
    }
    r
}

/// Finds the project with the key, as it stands in a list after the project was opened.
pub fn opened_project(projects: &Vec<KeyedProject>, key: &str, task_keys: &[String]) -> (r: Result<
    ProjectSummary,
    String,
>)
    ensures
        match r {
            Ok(summary) => exists|i: int|
                {
                    &&& 0 <= i < projects@.len()
                    &&& projects@[i].key@ == key@
                    &&& forall|k: int| 0 <= k < i ==> (#[trigger] projects@[k]).key@ != key@
                    &&& summary.deep_view() == #[trigger] project_shown(
                        projects@[i],
                        deep(task_keys@),
                    )
                },
            Err(error) => {
                &&& error@ == "Project was not recorded after opening."@
                &&& forall|k: int|
                    0 <= k < projects@.len() ==> (#[trigger] projects@[k]).key@ != key@
            },
        },
{
    let mut i: usize = 0;
    while i < projects.len()
        invariant
            i <= projects@.len(),
            forall|k: int| 0 <= k < i ==> (#[trigger] projects@[k]).key@ != key@,
        decreases projects@.len() - i,
    {
        if same(&projects[i].key, key) {
            let summary = project_summary(&projects[i], task_keys);
            proof {
                assert(summary.deep_view() == project_shown(projects@[i as int], deep(task_keys@)));
            }
            return Ok(summary);
        }
        i += 1;
    }
    Err("Project was not recorded after opening.".to_owned())
}

/// A task is counted for one project only: the tasks of two projects with different keys are no
/// more than there are.
pub proof fn law_a_task_counts_for_one_project(
    task_keys: Seq<Seq<char>>,
    first: Seq<char>,
    second: Seq<char>,
)
    requires
        first != second,
    ensures
        times(task_keys, first) + times(task_keys, second) <= task_keys.len(),
    decreases task_keys.len(),
{
    if task_keys.len() > 0 {
        law_a_task_counts_for_one_project(task_keys.drop_last(), first, second);
    }
}

} // verus!
