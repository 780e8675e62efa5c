//! Plans: the steps that a task is worked off in.

use vstd::prelude::*;

use crate::deep::{copy_all, deep, group_deep};

verus! {

broadcast use group_deep;

/// How far a step is.
#[derive(Debug, Clone, Copy, PartialEq, Eq, Structural)]
pub enum PlanStepStatus {
    NotStarted,
    InProgress,
    Completed,
    Blocked,
}

/// How a status is written.
pub open spec fn status_text(status: PlanStepStatus) -> Seq<char> {
    match status {
        PlanStepStatus::NotStarted => "not_started"@,
        PlanStepStatus::InProgress => "in_progress"@,
        PlanStepStatus::Completed => "completed"@,
        PlanStepStatus::Blocked => "blocked"@,
    }
}

impl PlanStepStatus {
    /// How the status is written.
    pub fn as_str(self) -> (r: &'static str)
        ensures
            r@ == status_text(self),
    {
        match self {
            PlanStepStatus::NotStarted => "not_started",
            PlanStepStatus::InProgress => "in_progress",
            PlanStepStatus::Completed => "completed",
            PlanStepStatus::Blocked => "blocked",
        }
    }
}

/// A step of a plan.
#[derive(Debug, PartialEq, Eq)]
pub struct AgentPlanStep {
    pub id: String,
    pub title: String,
    pub description: String,
    pub status: PlanStepStatus,
    pub notes: String,
}

pub struct StepModel {
    pub id: Seq<char>,
    pub title: Seq<char>,
    pub description: Seq<char>,
    pub status: PlanStepStatus,
    pub notes: Seq<char>,
}

impl DeepView for AgentPlanStep {
    type V = StepModel;

    open spec fn deep_view(&self) -> StepModel {
        StepModel {
            id: self.id@,
            title: self.title@,
            description: self.description@,
            status: self.status,
            notes: self.notes@,
        }
    }
}

impl Clone for AgentPlanStep {
    fn clone(&self) -> (r: Self)
        ensures
            r.deep_view() == self.deep_view(),
    {
        AgentPlanStep {
            id: self.id.clone(),
            title: self.title.clone(),
            description: self.description.clone(),
            status: self.status,
            notes: self.notes.clone(),
        }
    }
}

impl AgentPlanStep {
    /// The step with another status and other notes.
    pub fn marked(&self, status: PlanStepStatus, notes: String) -> (r: Self)
        ensures
            r.deep_view() == (StepModel { status, notes: notes@, ..self.deep_view() }),
    {
        AgentPlanStep {
            id: self.id.clone(),
            title: self.title.clone(),
            description: self.description.clone(),
            status,
            notes,
        }
    }
}

/// The steps that a task is worked off in.
#[derive(Debug, PartialEq, Eq)]
pub struct AgentPlan {
    pub id: String,
    pub title: String,
    pub steps: Vec<AgentPlanStep>,
    pub created_at: i64,
    pub updated_at: i64,
}

pub struct PlanModel {
    pub id: Seq<char>,
    pub title: Seq<char>,
    pub steps: Seq<StepModel>,
    pub created_at: i64,
    pub updated_at: i64,
}

impl DeepView for AgentPlan {
    type V = PlanModel;

    open spec fn deep_view(&self) -> PlanModel {
        PlanModel {
            id: self.id@,
            title: self.title@,
            steps: deep(self.steps@),
            created_at: self.created_at,
            updated_at: self.updated_at,
        }
    }
}

impl Clone for AgentPlan {
    fn clone(&self) -> (r: Self)
        ensures
            r.deep_view() == self.deep_view(),
    {
        AgentPlan {
            id: self.id.clone(),
            title: self.title.clone(),
            steps: copy_all(&self.steps),
            created_at: self.created_at,
            updated_at: self.updated_at,
        }
    }
}

/// Whether a step still has to be worked on.
pub open spec fn is_pending(step: StepModel) -> bool {
    step.status == PlanStepStatus::NotStarted || step.status == PlanStepStatus::InProgress
}

/// The place of the first step that still has to be worked on; the count of the steps where there
/// is none.
pub open spec fn first_pending(steps: Seq<StepModel>) -> int
    decreases steps.len(),
{
    if steps.len() == 0 || is_pending(steps.first()) {
        0
    } else {
        1 + first_pending(steps.drop_first())
    }
}

/// How many steps still have to be worked on.
pub open spec fn pending_count(steps: Seq<StepModel>) -> nat
    decreases steps.len(),
{
    if steps.len() == 0 {
        0
    } else {
        pending_count(steps.drop_last()) + (if is_pending(steps.last()) {
            1nat
        } else {
            0nat
        })
    }
}

/// How many steps are completed.
pub open spec fn completed_count(steps: Seq<StepModel>) -> nat
    decreases steps.len(),
{
    if steps.len() == 0 {
        0
    } else {
        completed_count(steps.drop_last()) + (if steps.last().status
            == PlanStepStatus::Completed {
            1nat
        } else {
            0nat
        })
    }
}

pub proof fn lemma_first_pending(steps: Seq<StepModel>)
    ensures
        0 <= first_pending(steps) <= steps.len(),
        first_pending(steps) < steps.len() ==> is_pending(steps[first_pending(steps)]),
        forall|k: int| 0 <= k < first_pending(steps) ==> !is_pending(#[trigger] steps[k]),
    decreases steps.len(),
{
    if steps.len() > 0 && !is_pending(steps.first()) {
        lemma_first_pending(steps.drop_first());
        let n = first_pending(steps.drop_first());
        assert forall|k: int| 0 <= k < n + 1 implies !is_pending(#[trigger] steps[k]) by {
            if k > 0 {
                assert(steps.drop_first()[k - 1] == steps[k]);
            }
        }
    }
}

/// The place of the first step that still has to be worked on.
pub fn find_pending(steps: &Vec<AgentPlanStep>) -> (r: usize)
    ensures
        r == first_pending(deep(steps@)),
        r <= steps@.len(),
{
    let ghost models = deep(steps@);
    let mut i: usize = 0;
    proof {
        assert(models.skip(0) =~= models);
    }
    while i < steps.len() && steps[i].status != PlanStepStatus::NotStarted && steps[i].status
        != PlanStepStatus::InProgress
        invariant
            models == deep(steps@),
            i <= steps@.len(),
            first_pending(models) == i + first_pending(models.skip(i as int)),
        decreases steps@.len() - i,
    {
        proof {
            assert(models.skip(i as int).first() == steps@[i as int].deep_view());
            assert(models.skip(i as int).drop_first() =~= models.skip(i + 1));
        }
        i += 1;
    }
    proof {
        if i < steps@.len() {
            assert(models.skip(i as int).first() == steps@[i as int].deep_view());
        }
    }
    i
}

/// How many steps are completed.
pub fn count_completed(steps: &Vec<AgentPlanStep>) -> (r: usize)
    ensures
        r == completed_count(deep(steps@)),
{
    let ghost models = deep(steps@);
    let n = steps.len();
    let mut count: usize = 0;
    let mut i: usize = 0;
    proof {
        assert(models.take(0) =~= Seq::<StepModel>::empty());
    }
    while i < n
        invariant
            models == deep(steps@),
            n == steps@.len(),
            i <= n,
            count <= i,
            count == completed_count(models.take(i as int)),
        decreases n - i,
    {
        proof {
            assert(models.take(i + 1).drop_last() =~= models.take(i as int));
            assert(models.take(i + 1).last() == steps@[i as int].deep_view());
        }
        if steps[i].status == PlanStepStatus::Completed {
            count += 1;
        }
        i += 1;
    }
    proof {
        assert(models.take(models.len() as int) =~= models);
    }
    count
}

/// What changes in the counts when one step changes.
pub proof fn lemma_counts_of_update(steps: Seq<StepModel>, i: int, step: StepModel)
    requires
        0 <= i < steps.len(),
    ensures
        pending_count(steps.update(i, step)) + (if is_pending(steps[i]) {
            1nat
        } else {
            0nat
        }) == pending_count(steps) + (if is_pending(step) {
            1nat
        } else {
            0nat
        }),
        completed_count(steps.update(i, step)) + (if steps[i].status
            == PlanStepStatus::Completed {
            1nat
        } else {
            0nat
        }) == completed_count(steps) + (if step.status == PlanStepStatus::Completed {
            1nat
        } else {
            0nat
        }),
    decreases steps.len(),
{
    let new = steps.update(i, step);
    if i < steps.len() - 1 {
        lemma_counts_of_update(steps.drop_last(), i, step);
        assert(new.drop_last() =~= steps.drop_last().update(i, step));
        assert(new.last() == steps.last());
    } else {
        assert(new.drop_last() =~= steps.drop_last());
        assert(new.last() == step);
        assert(steps.last() == steps[i]);
    }
}

} // verus!
