//! Flows: agents that work off a plan step by step.

use vstd::prelude::*;

use crate::agent::AgentKind;
use crate::agents::{spec_of, AgentInstance, AgentSpec, SpecModel};
use crate::deep::{deep, group_deep, one};
use crate::ids::{is_id, new_id, now};
use crate::name_map::{all_entries, names_of, with_entry, NameMap};
use crate::number::{decimal, number_text};
use crate::plan::{
    completed_count, count_completed, find_pending, first_pending, is_pending,
    lemma_counts_of_update, lemma_first_pending, pending_count, AgentPlan, AgentPlanStep,
    PlanModel, PlanStepStatus, StepModel,
};
use crate::table::value_of;
use crate::text::{
    blank, concat2, concat3, concat4, concat5, is_blank, join, joined, noted, take_noted, Text,
};

verus! {

broadcast use group_deep;

/// Why a flow came to an end.
#[derive(Debug, PartialEq, Eq)]
pub enum FlowError {
    NoPrimaryAgent,
    NoExecutor(String),
    Cancelled,
    Agent(String),
    InvalidPlan(String),
}

pub enum FlowFault {
    NoPrimaryAgent,
    NoExecutor(Seq<char>),
    Cancelled,
    Agent(Seq<char>),
    InvalidPlan(Seq<char>),
}

impl DeepView for FlowError {
    type V = FlowFault;

    open spec fn deep_view(&self) -> FlowFault {
        match self {
            FlowError::NoPrimaryAgent => FlowFault::NoPrimaryAgent,
            FlowError::NoExecutor(step) => FlowFault::NoExecutor(step@),
            FlowError::Cancelled => FlowFault::Cancelled,
            FlowError::Agent(error) => FlowFault::Agent(error@),
            FlowError::InvalidPlan(error) => FlowFault::InvalidPlan(error@),
        }
    }
}

impl FlowError {
    /// The error as it is shown.
    pub fn message(&self) -> (r: String)
        ensures
            r@ == match self.deep_view() {
                FlowFault::NoPrimaryAgent => "No primary agent available."@,
                FlowFault::NoExecutor(step) => "No executor available for step: "@ + step,
                FlowFault::Cancelled => "Flow execution cancelled."@,
                FlowFault::Agent(error) => error,
                FlowFault::InvalidPlan(error) => error,
            },
    {
        match self {
            FlowError::NoPrimaryAgent => "No primary agent available.".to_owned(),
            FlowError::NoExecutor(step) => concat2("No executor available for step: ", step),
            FlowError::Cancelled => "Flow execution cancelled.".to_owned(),
            FlowError::Agent(error) => error.clone(),
            FlowError::InvalidPlan(error) => error.clone(),
        }
    }
}

// ---- agents ----

/// The agents of a flow, and which of them is the first choice.
#[derive(Debug, PartialEq, Eq)]
pub struct BaseFlow {
    pub agents: NameMap<AgentSpec>,
    pub primary_agent_key: String,
}

/// The first name; empty where there is none.
pub open spec fn first_name<V>(list: Seq<(Seq<char>, V)>) -> Seq<char> {
    if list.len() > 0 {
        list[0].0
    } else {
        Seq::empty()
    }
}

/// The kinds of agents with their keys.
pub open spec fn keyed(specs: Seq<SpecModel>) -> Seq<(Seq<char>, SpecModel)> {
    specs.map_values(|spec: SpecModel| (spec.key, spec))
}

impl BaseFlow {
    /// What the flow knows of the agent with the key.
    pub open spec fn agent(&self, key: Seq<char>) -> Option<SpecModel> {
        value_of(self.agents.deep_view(), key)
    }

    /// Where two agents have the same key the later one counts. The first choice is the agent
    /// whose key comes first in order.
    pub fn new(agents: Vec<(String, AgentSpec)>) -> (r: Self)
        ensures
            r.agents.deep_view() == all_entries(deep(agents@)),
            r.agents.wf(),
            r.primary_agent_key@ == first_name(r.agents.deep_view()),
    {
        let mut map: NameMap<AgentSpec> = NameMap::new();
        let ghost models = deep(agents@);
        let mut i: usize = 0;
        proof {
            assert(models.take(0) =~= Seq::<(Seq<char>, SpecModel)>::empty());
        }
        while i < agents.len()
            invariant
                models == deep(agents@),
                i <= agents@.len(),
                map.wf(),
                map.deep_view() == all_entries(models.take(i as int)),
            decreases agents@.len() - i,
        {
            proof {
                assert(models.take(i + 1).drop_last() =~= models.take(i as int));
                assert(models.take(i + 1).last() == agents@[i as int].deep_view());
            }
            map.insert(&agents[i].0, agents[i].1.clone());
            i += 1;
        }
        proof {
            assert(models.take(models.len() as int) =~= models);
            assert(map.deep_view().len() == map.entries@.len());
            if map.entries@.len() > 0 {
                assert(map.deep_view()[0] == map.entries@[0].deep_view());
            }
        }
        let primary_agent_key = if map.entries.len() > 0 {
            map.entries[0].0.clone()
        } else {
            String::new()
        };
        BaseFlow { agents: map, primary_agent_key }
    }

    pub fn from_specs(specs: Vec<AgentSpec>) -> (r: Self)
        ensures
            r.agents.deep_view() == all_entries(keyed(deep(specs@))),
            r.agents.wf(),
            r.primary_agent_key@ == first_name(r.agents.deep_view()),
    {
        let mut agents: Vec<(String, AgentSpec)> = Vec::new();
        let mut i: usize = 0;
        while i < specs.len()
            invariant
                i <= specs@.len(),
                agents@.len() == i,
                forall|k: int|
                    0 <= k < i ==> #[trigger] deep(agents@)[k] == keyed(deep(specs@))[k],
            decreases specs@.len() - i,
        {
            let agent = (specs[i].key.clone(), specs[i].clone());
            let ghost before = deep(agents@);
            agents.push(agent);
            proof {
                assert(deep(agents@) == before.push(agent.deep_view()));
                assert(deep(specs@)[i as int] == specs@[i as int].deep_view());
            }
            i += 1;
        }
        proof {
            assert(deep(agents@) =~= keyed(deep(specs@)));
        }
        BaseFlow::new(agents)
    }

    pub fn from_instance(instance: &AgentInstance) -> (r: Self)
        ensures
            r.agents.deep_view() == all_entries(keyed(seq![instance.profile()])),
            r.agents.wf(),
            r.primary_agent_key@ == first_name(r.agents.deep_view()),
    {
        BaseFlow::from_specs(one(instance.spec().clone()))
    }

    pub fn primary_agent(&self) -> (r: Option<&AgentSpec>)
        ensures
            match r {
                Some(spec) => self.agent(self.primary_agent_key@) == Some(spec.deep_view()),
                None => self.agent(self.primary_agent_key@) is None,
            },
    {
        self.agents.get(&self.primary_agent_key)
    }

    pub fn get_agent(&self, key: &str) -> (r: Option<&AgentSpec>)
        ensures
            match r {
                Some(spec) => self.agent(key@) == Some(spec.deep_view()),
                None => self.agent(key@) is None,
            },
    {
        self.agents.get(key)
    }

    /// Adds an agent. It becomes the first choice where there was none.
    pub fn add_agent<T: Text>(&mut self, key: T, agent: AgentSpec)
        ensures
            final(self).agents.deep_view() == with_entry(
                old(self).agents.deep_view(),
                key.chars(),
                agent.deep_view(),
            ),
            old(self).agents.wf() ==> final(self).agents.wf(),
            final(self).primary_agent_key@ == if old(self).primary_agent_key@.len() == 0 {
                key.chars()
            } else {
                old(self).primary_agent_key@
            },
    {
        let key = key.into_text();
        if self.primary_agent_key.as_str().is_empty() {
            self.primary_agent_key = key.clone();
        }
        self.agents.insert(&key, agent);
    }

    /// Makes an agent the first choice.
    pub fn set_primary_agent<T: Text>(&mut self, key: T) -> (r: Result<(), FlowError>)
        ensures
            if old(self).agent(key.chars()) is Some {
                &&& r is Ok
                &&& final(self).primary_agent_key@ == key.chars()
                &&& final(self).agents == old(self).agents
            } else {
                &&& r is Err
                &&& r->Err_0.deep_view() == FlowFault::NoExecutor(key.chars())
                &&& *final(self) == *old(self)
            },
    {
        let key = key.into_text();
        if !self.agents.contains_key(&key) {
            return Err(FlowError::NoExecutor(key));
        }
        self.primary_agent_key = key;
        Ok(())
    }
}

/// What every flow has: its agents.
pub trait Flow: Sized {
    /// The agents of the flow.
    spec fn agents_of(&self) -> BaseFlow;

    /// The flow with other agents, and all else as it is.
    spec fn with_base(&self, base: BaseFlow) -> Self;

    fn base(&self) -> (r: &BaseFlow)
        ensures
            *r == self.agents_of(),
    ;

    fn base_mut(&mut self) -> (r: &mut BaseFlow)
        ensures
            *r == old(self).agents_of(),
            final(self).agents_of() == *final(r),
            *final(self) == old(self).with_base(*final(r)),
    ;

    fn primary_agent(&self) -> (r: Option<&AgentSpec>)
        ensures
            match r {
                Some(spec) => self.agents_of().agent(self.agents_of().primary_agent_key@) == Some(
                    spec.deep_view(),
                ),
                None => self.agents_of().agent(self.agents_of().primary_agent_key@) is None,
            },
    {
        self.base().primary_agent()
    }

    fn get_agent(&self, key: &str) -> (r: Option<&AgentSpec>)
        ensures
            match r {
                Some(spec) => self.agents_of().agent(key@) == Some(spec.deep_view()),
                None => self.agents_of().agent(key@) is None,
            },
    {
        self.base().get_agent(key)
    }

    fn add_agent<T: Text>(&mut self, key: T, agent: AgentSpec)
        ensures
            final(self).agents_of().agents.deep_view() == with_entry(
                old(self).agents_of().agents.deep_view(),
                key.chars(),
                agent.deep_view(),
            ),
            old(self).agents_of().agents.wf() ==> final(self).agents_of().agents.wf(),
            final(self).agents_of().primary_agent_key@ == if old(
                self,
            ).agents_of().primary_agent_key@.len() == 0 {
                key.chars()
            } else {
                old(self).agents_of().primary_agent_key@
            },
            *final(self) == old(self).with_base(final(self).agents_of()),
    {
        self.base_mut().add_agent(key, agent);
    }
}

#[derive(Debug, Clone, Copy, PartialEq, Eq, Structural)]
pub enum FlowType {
    Planning,
}

// ---- statuses ----

pub fn all_plan_statuses() -> (r: Vec<String>)
    ensures
        deep(r@) == seq!["not_started"@, "in_progress"@, "completed"@, "blocked"@],
{
    let mut r: Vec<String> = Vec::new();
    r.push(PlanStepStatus::NotStarted.as_str().to_owned());
    r.push(PlanStepStatus::InProgress.as_str().to_owned());
    r.push(PlanStepStatus::Completed.as_str().to_owned());
    r.push(PlanStepStatus::Blocked.as_str().to_owned());
    proof {
        assert(deep(r@) =~= seq!["not_started"@, "in_progress"@, "completed"@, "blocked"@]);
    }
    r
}

/// The statuses of steps that still have to be worked on.
pub fn active_plan_statuses() -> (r: Vec<String>)
    ensures
        deep(r@) == seq!["not_started"@, "in_progress"@],
{
    let mut r: Vec<String> = Vec::new();
    r.push("not_started".to_owned());
    r.push("in_progress".to_owned());
    proof {
        assert(deep(r@) =~= seq!["not_started"@, "in_progress"@]);
    }
    r
}

/// The mark of a status in the text of a plan.
pub open spec fn mark_text(status: PlanStepStatus) -> Seq<char> {
    match status {
        PlanStepStatus::Completed => "[x]"@,
        PlanStepStatus::InProgress => "[>]"@,
        PlanStepStatus::Blocked => "[!]"@,
        PlanStepStatus::NotStarted => "[ ]"@,
    }
}

fn mark(status: PlanStepStatus) -> (r: &'static str)
    ensures
        r@ == mark_text(status),
{
    match status {
        PlanStepStatus::Completed => "[x]",
        PlanStepStatus::InProgress => "[>]",
        PlanStepStatus::Blocked => "[!]",
        PlanStepStatus::NotStarted => "[ ]",
    }
}

/// The marks of the statuses, in the order of their names.
pub fn plan_status_marks() -> (r: Vec<(String, String)>)
    ensures
        deep(r@) == seq![
            ("blocked"@, "[!]"@),
            ("completed"@, "[x]"@),
            ("in_progress"@, "[>]"@),
            ("not_started"@, "[ ]"@),
        ],
{
    let mut r: Vec<(String, String)> = Vec::new();
    r.push(("blocked".to_owned(), "[!]".to_owned()));
    r.push(("completed".to_owned(), "[x]".to_owned()));
    r.push(("in_progress".to_owned(), "[>]".to_owned()));
    r.push(("not_started".to_owned(), "[ ]".to_owned()));
    proof {
        assert(deep(r@) =~= seq![
            ("blocked"@, "[!]"@),
            ("completed"@, "[x]"@),
            ("in_progress"@, "[>]"@),
            ("not_started"@, "[ ]"@),
        ]);
    }
    r
}

// ---- plans ----

/// The step of a new plan.
pub open spec fn new_step(
    plan_id: Seq<char>,
    number: Seq<char>,
    title: Seq<char>,
    description: Seq<char>,
) -> StepModel {
    StepModel {
        id: plan_id + "_step_"@ + number,
        title,
        description,
        status: PlanStepStatus::NotStarted,
        notes: Seq::empty(),
    }
}

/// The plan that every request begins with.
pub open spec fn initial_plan(
    plan_id: Seq<char>,
    request: Seq<char>,
    created_at: i64,
    updated_at: i64,
) -> PlanModel {
    PlanModel {
        id: plan_id,
        title: "Plan for: "@ + noted(request, 50, "..."@),
        steps: seq![
            new_step(
                plan_id,
                "0"@,
                "Analyze request"@,
                "Understand constraints and choose the smallest useful path."@,
            ),
            new_step(
                plan_id,
                "1"@,
                "Execute task"@,
                "Use the selected agent and rust_ tools to produce evidence."@,
            ),
            new_step(
                plan_id,
                "2"@,
                "Verify results"@,
                "Check returned evidence and report limitations."@,
            ),
        ],
        created_at,
        updated_at,
    }
}

fn make_step(plan_id: &str, number: &str, title: &str, description: &str) -> (r: AgentPlanStep)
    ensures
        r.deep_view() == new_step(plan_id@, number@, title@, description@),
{
    AgentPlanStep {
        id: concat3(plan_id, "_step_", number),
        title: title.to_owned(),
        description: description.to_owned(),
        status: PlanStepStatus::NotStarted,
        notes: String::new(),
    }
}

/// The plan that every request begins with.
pub fn make_initial_plan(plan_id: &str, request: &str, created_at: i64, updated_at: i64) -> (r:
    AgentPlan)
    ensures
        r.deep_view() == initial_plan(plan_id@, request@, created_at, updated_at),
{
    let mut steps: Vec<AgentPlanStep> = Vec::new();
    steps.push(
        make_step(
            plan_id,
            "0",
            "Analyze request",
            "Understand constraints and choose the smallest useful path.",
        ),
    );
    steps.push(
        make_step(
            plan_id,
            "1",
            "Execute task",
            "Use the selected agent and rust_ tools to produce evidence.",
        ),
    );
    steps.push(
        make_step(
            plan_id,
            "2",
            "Verify results",
            "Check returned evidence and report limitations.",
        ),
    );
    proof {
        assert(deep(steps@) =~= initial_plan(plan_id@, request@, created_at, updated_at).steps);
    }
    AgentPlan {
        id: plan_id.to_owned(),
        title: concat2("Plan for: ", &take_noted(request, 50, "...")),
        steps,
        created_at,
        updated_at,
    }
}

/// A step in the text of a plan.
pub open spec fn step_line(index: nat, step: StepModel) -> Seq<char> {
    decimal(index) + ". "@ + mark_text(step.status) + " "@ + step.title + "\n"@ + (
    if step.notes.len() == 0 {
        Seq::empty()
    } else {
        "   Notes: "@ + step.notes + "\n"@
    })
}

/// The steps in the text of a plan.
pub open spec fn step_lines(steps: Seq<StepModel>) -> Seq<char>
    decreases steps.len(),
{
    if steps.len() == 0 {
        Seq::empty()
    } else {
        step_lines(steps.drop_last()) + step_line((steps.len() - 1) as nat, steps.last())
    }
}

/// The text of a plan.
pub open spec fn text_of_plan(plan: PlanModel) -> Seq<char> {
    "Plan: "@ + plan.title + " (ID: "@ + plan.id + ")\nProgress: "@ + decimal(
        completed_count(plan.steps),
    ) + "/"@ + decimal(plan.steps.len()) + " completed\nSteps:\n"@ + step_lines(plan.steps)
}

fn write_step(index: usize, step: &AgentPlanStep) -> (r: String)
    ensures
        r@ == step_line(index as nat, step.deep_view()),
{
    let mut line = concat5(&number_text(index as u64), ". ", mark(step.status), " ", &step.title);
    line.append("\n");
    let notes = if step.notes.as_str().is_empty() {
        String::new()
    } else {
        concat3("   Notes: ", &step.notes, "\n")
    };
    line.append(&notes);
    line
}

/// The text of a plan.
pub fn write_plan(plan: &AgentPlan) -> (r: String)
    ensures
        r@ == text_of_plan(plan.deep_view()),
{
    let completed = count_completed(&plan.steps);
    let ghost models = deep(plan.steps@);
    proof {
        assert(models.len() == plan.steps@.len());
    }
    let mut text = concat5("Plan: ", &plan.title, " (ID: ", &plan.id, ")\nProgress: ");
    text.append(&number_text(completed as u64));
    text.append("/");
    text.append(&number_text(plan.steps.len() as u64));
    text.append(" completed\nSteps:\n");
    let ghost head = text@;
    let mut lines = String::new();
    let mut i: usize = 0;
    proof {
        assert(models.take(0) =~= Seq::<StepModel>::empty());
        assert(lines@ =~= Seq::<char>::empty());
    }
    while i < plan.steps.len()
        invariant
            models == deep(plan.steps@),
            i <= plan.steps@.len(),
            lines@ == step_lines(models.take(i as int)),
        decreases plan.steps@.len() - i,
    {
        proof {
            assert(models.take(i + 1).drop_last() =~= models.take(i as int));
            assert(models.take(i + 1).last() == plan.steps@[i as int].deep_view());
        }
        lines.append(&write_step(i, &plan.steps[i]));
        i += 1;
    }
    proof {
        assert(models.take(models.len() as int) =~= models);
    }
    text.append(&lines);
    text
}

// ---- the planning flow ----

/// A flow that works off a plan.
#[derive(Debug, PartialEq, Eq)]
pub struct PlanningFlow {
    pub base: BaseFlow,
    pub executor_keys: Vec<String>,
    pub active_plan_id: String,
    pub current_step_index: Option<usize>,
    pub active_plan: Option<AgentPlan>,
}

/// The first of the agents with the keys that is there.
pub open spec fn first_agent(base: BaseFlow, keys: Seq<Seq<char>>) -> Option<SpecModel>
    decreases keys.len(),
{
    if keys.len() == 0 {
        None
    } else if base.agent(keys.first()) is Some {
        base.agent(keys.first())
    } else {
        first_agent(base, keys.drop_first())
    }
}

/// Who carries out a step: the agent that its type names, or else the first that is there.
pub open spec fn executor_for(
    base: BaseFlow,
    keys: Seq<Seq<char>>,
    step_type: Option<Seq<char>>,
) -> Option<SpecModel> {
    if step_type is Some && step_type->0.len() > 0 && base.agent(step_type->0) is Some {
        base.agent(step_type->0)
    } else if first_agent(base, keys) is Some {
        first_agent(base, keys)
    } else {
        base.agent(base.primary_agent_key@)
    }
}

/// The plan with the step at `i` changed.
pub open spec fn with_step(plan: PlanModel, i: int, step: StepModel, updated_at: i64) -> PlanModel {
    PlanModel { steps: plan.steps.update(i, step), updated_at, ..plan }
}

/// What is handed to the agent that carries out a step.
pub open spec fn step_prompt(plan: PlanModel, index: nat, title: Seq<char>) -> Seq<char> {
    "CURRENT PLAN STATUS:\n"@ + text_of_plan(plan) + "\n\nYOUR CURRENT TASK:\nStep "@ + decimal(
        index,
    ) + ": "@ + title + "\n\nExecute only this step and summarize verified evidence."@
}

impl PlanningFlow {
    /// The plan, as it is.
    pub open spec fn plan(&self) -> Option<PlanModel> {
        self.active_plan.deep_view()
    }

    /// The same but for the plan, its name and the step that is worked on.
    pub open spec fn same_agents(&self, other: &Self) -> bool {
        self.base == other.base && self.executor_keys == other.executor_keys
    }

    pub fn new(base: BaseFlow) -> (r: Self)
        ensures
            r.base == base,
            deep(r.executor_keys@) == names_of(base.agents.deep_view()),
            is_id(r.active_plan_id@, "plan"@),
            r.current_step_index is None,
            r.active_plan is None,
    {
        let executor_keys = base.agents.keys();
        PlanningFlow {
            base,
            executor_keys,
            active_plan_id: new_id("plan"),
            current_step_index: None,
            active_plan: None,
        }
    }

    pub fn with_agents(specs: Vec<AgentSpec>) -> (r: Self)
        ensures
            r.base.agents.deep_view() == all_entries(keyed(deep(specs@))),
            r.base.primary_agent_key@ == first_name(r.base.agents.deep_view()),
            deep(r.executor_keys@) == names_of(r.base.agents.deep_view()),
            is_id(r.active_plan_id@, "plan"@),
            r.current_step_index is None,
            r.active_plan is None,
    {
        PlanningFlow::new(BaseFlow::from_specs(specs))
    }

    /// Who carries out a step of the type.
    pub fn get_executor(&self, step_type: Option<&str>) -> (r: Option<&AgentSpec>)
        ensures
            (match r {
                Some(spec) => Some(spec.deep_view()),
                None => None,
            }) == executor_for(
                self.base,
                deep(self.executor_keys@),
                match step_type {
                    Some(text) => Some(text@),
                    None => None,
                },
            ),
    {
        if let Some(step_type) = step_type {
            if !step_type.is_empty() {
                if let Some(agent) = self.base.get_agent(step_type) {
                    return Some(agent);
                }
            }
        }
        let ghost keys = deep(self.executor_keys@);
        let mut i: usize = 0;
        proof {
            assert(keys.skip(0) =~= keys);
        }
        while i < self.executor_keys.len()
            invariant
                keys == deep(self.executor_keys@),
                i <= self.executor_keys@.len(),
                first_agent(self.base, keys) == first_agent(self.base, keys.skip(i as int)),
                match step_type {
                    Some(text) => text@.len() == 0 || self.base.agent(text@) is None,
                    None => true,
                },
            decreases self.executor_keys@.len() - i,
        {
            proof {
                assert(keys.skip(i as int).first() == self.executor_keys@[i as int]@);
                assert(keys.skip(i as int).drop_first() =~= keys.skip(i + 1));
            }
            if let Some(agent) = self.base.get_agent(&self.executor_keys[i]) {
                return Some(agent);
            }
            i += 1;
        }
        self.base.primary_agent()
    }

    /// Makes the plan that every request begins with.
    pub fn create_initial_plan(&mut self, request: &str) -> (r: Result<AgentPlan, FlowError>)
        ensures
            if is_blank(request@) {
                &&& r is Err
                &&& r->Err_0.deep_view() == FlowFault::InvalidPlan("Request cannot be empty."@)
                &&& *final(self) == *old(self)
            } else {
                &&& r is Ok
                &&& final(self).plan() == Some(r->Ok_0.deep_view())
                &&& r->Ok_0.deep_view() == initial_plan(
                    old(self).active_plan_id@,
                    request@,
                    r->Ok_0.created_at,
                    r->Ok_0.updated_at,
                )
                &&& *final(self) == (PlanningFlow {
                    active_plan: final(self).active_plan,
                    ..*old(self)
                })
            },
    {
        if blank(request) {
            return Err(FlowError::InvalidPlan("Request cannot be empty.".to_owned()));
        }
        let plan = make_initial_plan(&self.active_plan_id, request, now(), now());
        self.active_plan = Some(plan.clone());
        Ok(plan)
    }

    /// Takes a plan. It needs an identifier and a step.
    pub fn set_plan(&mut self, plan: AgentPlan) -> (r: Result<(), FlowError>)
        ensures
            if is_blank(plan.id@) || plan.steps@.len() == 0 {
                &&& r is Err
                &&& r->Err_0.deep_view() == FlowFault::InvalidPlan(
                    "A plan requires an id and at least one step."@,
                )
                &&& *final(self) == *old(self)
            } else {
                &&& r is Ok
                &&& final(self).active_plan_id@ == plan.id@
                &&& final(self).active_plan == Some(plan)
                &&& final(self).current_step_index is None
                &&& final(self).same_agents(old(self))
            },
    {
        if blank(&plan.id) || plan.steps.len() == 0 {
            return Err(
                FlowError::InvalidPlan("A plan requires an id and at least one step.".to_owned()),
            );
        }
        self.active_plan_id = plan.id.clone();
        self.active_plan = Some(plan);
        self.current_step_index = None;
        Ok(())
    }

    /// Begins the first step that still has to be worked on.
    pub fn current_step_info(&mut self) -> (r: Option<(usize, AgentPlanStep)>)
        ensures
            final(self).same_agents(old(self)),
            final(self).active_plan_id == old(self).active_plan_id,
            match r {
                Some((index, _)) => index == first_pending(old(self).plan()->0.steps),
                None => true,
            },
            match old(self).plan() {
                Some(plan) if first_pending(plan.steps) < plan.steps.len() => {
                    let i = first_pending(plan.steps);
                    let step = StepModel {
                        status: PlanStepStatus::InProgress,
                        ..plan.steps[i]
                    };
                    &&& r is Some
                    &&& r.deep_view() == Some((i as usize, step))
                    &&& final(self).plan() == Some(
                        with_step(plan, i, step, final(self).active_plan->0.updated_at),
                    )
                    &&& final(self).current_step_index == Some(i as usize)
                },
                _ => {
                    &&& r is None
                    &&& final(self).plan() == old(self).plan()
                    &&& final(self).current_step_index == old(self).current_step_index
                },
            },
    {
        let ghost before = self.plan();
        let taken = self.active_plan.take();
        match taken {
            Some(old_plan) => {
                let mut plan = old_plan;
                let index = find_pending(&plan.steps);
                if index >= plan.steps.len() {
                    self.active_plan = Some(plan);
                    return None;
                }
                proof {
                    assert(deep(plan.steps@)[index as int]
                        == plan.steps@[index as int].deep_view());
                }
                let notes = plan.steps[index].notes.clone();
                let step = plan.steps[index].marked(PlanStepStatus::InProgress, notes);
                let shown = step.clone();
                plan.steps.set(index, step);
                plan.updated_at = now();
                self.active_plan = Some(plan);
                self.current_step_index = Some(index);
                Some((index, shown))
            },
            None => None,
        }
    }

    pub fn mark_step_completed<T: Text>(&mut self, note: T) -> (r: Result<(), FlowError>)
        ensures
            marks(*old(self), *final(self), PlanStepStatus::Completed, note.chars(), r),
    {
        self.mark_current_step(PlanStepStatus::Completed, note)
    }

    pub fn mark_step_blocked<T: Text>(&mut self, note: T) -> (r: Result<(), FlowError>)
        ensures
            marks(*old(self), *final(self), PlanStepStatus::Blocked, note.chars(), r),
    {
        self.mark_current_step(PlanStepStatus::Blocked, note)
    }

    /// Sets the status and the notes of the step that is worked on.
    pub fn mark_current_step<T: Text>(&mut self, status: PlanStepStatus, note: T) -> (r: Result<
        (),
        FlowError,
    >)
        ensures
            marks(*old(self), *final(self), status, note.chars(), r),
    {
        let index = match self.current_step_index {
            Some(index) => index,
            None => {
                return Err(FlowError::InvalidPlan("No current plan step.".to_owned()));
            },
        };
        let taken = self.active_plan.take();
        match taken {
            Some(old_plan) => {
                let mut plan = old_plan;
                proof {
                    assert(deep(plan.steps@).len() == plan.steps@.len());
                }
                if index >= plan.steps.len() {
                    self.active_plan = Some(plan);
                    return Err(
                        FlowError::InvalidPlan(
                            concat2("Invalid plan step index: ", &number_text(index as u64)),
                        ),
                    );
                }
                proof {
                    assert(deep(plan.steps@)[index as int]
                        == plan.steps@[index as int].deep_view());
                }
                let step = plan.steps[index].marked(status, note.into_text());
                plan.steps.set(index, step);
                plan.updated_at = now();
                self.active_plan = Some(plan);
                Ok(())
            },
            None => Err(FlowError::InvalidPlan("No active plan.".to_owned())),
        }
    }

    /// The text of the plan.
    pub fn plan_text(&self) -> (r: String)
        ensures
            r@ == match self.plan() {
                Some(plan) => text_of_plan(plan),
                None => "No active plan."@,
            },
    {
        match &self.active_plan {
            Some(plan) => write_plan(plan),
            None => "No active plan.".to_owned(),
        }
    }
}

/// Whether a call set the status and the notes of the step that is worked on, or failed for the
/// right reason.
pub open spec fn marks(
    before: PlanningFlow,
    after: PlanningFlow,
    status: PlanStepStatus,
    note: Seq<char>,
    result: Result<(), FlowError>,
) -> bool {
    let fault = mark_fault(before);
    match fault {
        Some(error) => {
            &&& result is Err
            &&& result->Err_0.deep_view() == FlowFault::InvalidPlan(error)
            &&& after == before
        },
        None => {
            let plan = before.plan()->0;
            let i = before.current_step_index->0 as int;
            &&& result is Ok
            &&& after.plan() == Some(
                with_step(
                    plan,
                    i,
                    StepModel { status, notes: note, ..plan.steps[i] },
                    after.active_plan->0.updated_at,
                ),
            )
            &&& after == (PlanningFlow { active_plan: after.active_plan, ..before })
        },
    }
}

/// Why there is no step to mark, if there is none.
pub open spec fn mark_fault(flow: PlanningFlow) -> Option<Seq<char>> {
    match flow.current_step_index {
        None => Some("No current plan step."@),
        Some(index) => match flow.plan() {
            None => Some("No active plan."@),
            Some(plan) => if index < plan.steps.len() {
                None
            } else {
                Some("Invalid plan step index: "@ + decimal(index as nat))
            },
        },
    }
}

impl Flow for PlanningFlow {
    open spec fn agents_of(&self) -> BaseFlow {
        self.base
    }

    open spec fn with_base(&self, base: BaseFlow) -> Self {
        PlanningFlow { base, ..*self }
    }

    fn base(&self) -> (r: &BaseFlow) {
        &self.base
    }

    fn base_mut(&mut self) -> (r: &mut BaseFlow)
        ensures
            *final(self) == (PlanningFlow { base: *final(r), ..*old(self) }),
    {
        &mut self.base
    }
}

// ---- a run ----

/// A step that an agent is to carry out.
#[derive(Debug, PartialEq, Eq)]
pub struct FlowStep {
    pub executor: AgentSpec,
    pub prompt: String,
}

/// What a run does next: the step that begins, the prompt of its executor, or why it ends.
pub open spec fn next_of(flow: PlanningFlow, cancelled: bool) -> Result<
    Option<(SpecModel, Seq<char>)>,
    FlowFault,
> {
    match flow.plan() {
        Some(plan) if first_pending(plan.steps) < plan.steps.len() => {
            let i = first_pending(plan.steps);
            let title = plan.steps[i].title;
            let begun = with_step(
                plan,
                i,
                StepModel { status: PlanStepStatus::InProgress, ..plan.steps[i] },
                plan.updated_at,
            );
            if cancelled {
                Err(FlowFault::Cancelled)
            } else {
                match executor_for(flow.base, deep(flow.executor_keys@), None) {
                    Some(executor) => Ok(
                        Some((executor, step_prompt(begun, i as nat, title))),
                    ),
                    None => Err(FlowFault::NoExecutor(title)),
                }
            }
        },
        _ => Ok(None),
    }
}

impl PlanningFlow {
    /// Begins a run: there must be a first choice among the agents, and there will be a plan.
    pub fn start(&mut self, input: &str) -> (r: Result<(), FlowError>)
        ensures
            final(self).same_agents(old(self)),
            final(self).active_plan_id == old(self).active_plan_id,
            final(self).current_step_index == old(self).current_step_index,
            if old(self).base.agent(old(self).base.primary_agent_key@) is None {
                &&& r is Err
                &&& r->Err_0.deep_view() == FlowFault::NoPrimaryAgent
                &&& final(self).plan() == old(self).plan()
            } else if old(self).plan() is Some {
                r is Ok && final(self).plan() == old(self).plan()
            } else if is_blank(input@) {
                &&& r is Err
                &&& r->Err_0.deep_view() == FlowFault::InvalidPlan("Request cannot be empty."@)
                &&& final(self).plan() is None
            } else {
                &&& r is Ok
                &&& final(self).plan() is Some
                &&& final(self).plan() == Some(
                    initial_plan(
                        old(self).active_plan_id@,
                        input@,
                        final(self).plan()->0.created_at,
                        final(self).plan()->0.updated_at,
                    ),
                )
            },
    {
        if self.base.primary_agent().is_none() {
            return Err(FlowError::NoPrimaryAgent);
        }
        if self.active_plan.is_none() {
            match self.create_initial_plan(input) {
                Ok(_) => {},
                Err(error) => {
                    return Err(error);
                },
            }
        }
        Ok(())
    }

    /// Begins the next step of a run. Where the run was cancelled the step is blocked.
    pub fn next_step(&mut self, cancelled: bool) -> (r: Result<Option<FlowStep>, FlowError>)
        ensures
            final(self).same_agents(old(self)),
            final(self).active_plan_id == old(self).active_plan_id,
            final(self).current_step_index == match old(self).plan() {
                Some(plan) if first_pending(plan.steps) < plan.steps.len() => Some(
                    first_pending(plan.steps) as usize,
                ),
                _ => old(self).current_step_index,
            },
            match next_of(*old(self), cancelled) {
                Ok(Some((executor, prompt))) => {
                    &&& r is Ok
                    &&& r->Ok_0 is Some
                    &&& r->Ok_0->0.executor.deep_view() == executor
                    &&& r->Ok_0->0.prompt@ == prompt
                },
                Ok(None) => r == Ok::<Option<FlowStep>, FlowError>(None),
                Err(error) => r is Err && r->Err_0.deep_view() == error,
            },
            match old(self).plan() {
                Some(plan) if first_pending(plan.steps) < plan.steps.len() => {
                    let i = first_pending(plan.steps);
                    final(self).plan() == Some(
                        with_step(
                            plan,
                            i,
                            if cancelled {
                                StepModel {
                                    status: PlanStepStatus::Blocked,
                                    notes: "Flow cancelled."@,
                                    ..plan.steps[i]
                                }
                            } else {
                                StepModel { status: PlanStepStatus::InProgress, ..plan.steps[i] }
                            },
                            final(self).active_plan->0.updated_at,
                        ),
                    )
                },
                _ => final(self).plan() == old(self).plan(),
            },
    {
        let ghost before = self.plan();
        let (index, step) = match self.current_step_info() {
            Some(found) => found,
            None => {
                return Ok(None);
            },
        };
        proof {
            lemma_first_pending(before->0.steps);
        }
        if cancelled {
            let _ = self.mark_step_blocked("Flow cancelled.");
            proof {
                let plan = before->0;
                let i = first_pending(plan.steps);
                assert(self.plan()->0.steps =~= plan.steps.update(
                    i,
                    StepModel {
                        status: PlanStepStatus::Blocked,
                        notes: "Flow cancelled."@,
                        ..plan.steps[i]
                    },
                ));
            }
            return Err(FlowError::Cancelled);
        }
        let executor = match self.get_executor(None) {
            Some(executor) => executor.clone(),
            None => {
                return Err(FlowError::NoExecutor(step.title));
            },
        };
        let mut prompt = concat5(
            "CURRENT PLAN STATUS:\n",
            &self.plan_text(),
            "\n\nYOUR CURRENT TASK:\nStep ",
            &number_text(index as u64),
            ": ",
        );
        prompt.append(&step.title);
        prompt.append("\n\nExecute only this step and summarize verified evidence.");
        proof {
            let plan = before->0;
            let i = first_pending(plan.steps);
            let begun = with_step(
                plan,
                i,
                StepModel { status: PlanStepStatus::InProgress, ..plan.steps[i] },
                plan.updated_at,
            );
            assert(text_of_plan(self.plan()->0) == text_of_plan(begun));
        }
        Ok(Some(FlowStep { executor, prompt }))
    }

    /// Takes what an agent came to in the step that is worked on: a step that failed is blocked,
    /// and ends the run.
    pub fn finish_step(&mut self, result: &Result<String, String>) -> (r: Result<(), FlowError>)
        ensures
            mark_fault(*old(self)) is Some ==> *final(self) == *old(self) && r is Err
                && r->Err_0.deep_view() == FlowFault::InvalidPlan(mark_fault(*old(self))->0),
            mark_fault(*old(self)) is None ==> match result {
                Ok(_) => r is Ok && marks(
                    *old(self),
                    *final(self),
                    PlanStepStatus::Completed,
                    "Step completed by the selected agent."@,
                    r,
                ),
                Err(error) => {
                    &&& r is Err
                    &&& r->Err_0.deep_view() == FlowFault::Agent(error@)
                    &&& marks(
                        *old(self),
                        *final(self),
                        PlanStepStatus::Blocked,
                        error@,
                        Ok(()),
                    )
                },
            },
    {
        match result {
            Ok(_) => self.mark_step_completed("Step completed by the selected agent."),
            Err(error) => match self.mark_step_blocked(error.clone()) {
                Ok(()) => Err(FlowError::Agent(error.clone())),
                Err(fault) => Err(fault),
            },
        }
    }

    /// What a run comes to when no step is left.
    pub fn report(&self, outputs: &Vec<String>) -> (r: String)
        ensures
            r@ == "Plan completed.\n"@ + (match self.plan() {
                Some(plan) => text_of_plan(plan),
                None => "No active plan."@,
            }) + "\n"@ + joined(deep(outputs@), "\n\n"@),
    {
        concat4("Plan completed.\n", &self.plan_text(), "\n", &join(outputs, "\n\n"))
    }
}

/// Makes flows.
pub struct FlowFactory;

impl FlowFactory {
    pub fn create_flow(flow_type: FlowType, agents: Vec<AgentSpec>) -> (r: PlanningFlow)
        ensures
            r.base.agents.deep_view() == all_entries(keyed(deep(agents@))),
            r.base.primary_agent_key@ == first_name(r.base.agents.deep_view()),
            deep(r.executor_keys@) == names_of(r.base.agents.deep_view()),
            is_id(r.active_plan_id@, "plan"@),
            r.current_step_index is None,
            r.active_plan is None,
    {
        match flow_type {
            FlowType::Planning => PlanningFlow::with_agents(agents),
        }
    }

    pub fn planning_for_kind(kind: AgentKind, workspace: &str) -> (r: PlanningFlow)
        ensures
            r.base.agents.deep_view() == all_entries(keyed(seq![spec_of(kind, workspace@)])),
            r.base.primary_agent_key@ == first_name(r.base.agents.deep_view()),
            deep(r.executor_keys@) == names_of(r.base.agents.deep_view()),
            is_id(r.active_plan_id@, "plan"@),
            r.current_step_index is None,
            r.active_plan is None,
    {
        FlowFactory::create_flow(FlowType::Planning, one(AgentSpec::for_kind(kind, workspace)))
    }
}

// ---- laws ----

/// A flow made for one kind of agent has that agent as its first choice and as the executor of
/// every step.
pub proof fn law_flow_of_one_kind_uses_it(base: BaseFlow, kind: AgentKind, workspace: Seq<char>)
    requires
        base.agents.deep_view() == all_entries(keyed(seq![spec_of(kind, workspace)])),
        base.primary_agent_key@ == first_name(base.agents.deep_view()),
    ensures
        base.agent(base.primary_agent_key@) == Some(spec_of(kind, workspace)),
        forall|step_type: Option<Seq<char>>| #[trigger]
            executor_for(base, names_of(base.agents.deep_view()), step_type) == Some(
                spec_of(kind, workspace),
            ),
{
    let spec = spec_of(kind, workspace);
    let entries = keyed(seq![spec]);
    assert(entries =~= seq![(spec.key, spec)]);
    assert(entries.drop_last() =~= Seq::<(Seq<char>, SpecModel)>::empty());
    let list = all_entries(entries);
    assert(all_entries(entries.drop_last()) =~= Seq::<(Seq<char>, SpecModel)>::empty());
    assert(list =~= seq![(spec.key, spec)]);
    assert(base.agent(spec.key) == Some(spec));
    let keys = names_of(list);
    assert(keys.first() == spec.key);
    assert(first_agent(base, keys) == Some(spec));
    assert forall|step_type: Option<Seq<char>>| #[trigger]
        executor_for(base, keys, step_type) == Some(spec) by {
        if step_type is Some && base.agent(step_type->0) is Some {
            crate::table::lemma_name_index(list, step_type->0);
        }
    }
}

/// Each step that is carried out leaves one step less to be worked on, so that a run comes to its
/// end; and where it succeeded, one more step is completed.
pub proof fn law_every_step_brings_a_run_forward(
    plan: PlanModel,
    status: PlanStepStatus,
    note: Seq<char>,
)
    requires
        first_pending(plan.steps) < plan.steps.len(),
        status == PlanStepStatus::Completed || status == PlanStepStatus::Blocked,
    ensures
        ({
            let i = first_pending(plan.steps);
            let begun = plan.steps.update(
                i,
                StepModel { status: PlanStepStatus::InProgress, ..plan.steps[i] },
            );
            let done = begun.update(i, StepModel { status, notes: note, ..begun[i] });
            &&& first_pending(begun) == i
            &&& pending_count(done) == pending_count(plan.steps) - 1
            &&& completed_count(done) == completed_count(plan.steps) + (if status
                == PlanStepStatus::Completed {
                1nat
            } else {
                0nat
            })
        }),
{
    let i = first_pending(plan.steps);
    lemma_first_pending(plan.steps);
    let step = StepModel { status: PlanStepStatus::InProgress, ..plan.steps[i] };
    let begun = plan.steps.update(i, step);
    lemma_counts_of_update(plan.steps, i, step);
    lemma_counts_of_update(begun, i, StepModel { status, notes: note, ..begun[i] });
    lemma_first_pending(begun);
    let k = first_pending(begun);
    if k < i {
        assert(begun[k] == plan.steps[k]);
    } else if k > i {
        assert(!is_pending(begun[i]));
    }
}

/// A plan of which no step is left to be worked on has none that is blocked if and only if all
/// are completed.
pub proof fn law_finished_plans_are_completed_or_blocked(steps: Seq<StepModel>)
    requires
        first_pending(steps) == steps.len(),
    ensures
        completed_count(steps) <= steps.len(),
        completed_count(steps) == steps.len() <==> forall|i: int|
            0 <= i < steps.len() ==> (#[trigger] steps[i]).status != PlanStepStatus::Blocked,
    decreases steps.len(),
{
    lemma_first_pending(steps);
    lemma_completed(steps);
}

proof fn lemma_completed(steps: Seq<StepModel>)
    requires
        forall|k: int| 0 <= k < steps.len() ==> !is_pending(#[trigger] steps[k]),
    ensures
        completed_count(steps) <= steps.len(),
        completed_count(steps) == steps.len() <==> forall|i: int|
            0 <= i < steps.len() ==> (#[trigger] steps[i]).status != PlanStepStatus::Blocked,
    decreases steps.len(),
{
    if steps.len() > 0 {
        let head = steps.drop_last();
        assert forall|k: int| 0 <= k < head.len() implies !is_pending(#[trigger] head[k]) by {
            assert(head[k] == steps[k]);
        }
        lemma_completed(head);
        let last = steps[steps.len() - 1];
        assert(!is_pending(last));
        if completed_count(steps) == steps.len() {
            assert forall|i: int| 0 <= i < steps.len() implies (#[trigger] steps[i]).status
                != PlanStepStatus::Blocked by {
                if i < head.len() {
                    assert(steps[i] == head[i]);
                }
            }
        }
        if forall|i: int|
            0 <= i < steps.len() ==> (#[trigger] steps[i]).status != PlanStepStatus::Blocked {
            assert forall|i: int| 0 <= i < head.len() implies (#[trigger] head[i]).status
                != PlanStepStatus::Blocked by {
                assert(head[i] == steps[i]);
            }
        }
    }
}

} // verus!
