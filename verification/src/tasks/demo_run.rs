//! A run without a model, from the plan to the answer.
//!
//! The tools run outside the library, between [`Task::demo_begin`] and [`Task::demo_verify`], and
//! the answer is shown piece by piece before [`Task::demo_end`].

use vstd::prelude::*;

use crate::deep::{deep, group_deep};
use crate::json::{group_json, Json};
use crate::models::{plain_entry, AgentMemoryEntry, EntryModel};
use crate::number::{decimal, number_text};
use crate::plan::PlanStepStatus;
use crate::tasks::demo::{demo_answer, demo_tool_calls, needed_calls, told_answer};
use crate::tasks::records::{
    AgentStatus, ResultModel, StepPhase, StepStatus, Task, TaskModel, ToolResult,
};
use crate::tasks::task::{
    has_step, lemma_newest_step, with_ended_step, with_memory, with_new_step, with_plan, with_plan_step, with_status, PlanIds,
};
use crate::tasks::tool_run::{AgentError, ErrorModel};
use crate::text::{chars_of, concat2, contains, has_part, lowercase, substring, to_lowercase};

verus! {

broadcast use {group_deep, group_json};

/// Whether a request asks for a run that fails.
pub open spec fn asks_to_fail(prompt: Seq<char>) -> bool {
    has_part(lowercase(prompt), "fail"@) || has_part(prompt, "澶辫触"@)
}

/// The task while its plan is made.
pub open spec fn demo_planning(
    t: TaskModel,
    ids: PlanIds,
    plan_step: Seq<char>,
    at: i64,
) -> TaskModel {
    let planned = with_plan_step(
        with_plan(t, ids, at),
        0,
        PlanStepStatus::InProgress,
        Some("Demo planner selected a bounded execution path."@),
        at,
    );
    with_new_step(
        with_status(planned, AgentStatus::Planning, None, at),
        plan_step,
        StepPhase::Plan,
        "Plan"@,
        Some("Turn the request into a small, observable execution plan."@),
        at,
    )
}

/// The task when a run that was asked to fail has failed.
pub open spec fn demo_refused(t: TaskModel, plan_step: Seq<char>, at: i64) -> TaskModel {
    with_plan_step(
        with_ended_step(
            t,
            plan_step,
            StepStatus::Failed,
            Some("The demo failure scenario was requested by the task."@),
            at,
        ),
        0,
        PlanStepStatus::Blocked,
        Some("The explicit demo failure scenario stopped planning."@),
        at,
    )
}

/// The task when its tools are to be called.
pub open spec fn demo_acting(
    t: TaskModel,
    plan_step: Seq<char>,
    act_step: Seq<char>,
    at: i64,
) -> TaskModel {
    let ready = with_plan_step(
        with_ended_step(t, plan_step, StepStatus::Completed, Some("Plan ready."@), at),
        0,
        PlanStepStatus::Completed,
        Some("Plan ready."@),
        at,
    );
    with_new_step(
        with_status(
            with_plan_step(ready, 1, PlanStepStatus::InProgress, None, at),
            AgentStatus::Executing,
            None,
            at,
        ),
        act_step,
        StepPhase::Act,
        "Act"@,
        Some("Run the smallest useful local tools for this request."@),
        at,
    )
}

/// What is said of the calls when all of them are done.
pub open spec fn calls_note(count: nat) -> Seq<char> {
    if count == 0 {
        "No local tools were needed."@
    } else {
        decimal(count) + " relevant tool call(s) recorded."@
    }
}

/// What is said of the results when all of them are there.
pub open spec fn results_note(count: nat) -> Seq<char> {
    if count == 0 {
        "The request was answered directly."@
    } else {
        decimal(count) + " relevant result(s) returned."@
    }
}

/// The task when the results of its tools are looked through.
pub open spec fn demo_verifying(
    t: TaskModel,
    act_step: Seq<char>,
    verify_step: Seq<char>,
    count: nat,
    at: i64,
) -> TaskModel {
    let acted = with_plan_step(
        with_ended_step(t, act_step, StepStatus::Completed, Some(calls_note(count)), at),
        1,
        PlanStepStatus::Completed,
        Some(results_note(count)),
        at,
    );
    with_new_step(
        with_status(
            with_plan_step(acted, 2, PlanStepStatus::InProgress, None, at),
            AgentStatus::Verifying,
            None,
            at,
        ),
        verify_step,
        StepPhase::Verify,
        "Verify"@,
        Some("Check each tool result before composing the answer."@),
        at,
    )
}

/// The answer as the agent remembers it.
pub open spec fn demo_entry(
    id: Seq<char>,
    answer: Seq<char>,
    tool_names: Seq<Seq<char>>,
    at: i64,
) -> EntryModel {
    EntryModel { tool_names, ..plain_entry(id, "assistant"@, answer, at) }
}

/// The task when the answer is given.
pub open spec fn demo_ended(
    t: TaskModel,
    verify_step: Seq<char>,
    entry: EntryModel,
    at: i64,
) -> TaskModel {
    with_plan_step(
        with_ended_step(
            with_memory(t, entry, at),
            verify_step,
            StepStatus::Completed,
            Some(
                "The result was summarized for the user; raw evidence remains available in Rust Trace."@,
            ),
            at,
        ),
        2,
        PlanStepStatus::Completed,
        Some("The user-facing answer was verified and summarized."@),
        at,
    )
}

impl Task {
    /// Makes the plan, and gives the tools that are to be called.
    pub fn demo_begin(&mut self, ids: &PlanIds, plan_step: &str, act_step: &str, at: i64) -> (r:
        Result<Vec<(String, Json)>, AgentError>)
        ensures
            ({
                let planning = demo_planning(old(self).deep_view(), *ids, plan_step@, at);
                if asks_to_fail(old(self).prompt@) {
                    &&& final(self).deep_view() == demo_refused(planning, plan_step@, at)
                    &&& r is Err && r->Err_0 is Message && r->Err_0->Message_0@
                        == "Demo failure scenario requested. Retry the task without the word 'fail' to continue."@
                } else {
                    &&& final(self).deep_view() == demo_acting(planning, plan_step@, act_step@, at)
                    &&& r is Ok && deep(r->Ok_0@) == needed_calls(old(self).prompt@)
                }
            }),
    {
        let prompt = self.prompt.clone();
        let _ = self.ensure_default_plan(ids, at);
        self.set_plan_step_status(
            0,
            PlanStepStatus::InProgress,
            Some("Demo planner selected a bounded execution path.".to_owned()),
            at,
        );
        self.set_status(AgentStatus::Planning, None, at);
        self.add_step(
            plan_step.to_owned(),
            StepPhase::Plan,
            "Plan",
            Some("Turn the request into a small, observable execution plan.".to_owned()),
            at,
        );
        proof {
            let planning = demo_planning(old(self).deep_view(), *ids, plan_step@, at);
            lemma_newest_step(planning, plan_step@);
        }
        if contains(&to_lowercase(&prompt), "fail") || contains(&prompt, "澶辫触") {
            let ended = self.finish_step(
                plan_step,
                StepStatus::Failed,
                Some("The demo failure scenario was requested by the task.".to_owned()),
                at,
            );
            proof {
                assert(ended is Ok);
            }
            self.set_plan_step_status(
                0,
                PlanStepStatus::Blocked,
                Some("The explicit demo failure scenario stopped planning.".to_owned()),
                at,
            );
            return Err(
                AgentError::Message(
                    "Demo failure scenario requested. Retry the task without the word 'fail' to continue.".to_owned(),
                ),
            );
        }
        let ended = self.finish_step(
            plan_step,
            StepStatus::Completed,
            Some("Plan ready.".to_owned()),
            at,
        );
        proof {
            assert(ended is Ok);
        }
        self.set_plan_step_status(
            0,
            PlanStepStatus::Completed,
            Some("Plan ready.".to_owned()),
            at,
        );
        self.set_plan_step_status(1, PlanStepStatus::InProgress, None, at);
        self.set_status(AgentStatus::Executing, None, at);
        self.add_step(
            act_step.to_owned(),
            StepPhase::Act,
            "Act",
            Some("Run the smallest useful local tools for this request.".to_owned()),
            at,
        );
        Ok(demo_tool_calls(&prompt))
    }

    /// Looks through the results of the tools, and gives the answer.
    pub fn demo_verify(
        &mut self,
        act_step: &str,
        verify_step: &str,
        results: &Vec<(String, ToolResult)>,
        at: i64,
    ) -> (r: Result<String, AgentError>)
        ensures
            if has_step(old(self).deep_view(), act_step@) {
                &&& final(self).deep_view() == demo_verifying(
                    old(self).deep_view(),
                    act_step@,
                    verify_step@,
                    results@.len(),
                    at,
                )
                &&& r is Ok && r->Ok_0@ == told_answer(deep(results@))
            } else {
                &&& final(self).deep_view() == old(self).deep_view()
                &&& r is Err && r->Err_0.deep_view() == ErrorModel::Message("Step not found"@)
            },
    {
        let count = results.len();
        let calls = if count == 0 {
            "No local tools were needed.".to_owned()
        } else {
            concat2(&number_text(count as u64), " relevant tool call(s) recorded.")
        };
        match self.finish_step(act_step, StepStatus::Completed, Some(calls), at) {
            Ok(_) => {},
            Err(error) => {
                return Err(AgentError::Message(error));
            },
        }
        let returned = if count == 0 {
            "The request was answered directly.".to_owned()
        } else {
            concat2(&number_text(count as u64), " relevant result(s) returned.")
        };
        self.set_plan_step_status(1, PlanStepStatus::Completed, Some(returned), at);
        self.set_plan_step_status(2, PlanStepStatus::InProgress, None, at);
        self.set_status(AgentStatus::Verifying, None, at);
        self.add_step(
            verify_step.to_owned(),
            StepPhase::Verify,
            "Verify",
            Some("Check each tool result before composing the answer.".to_owned()),
            at,
        );
        Ok(demo_answer(&self.prompt, results))
    }

    /// Ends the run when the answer has been shown.
    pub fn demo_end(
        &mut self,
        verify_step: &str,
        memory_id: &str,
        answer: &str,
        results: &Vec<(String, ToolResult)>,
        at: i64,
    ) -> (r: Result<(), AgentError>)
        ensures
            ({
                let entry = demo_entry(
                    memory_id@,
                    answer@,
                    deep(results@).map_values(|r: (Seq<char>, ResultModel)| r.0),
                    at,
                );
                if has_step(old(self).deep_view(), verify_step@) {
                    &&& final(self).deep_view() == demo_ended(
                        old(self).deep_view(),
                        verify_step@,
                        entry,
                        at,
                    )
                    &&& r is Ok
                } else {
                    &&& final(self).deep_view() == with_memory(old(self).deep_view(), entry, at)
                    &&& r is Err && r->Err_0.deep_view() == ErrorModel::Message("Step not found"@)
                }
            }),
    {
        let mut names: Vec<String> = Vec::new();
        let mut i: usize = 0;
        let ghost wanted = deep(results@).map_values(|r: (Seq<char>, ResultModel)| r.0);
        while i < results.len()
            invariant
                i <= results@.len(),
                names@.len() == i,
                wanted == deep(results@).map_values(|r: (Seq<char>, ResultModel)| r.0),
                forall|k: int| 0 <= k < i ==> (#[trigger] names@[k])@ == wanted[k],
            decreases results@.len() - i,
        {
            proof {
                assert(deep(results@)[i as int] == results@[i as int].deep_view());
            }
            names.push(results[i].0.clone());
            i += 1;
        }
        proof {
            assert(deep(results@).len() == results@.len());
            assert(deep(names@) =~= wanted);
        }
        let mut entry = AgentMemoryEntry::plain(
            memory_id.to_owned(),
            "assistant",
            answer.to_owned(),
            at,
        );
        entry.tool_names = names;
        self.record_memory(entry, at);
        match self.finish_step(
            verify_step,
            StepStatus::Completed,
            Some(
                "The result was summarized for the user; raw evidence remains available in Rust Trace.".to_owned(),
            ),
            at,
        ) {
            Ok(_) => {},
            Err(error) => {
                return Err(AgentError::Message(error));
            },
        }
        self.set_plan_step_status(
            2,
            PlanStepStatus::Completed,
            Some("The user-facing answer was verified and summarized.".to_owned()),
            at,
        );
        Ok(())
    }
}

// ---- showing the answer ----

/// How many characters of an answer are shown at once.
pub const DEMO_CHUNK_CHARS: usize = 4;

/// A text in pieces of four characters, the last one of those that are left.
pub open spec fn pieces(text: Seq<char>) -> Seq<Seq<char>>
    decreases text.len(),
{
    if text.len() == 0 {
        Seq::empty()
    } else if text.len() <= DEMO_CHUNK_CHARS {
        seq![text]
    } else {
        seq![text.take(DEMO_CHUNK_CHARS as int)] + pieces(text.skip(DEMO_CHUNK_CHARS as int))
    }
}

/// A text in pieces of four characters, the last one of those that are left.
pub fn demo_chunks(text: &str) -> (r: Vec<String>)
    ensures
        deep(r@) == pieces(text@),
{
    let v = chars_of(text);
    let n = v.len();
    let mut r: Vec<String> = Vec::new();
    let mut i: usize = 0;
    proof {
        assert(text@.skip(0) =~= text@);
        assert(deep(r@) + pieces(text@) =~= pieces(text@));
    }
    while i < n
        invariant
            v@ == text@,
            n == v@.len(),
            i <= n,
            deep(r@) + pieces(text@.skip(i as int)) == pieces(text@),
        decreases n - i,
    {
        let end = if n - i > DEMO_CHUNK_CHARS {
            i + DEMO_CHUNK_CHARS
        } else {
            n
        };
        let piece = substring(&v, i, end);
        let ghost before = deep(r@);
        let ghost rest = text@.skip(i as int);
        r.push(piece);
        proof {
            assert(deep(r@) =~= before.push(piece@));
            if rest.len() <= DEMO_CHUNK_CHARS {
                assert(piece@ =~= rest);
                assert(text@.skip(end as int) =~= Seq::<char>::empty());
                assert(before.push(piece@) + pieces(text@.skip(end as int)) =~= before + seq![
                    rest,
                ]);
            } else {
                assert(piece@ =~= rest.take(DEMO_CHUNK_CHARS as int));
                assert(rest.skip(DEMO_CHUNK_CHARS as int) =~= text@.skip(end as int));
                assert(before.push(piece@) + pieces(text@.skip(end as int)) =~= before + (seq![
                    piece@,
                ] + pieces(rest.skip(DEMO_CHUNK_CHARS as int))));
            }
        }
        i = end;
    }
    proof {
        assert(text@.skip(n as int) =~= Seq::<char>::empty());
        assert(deep(r@) + Seq::<Seq<char>>::empty() =~= deep(r@));
    }
    r
}

// ---- laws ----

/// The pieces of a text, one behind the other.
pub open spec fn glued(parts: Seq<Seq<char>>) -> Seq<char>
    decreases parts.len(),
{
    if parts.len() == 0 {
        Seq::empty()
    } else {
        parts.first() + glued(parts.drop_first())
    }
}

/// Nothing of an answer is lost when it is shown in pieces.
pub proof fn law_pieces_make_up_the_text(text: Seq<char>)
    ensures
        glued(pieces(text)) == text,
    decreases text.len(),
{
    let n = DEMO_CHUNK_CHARS as int;
    if text.len() == 0 {
        assert(text =~= Seq::<char>::empty());
    } else if text.len() <= n {
        let none = Seq::<Seq<char>>::empty();
        assert(pieces(text).drop_first() =~= none);
        assert(glued(none) == Seq::<char>::empty());
        assert(text + Seq::<char>::empty() =~= text);
    } else {
        law_pieces_make_up_the_text(text.skip(n));
        assert(pieces(text).drop_first() =~= pieces(text.skip(n)));
        assert(text.take(n) + text.skip(n) =~= text);
    }
}

} // verus!
