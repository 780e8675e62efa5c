//! What working off a plan guarantees.

use vstd::prelude::*;

use crate::agent::{
    answers, calls_json, is_answer, message_json, role_text, stuck, system_prompt, AgentKind,
    MessageModel, Role,
};
use crate::agents::SpecModel;
use crate::coding::view_laws::{lemma_part_at_end, lemma_part_stays};
use crate::deep::deep;
use crate::flow::{
    executor_for, first_agent, mark_fault, mark_text, marks, next_of, step_line, step_lines,
    text_of_plan, BaseFlow, FlowFault, PlanningFlow,
};
use crate::json::JsonModel;
use crate::json_model::{lemma_with_get, lemma_with_get_other};
use crate::number::decimal;
use crate::plan::{
    completed_count, first_pending, lemma_first_pending, PlanModel, PlanStepStatus, StepModel,
};
use crate::text::{has_part, occurs_at};

verus! {

/// Whether a step is still to be worked on.
pub open spec fn is_open(step: StepModel) -> bool {
    step.status == PlanStepStatus::NotStarted || step.status == PlanStepStatus::InProgress
}

proof fn lemma_first_open(steps: Seq<StepModel>, k: int)
    requires
        0 <= k <= steps.len(),
        forall|j: int| 0 <= j < k ==> !is_open(#[trigger] steps[j]),
        k < steps.len() ==> is_open(steps[k]),
    ensures
        first_pending(steps) == k,
{
    lemma_first_pending(steps);
    let first = first_pending(steps);
    if first < k {
        assert(!is_open(steps[first]));
    } else if first > k {
        assert(is_open(steps[k]));
    }
}

/// The steps of a plan are worked off in their order: the first that is still to be worked on
/// comes next, and its agent is told of the plan and of the step. A plan without such a step is at
/// its end, and a cancelled run stops.
pub proof fn law_steps_are_worked_off_in_order(
    flow: PlanningFlow,
    plan: PlanModel,
    k: int,
    executor: SpecModel,
)
    requires
        flow.plan() == Some(plan),
        0 <= k <= plan.steps.len(),
        forall|j: int| 0 <= j < k ==> !is_open(#[trigger] plan.steps[j]),
        k < plan.steps.len() ==> is_open(plan.steps[k]),
        executor_for(flow.base, deep(flow.executor_keys@), None) == Some(executor),
    ensures
        first_pending(plan.steps) == k,
        k == plan.steps.len() ==> next_of(flow, false) == Ok::<
            Option<(SpecModel, Seq<char>)>,
            FlowFault,
        >(None),
        k < plan.steps.len() ==> next_of(flow, true) == Err::<
            Option<(SpecModel, Seq<char>)>,
            FlowFault,
        >(FlowFault::Cancelled),
        k < plan.steps.len() ==> {
            &&& next_of(flow, false) is Ok
            &&& next_of(flow, false)->Ok_0 is Some
            &&& (next_of(flow, false)->Ok_0->Some_0).0 == executor
            &&& has_part((next_of(flow, false)->Ok_0->Some_0).1, plan.steps[k].title)
            &&& has_part((next_of(flow, false)->Ok_0->Some_0).1, plan.title)
        },
{
    lemma_first_open(plan.steps, k);
    if k < plan.steps.len() {
        let title = plan.steps[k].title;
        let prompt = (next_of(flow, false)->Ok_0->Some_0).1;
        let tail = "\n\nExecute only this step and summarize verified evidence."@;
        let front = prompt.take(prompt.len() - tail.len());
        let head = front.take(front.len() - title.len());
        assert(front =~= head + title);
        lemma_part_at_end(head, title);
        lemma_part_stays(front, title, prompt);
        let first = "CURRENT PLAN STATUS:\n"@ + "Plan: "@;
        let named = first + plan.title;
        assert(prompt.take(named.len() as int) =~= named);
        lemma_part_at_end(first, plan.title);
        lemma_part_stays(named, plan.title, prompt);
    }
}

/// Who carries out a step is the agent that its type names, where there is one; else the first of
/// the executors that there is; else the first choice of the flow.
pub proof fn law_steps_are_given_to_agents_that_are_there(
    base: BaseFlow,
    keys: Seq<Seq<char>>,
    step_type: Seq<char>,
    k: int,
)
    ensures
        step_type.len() > 0 && base.agent(step_type) is Some ==> executor_for(
            base,
            keys,
            Some(step_type),
        ) == base.agent(step_type),
        0 <= k < keys.len() && base.agent(keys[k]) is Some && (forall|j: int|
            0 <= j < k ==> base.agent(#[trigger] keys[j]) is None) ==> executor_for(
            base,
            keys,
            None,
        ) == base.agent(keys[k]),
        (forall|j: int| 0 <= j < keys.len() ==> base.agent(#[trigger] keys[j]) is None)
            ==> executor_for(base, keys, None) == base.agent(base.primary_agent_key@),
{
    if 0 <= k < keys.len() && base.agent(keys[k]) is Some && (forall|j: int|
        0 <= j < k ==> base.agent(#[trigger] keys[j]) is None) {
        lemma_first_agent(base, keys, k);
    }
    if forall|j: int| 0 <= j < keys.len() ==> base.agent(#[trigger] keys[j]) is None {
        lemma_no_agent(base, keys);
    }
}

proof fn lemma_first_agent(base: BaseFlow, keys: Seq<Seq<char>>, k: int)
    requires
        0 <= k < keys.len(),
        base.agent(keys[k]) is Some,
        forall|j: int| 0 <= j < k ==> base.agent(#[trigger] keys[j]) is None,
    ensures
        first_agent(base, keys) == base.agent(keys[k]),
    decreases keys.len(),
{
    if k > 0 {
        assert(base.agent(keys[0]) is None);
        let rest = keys.drop_first();
        assert forall|j: int| 0 <= j < k - 1 implies base.agent(#[trigger] rest[j]) is None by {
            assert(rest[j] == keys[j + 1]);
        }
        lemma_first_agent(base, rest, k - 1);
    }
}

proof fn lemma_no_agent(base: BaseFlow, keys: Seq<Seq<char>>)
    requires
        forall|j: int| 0 <= j < keys.len() ==> base.agent(#[trigger] keys[j]) is None,
    ensures
        first_agent(base, keys) is None,
    decreases keys.len(),
{
    if keys.len() > 0 {
        assert(base.agent(keys[0]) is None);
        let rest = keys.drop_first();
        assert forall|j: int| 0 <= j < rest.len() implies base.agent(#[trigger] rest[j]) is None by {
            assert(rest[j] == keys[j + 1]);
        }
        lemma_no_agent(base, rest);
    }
}

/// Marking the step that is worked on sets its status and its notes, and touches neither another
/// step nor anything else of the flow.
pub proof fn law_marking_touches_one_step(
    before: PlanningFlow,
    after: PlanningFlow,
    status: PlanStepStatus,
    note: Seq<char>,
    index: usize,
    j: int,
)
    requires
        marks(before, after, status, note, Ok(())),
        before.current_step_index == Some(index),
        before.plan() is Some,
        index < before.plan()->0.steps.len(),
    ensures
        after.plan() is Some,
        after.plan()->0.steps.len() == before.plan()->0.steps.len(),
        after.plan()->0.steps[index as int].status == status,
        after.plan()->0.steps[index as int].notes == note,
        after.plan()->0.steps[index as int].title == before.plan()->0.steps[index as int].title,
        0 <= j < before.plan()->0.steps.len() && j != index ==> after.plan()->0.steps[j]
            == before.plan()->0.steps[j],
        after.base == before.base,
        after.current_step_index == before.current_step_index,
{
}

proof fn lemma_step_lines(steps: Seq<StepModel>, i: int)
    requires
        0 <= i < steps.len(),
    ensures
        has_part(step_lines(steps), step_line(i as nat, steps[i])),
    decreases steps.len(),
{
    let head = step_lines(steps.drop_last());
    let last = step_line((steps.len() - 1) as nat, steps.last());
    lemma_part_at_end(head, last);
    if i < steps.len() - 1 {
        lemma_step_lines(steps.drop_last(), i);
        lemma_part_stays(head, step_line(i as nat, steps[i]), head + last);
    }
}

/// The text of a plan shows every step with its number, its mark and its title, and with its notes
/// where there are any; the marks tell the statuses apart.
pub proof fn law_plans_show_every_step(plan: PlanModel, i: int)
    requires
        0 <= i < plan.steps.len(),
    ensures
        has_part(
            text_of_plan(plan),
            decimal(i as nat) + ". "@ + mark_text(plan.steps[i].status) + " "@ + plan.steps[i].title
                + "\n"@,
        ),
        plan.steps[i].notes.len() > 0 ==> has_part(text_of_plan(plan), plan.steps[i].notes),
        forall|a: PlanStepStatus, b: PlanStepStatus|
            a != b ==> #[trigger] mark_text(a) != #[trigger] mark_text(b),
{
    let text = text_of_plan(plan);
    let lines = step_lines(plan.steps);
    let front = text.take(text.len() - lines.len());
    assert(text =~= front + lines);
    let line = step_line(i as nat, plan.steps[i]);
    lemma_step_lines(plan.steps, i);
    let at = choose|at: int| occurs_at(lines, line, at);
    let base = front.len() + at;
    assert(text.subrange(base, base + line.len()) =~= lines.subrange(at, at + line.len()));
    let first = decimal(i as nat) + ". "@ + mark_text(plan.steps[i].status) + " "@
        + plan.steps[i].title + "\n"@;
    assert(line.take(first.len() as int) =~= first);
    assert(text.subrange(base, base + first.len()) =~= text.subrange(
        base,
        base + line.len(),
    ).take(first.len() as int));
    assert(occurs_at(text, first, base));
    let notes = plan.steps[i].notes;
    if notes.len() > 0 {
        let lead = (first + "   Notes: "@).len() as int;
        assert(line.subrange(lead, lead + notes.len()) =~= notes);
        assert(text.subrange(base + lead, base + lead + notes.len()) =~= text.subrange(
            base,
            base + line.len(),
        ).subrange(lead, lead + notes.len()));
        assert(occurs_at(text, notes, base + lead));
    }
    reveal_strlit("[x]");
    reveal_strlit("[>]");
    reveal_strlit("[!]");
    reveal_strlit("[ ]");
    assert("[x]"@[1] == 'x' && "[>]"@[1] == '>' && "[!]"@[1] == '!' && "[ ]"@[1] == ' ');
}

/// The steps that are completed are counted, and no other ones.
pub proof fn law_completed_steps_are_counted(steps: Seq<StepModel>)
    ensures
        completed_count(steps) == steps.filter(
            |s: StepModel| s.status == PlanStepStatus::Completed,
        ).len(),
    decreases steps.len(),
{
    reveal(Seq::filter);
    if steps.len() > 0 {
        law_completed_steps_are_counted(steps.drop_last());
    }
}

// ---- agents ----

/// A message is sent with its role, its text, its calls and the call that it answers.
pub proof fn law_messages_are_sent_with_all_they_say(message: MessageModel)
    ensures
        message_json(message).text("role"@) == Some(role_text(message.role)),
        message_json(message).text("content"@) == message.content,
        message_json(message).get("tool_calls"@) == match message.tool_calls {
            Some(calls) => Some(calls_json(calls)),
            None => None,
        },
        message_json(message).text("tool_call_id"@) == message.tool_call_id,
        message_json(message).text("name"@) == message.name,
        message_json(message).text("base64_image"@) == message.base64_image,
{
    reveal_strlit("role");
    reveal_strlit("content");
    reveal_strlit("tool_calls");
    reveal_strlit("tool_call_id");
    reveal_strlit("name");
    reveal_strlit("base64_image");
    assert("role"@.len() == 4 && "content"@.len() == 7 && "tool_calls"@.len() == 10
        && "tool_call_id"@.len() == 12 && "name"@.len() == 4 && "base64_image"@.len() == 12);
    assert("role"@[0] == 'r' && "name"@[0] == 'n' && "tool_call_id"@[0] == 't'
        && "base64_image"@[0] == 'b');
    assert forall|json: JsonModel, key: Seq<char>, value: JsonModel, other: Seq<char>|
        json is Object implies #[trigger] json.with(key, value).get(other) == if key == other {
        Some(value)
    } else {
        json.get(other)
    } by {
        if key == other {
            lemma_with_get(json, key, value);
        } else {
            lemma_with_get_other(json, key, value, other);
        }
    }
    let members = seq![("role"@, JsonModel::Str(role_text(message.role)))];
    let role = JsonModel::Object(members);
    crate::json_model::lemma_member_index_is(members, "role"@, 0);
    assert forall|key: Seq<char>| key != "role"@ implies #[trigger] role.get(key) is None by {
        crate::json_model::lemma_member_index(members, key);
    }
    assert(role.get("content"@) is None);
    assert(role.get("tool_calls"@) is None);
    assert(role.get("tool_call_id"@) is None);
    assert(role.get("name"@) is None);
    assert(role.get("base64_image"@) is None);
}

proof fn lemma_no_answers(messages: Seq<MessageModel>, content: Seq<char>)
    requires
        forall|k: int| 0 <= k < messages.len() ==> !is_answer(#[trigger] messages[k], content),
    ensures
        answers(messages, content) == 0,
    decreases messages.len(),
{
    reveal(Seq::filter);
    if messages.len() > 0 {
        let head = messages.drop_last();
        assert forall|k: int| 0 <= k < head.len() implies !is_answer(#[trigger] head[k], content) by {
            assert(head[k] == messages[k]);
        }
        lemma_no_answers(head, content);
        assert(!is_answer(messages[messages.len() - 1], content));
    }
}

/// An agent that says something new is not stuck; one that gives the same answer once more than it
/// may is.
pub proof fn law_agents_are_stuck_when_they_repeat_themselves(
    messages: Seq<MessageModel>,
    message: MessageModel,
    content: Seq<char>,
    threshold: nat,
)
    requires
        message.content == Some(content),
        content.len() > 0,
        threshold > 0,
    ensures
        (forall|k: int| 0 <= k < messages.len() ==> !is_answer(#[trigger] messages[k], content))
            ==> !stuck(messages.push(message), threshold),
        stuck(messages.push(message), threshold) <==> messages.filter(
            |m: MessageModel| m.role == Role::Assistant && m.content == Some(content),
        ).len() >= threshold,
{
    let all = messages.push(message);
    assert(all.drop_last() =~= messages);
    if forall|k: int| 0 <= k < messages.len() ==> !is_answer(#[trigger] messages[k], content) {
        lemma_no_answers(messages, content);
    }
    lemma_answers_are(messages, content);
}

proof fn lemma_answers_are(messages: Seq<MessageModel>, content: Seq<char>)
    ensures
        answers(messages, content) == messages.filter(
            |m: MessageModel| m.role == Role::Assistant && m.content == Some(content),
        ).len(),
    decreases messages.len(),
{
    reveal(Seq::filter);
    if messages.len() > 0 {
        lemma_answers_are(messages.drop_last(), content);
    }
}

/// An agent that works in a directory is told of it.
pub proof fn law_agents_are_told_of_their_directory(kind: AgentKind, workspace: Seq<char>)
    requires
        kind != AgentKind::Mcp,
    ensures
        has_part(system_prompt(kind, workspace), workspace),
{
    let prompt = system_prompt(kind, workspace);
    let at = prompt.len() - "."@.len() - workspace.len();
    assert(prompt.subrange(at, at + workspace.len()) =~= workspace);
    assert(occurs_at(prompt, workspace, at));
}

/// A step can be marked if and only if one is under way and the plan has it.
pub proof fn law_steps_of_the_plan_can_be_marked(flow: PlanningFlow)
    ensures
        mark_fault(flow) is None <==> (flow.current_step_index matches Some(index) && (
        flow.plan() matches Some(plan) && index < plan.steps.len())),
{
}

} // verus!
