//! What is told of tasks: to the user, to another agent, and in the list of tasks.

use vstd::multiset::Multiset;
use vstd::prelude::*;

use super::demo::{
    asks_for_capabilities, asks_for_files, asks_for_search, asks_for_shell, asks_for_time,
    asks_for_writing, first_address, list_call, needed_calls, search_call, told_answer, told_result,
    write_call,
};
use super::lifecycle::{continue_fault, reply_to_agent, request_fault};
use super::startup::recent;
use super::records::{ResultModel, SummaryModel, TaskModel};
use super::task::{inserted_summary, summary_of};
use super::tool_run::{judged_arguments, pending_request};
use crate::coding::view_laws::{lemma_joined_has, lemma_part_at_end};
use crate::json::JsonModel;
use crate::json_model::{lemma_member_index_is, lemma_with_get, lemma_with_get_other};
use crate::text::{has_part, is_blank, joined, lowered, words};

verus! {

/// Whether the summaries stand with the latest first.
pub open spec fn latest_first(list: Seq<SummaryModel>) -> bool {
    forall|i: int, j: int|
        0 <= i < j < list.len() ==> (#[trigger] list[i]).updated_at >= (
        #[trigger] list[j]).updated_at
}

proof fn lemma_inserted_summary(list: Seq<SummaryModel>, summary: SummaryModel)
    requires
        latest_first(list),
    ensures
        latest_first(inserted_summary(list, summary)),
        inserted_summary(list, summary).to_multiset() == list.to_multiset().insert(summary),
    decreases list.len(),
{
    broadcast use vstd::seq_lib::group_to_multiset_ensures;

    let all = inserted_summary(list, summary);
    if list.len() > 0 && list.last().updated_at < summary.updated_at {
        let front = list.drop_last();
        lemma_inserted_summary(front, summary);
        let head = inserted_summary(front, summary);
        assert(front.push(list.last()) =~= list);
        assert(all.to_multiset() =~= list.to_multiset().insert(summary));
        assert forall|i: int, j: int| 0 <= i < j < all.len() implies (
        #[trigger] all[i]).updated_at >= (#[trigger] all[j]).updated_at by {
            if j == all.len() - 1 {
                assert(head.to_multiset().count(head[i]) > 0) by {
                    assert(head.contains(head[i]));
                }
                if head[i] != summary {
                    assert(front.to_multiset().count(head[i]) > 0);
                    assert(front.contains(head[i]));
                    let k = choose|k: int| 0 <= k < front.len() && front[k] == head[i];
                    assert(list[k].updated_at >= list[list.len() - 1].updated_at);
                }
            }
        }
    } else {
        assert forall|i: int, j: int| 0 <= i < j < all.len() implies (
        #[trigger] all[i]).updated_at >= (#[trigger] all[j]).updated_at by {
            if j == list.len() && i < list.len() - 1 {
                assert(list[i].updated_at >= list[list.len() - 1].updated_at);
            }
        }
    }
}

/// The summaries of the tasks that are present.
pub open spec fn present_summaries(
    tasks: Seq<TaskModel>,
    present: Seq<bool>,
) -> Multiset<SummaryModel>
    decreases tasks.len(),
{
    if tasks.len() == 0 || present.len() != tasks.len() {
        Multiset::empty()
    } else {
        let head = present_summaries(tasks.drop_last(), present.drop_last());
        if present.last() {
            head.insert(summary_of(tasks.last()))
        } else {
            head
        }
    }
}

/// Every task that is present is listed as often as it is there and no other is; the one that
/// changed last is the first.
pub proof fn law_tasks_that_are_present_are_listed(tasks: Seq<TaskModel>, present: Seq<bool>)
    requires
        present.len() == tasks.len(),
    ensures
        latest_first(recent(tasks, present)),
        recent(tasks, present).to_multiset() == present_summaries(tasks, present),
        forall|i: int|
            0 <= i < tasks.len() && present[i] ==> recent(tasks, present).contains(
                summary_of(#[trigger] tasks[i]),
            ),
    decreases tasks.len(),
{
    broadcast use vstd::seq_lib::group_to_multiset_ensures;

    let all = recent(tasks, present);
    if tasks.len() == 0 {
        assert(all.to_multiset() =~= Multiset::empty());
    } else {
        let front = tasks.drop_last();
        let marks = present.drop_last();
        law_tasks_that_are_present_are_listed(front, marks);
        let head = recent(front, marks);
        if present.last() {
            lemma_inserted_summary(head, summary_of(tasks.last()));
        }
        assert forall|i: int| 0 <= i < tasks.len() && present[i] implies all.contains(
            summary_of(#[trigger] tasks[i]),
        ) by {
            if i < front.len() {
                assert(front[i] == tasks[i] && marks[i] == present[i]);
                assert(head.contains(summary_of(front[i])));
                assert(head.to_multiset().count(summary_of(tasks[i])) > 0);
            }
            assert(all.to_multiset().count(summary_of(tasks[i])) > 0);
        }
    }
}

/// Another agent is answered once a task has ended and not before: by its answer where it was
/// completed, by its fault else.
pub proof fn law_agents_are_answered_at_the_end(t: TaskModel, text: Seq<char>)
    ensures
        reply_to_agent(t) is Some <==> t.status is Completed || t.status is Failed
            || t.status is Cancelled,
        (reply_to_agent(t) matches Some(reply) ==> (reply is Ok <==> t.status is Completed)),
        t.status is Completed && t.final_answer == Some(text) ==> reply_to_agent(t) == Some(
            Ok::<Seq<char>, Seq<char>>(text),
        ),
        t.status is Failed && t.error == Some(text) ==> reply_to_agent(t) == Some(
            Err::<Seq<char>, Seq<char>>(text),
        ),
{
}

/// A request is taken if and only if it asks for something and there is a key; a conversation goes
/// on if and only if nothing runs in it and it is not archived.
pub proof fn law_requests_are_taken_when_they_can_be(
    prompt: Seq<char>,
    files: nat,
    api_key: bool,
    running: bool,
    archived: bool,
)
    ensures
        request_fault(prompt, files, api_key) is None <==> (!is_blank(prompt) || files > 0)
            && api_key,
        continue_fault(running, archived) is None <==> !running && !archived,
{
}

/// The answer tells of every result.
pub proof fn law_answers_tell_every_result(results: Seq<(Seq<char>, ResultModel)>, i: int)
    requires
        0 <= i < results.len(),
    ensures
        has_part(told_answer(results), told_result(results[i].0, results[i].1)),
        (results[i].1.error matches Some(error) ==> has_part(told_answer(results), error)),
{
    let parts = results.map_values(|r: (Seq<char>, ResultModel)| told_result(r.0, r.1));
    let body = joined(parts, "\n"@);
    let lead = "The task is complete.\n\n"@;
    lemma_joined_has(parts, "\n"@, i);
    assert(parts[i] == told_result(results[i].0, results[i].1));
    lemma_inside(lead, body, parts[i]);
    assert(lead + body == told_answer(results));
    if let Some(error) = results[i].1.error {
        lemma_part_at_end(results[i].0 + " failed: "@, error);
        lemma_part_of_part(told_answer(results), parts[i], error);
    }
}

proof fn lemma_inside(lead: Seq<char>, body: Seq<char>, part: Seq<char>)
    requires
        has_part(body, part),
    ensures
        has_part(lead + body, part),
{
    lemma_part_at_end(lead, body);
    lemma_part_of_part(lead + body, body, part);
}

proof fn lemma_part_of_part(all: Seq<char>, middle: Seq<char>, part: Seq<char>)
    requires
        has_part(all, middle),
        has_part(middle, part),
    ensures
        has_part(all, part),
{
    let i = choose|i: int| crate::text::occurs_at(all, middle, i);
    let j = choose|j: int| crate::text::occurs_at(middle, part, j);
    assert(all.subrange(i + j, i + j + part.len()) =~= all.subrange(
        i,
        i + middle.len(),
    ).subrange(j, j + part.len()));
    assert(crate::text::occurs_at(all, part, i + j));
}

/// A command is judged with the directory in which it runs, and all else that it is called with is
/// judged as it is.
pub proof fn law_commands_are_judged_where_they_run(
    name: Seq<char>,
    arguments: JsonModel,
    cwd: Seq<char>,
    key: Seq<char>,
)
    requires
        arguments is Object,
        key != "cwd"@,
    ensures
        name == "rust_bash"@ || name == "rust_sandbox_shell"@ ==> judged_arguments(
            name,
            arguments,
            Some(cwd),
        ).text("cwd"@) == Some(cwd),
        judged_arguments(name, arguments, Some(cwd)).get(key) == arguments.get(key),
        judged_arguments(name, arguments, None) == arguments,
        name != "rust_bash"@ && name != "rust_sandbox_shell"@ ==> judged_arguments(
            name,
            arguments,
            Some(cwd),
        ) == arguments,
{
    lemma_with_get(arguments, "cwd"@, JsonModel::Str(cwd));
    lemma_with_get_other(arguments, "cwd"@, JsonModel::Str(cwd), key);
}

/// What is asked of the user names the task, the tool and the reason, waits for an answer, and can
/// be remembered if and only if there is a rule to remember.
pub proof fn law_approval_is_asked_for_what_waits(
    id: Seq<char>,
    task_id: Seq<char>,
    tool_name: Seq<char>,
    reason: Seq<char>,
    details: Seq<char>,
    rule: Option<(Seq<char>, Seq<char>)>,
    at: i64,
)
    ensures
        ({
            let asked = pending_request(id, task_id, tool_name, reason, details, rule, at);
            &&& asked.task_id == task_id
            &&& asked.tool_name == tool_name
            &&& asked.reason == reason
            &&& asked.details == details
            &&& asked.status == "pending"@
            &&& asked.rememberable == (rule is Some)
            &&& (rule matches Some((action, pattern)) ==> asked.remember_action == Some(action)
                && asked.remember_pattern == Some(pattern))
        }),
{
}

/// Every tool that a request asks for is called, and no other is; nothing is called where it asks
/// what can be done.
pub proof fn law_demo_calls_what_is_asked_for(prompt: Seq<char>)
    ensures
        ({
            let calls = needed_calls(prompt);
            let lower = lowered(prompt);
            let asks = !asks_for_capabilities(lower);
            &&& asks && asks_for_time(lower) ==> calls_tool(calls, "rust_clock"@)
            &&& asks && asks_for_files(lower) ==> calls.contains(list_call())
            &&& asks && asks_for_search(lower) ==> calls.contains(search_call(prompt))
            &&& asks && asks_for_shell(lower) ==> calls_tool(calls, "rust_shell"@)
            &&& asks && asks_for_writing(lower) ==> calls.contains(write_call())
            &&& asks && first_address(words(prompt)) is Some ==> calls_tool(calls, "rust_http"@)
            &&& !asks ==> calls.len() == 0
        }),
        search_call(prompt).1.text("query"@) == Some(prompt),
{
    let lower = lowered(prompt);
    let calls = needed_calls(prompt);
    let search = search_call(prompt);
    lemma_member_index_is(search.1->Object_0, "query"@, 0);
    if !asks_for_capabilities(lower) {
        let time: int = if asks_for_time(lower) {
            1
        } else {
            0
        };
        let files: int = if asks_for_files(lower) {
            time + 1
        } else {
            time
        };
        let page: int = if first_address(words(prompt)) is Some {
            files + 1
        } else {
            files
        };
        let found: int = if asks_for_search(lower) {
            page + 1
        } else {
            page
        };
        let shell: int = if asks_for_shell(lower) {
            found + 1
        } else {
            found
        };
        if asks_for_time(lower) {
            assert(calls[0].0 == "rust_clock"@);
        }
        if asks_for_files(lower) {
            assert(calls[time] == list_call());
        }
        if first_address(words(prompt)) is Some {
            assert(calls[files].0 == "rust_http"@);
        }
        if asks_for_search(lower) {
            assert(calls[page] == search);
        }
        if asks_for_shell(lower) {
            assert(calls[found].0 == "rust_shell"@);
        }
        if asks_for_writing(lower) {
            assert(calls[shell] == write_call());
        }
    }
}

/// Whether a tool is among those that are called.
pub open spec fn calls_tool(calls: Seq<(Seq<char>, JsonModel)>, name: Seq<char>) -> bool {
    exists|i: int| 0 <= i < calls.len() && (#[trigger] calls[i]).0 == name
}

} // verus!
