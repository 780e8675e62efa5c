//! What the end of a turn leaves behind, which calls are made beside others, and what of an entry
//! stays where it is shortened.

use vstd::prelude::*;

use super::compaction::{
    reduced_entry, summarized_entry, REDUCED_KEEP_CHARS, SUMMARY_KEEP_CHARS,
};
use super::events::{AgentLifecycle, LifecycleState, TurnEndReason};
use super::scheduler::parallel_safe;
use super::surface::compacted;
use crate::json::{num, JsonModel};
use crate::json_model::lemma_member_index_is;
use crate::memory::is_tool;
use crate::models::EntryModel;
use crate::text::{begins_with, finishes_with, lowered};

verus! {

/// The end of a turn is the last of its events and comes once; the step that was open is ended
/// before it, and none other is.
pub proof fn law_turns_end_once_and_with_their_step(turn: AgentLifecycle, reason: TurnEndReason)
    ensures
        ({
            let events = turn.end_events(reason);
            &&& events.len() > 0
            &&& events.last().kind == "turn_end"@
            &&& forall|i: int|
                0 <= i < events.len() - 1 ==> (#[trigger] events[i]).kind != "turn_end"@
            &&& forall|i: int|
                0 <= i < events.len() ==> (#[trigger] events[i]).step == turn.step
            &&& (turn.open_step is None ==> forall|i: int|
                0 <= i < events.len() ==> (#[trigger] events[i]).kind != "step_end"@)
            &&& (turn.open_step matches Some(step) ==> exists|i: int|
                0 <= i < events.len() && (#[trigger] events[i]).kind == "step_end"@
                    && events[i].payload.get("step"@) == Some(num(step as nat)))
            &&& (turn.lifecycle_state != LifecycleState::Idle ==> events.len() >= 2
                && events[events.len() - 2].kind == "lifecycle_state"@
                && events[events.len() - 2].payload.text("state"@) == Some("idle"@))
        }),
{
    reveal_strlit("turn_end");
    reveal_strlit("step_end");
    reveal_strlit("lifecycle_state");
    assert("turn_end"@[0] == 't' && "step_end"@[0] == 's' && "lifecycle_state"@[0] == 'l');
    let events = turn.end_events(reason);
    if let Some(step) = turn.open_step {
        let at: int = if turn.lifecycle_state == LifecycleState::Maintenance {
            1
        } else {
            0
        };
        let members = seq![
            ("step"@, num(step as nat)),
            ("reason"@, JsonModel::Str("turn_end"@)),
        ];
        lemma_member_index_is(members, "step"@, 0);
        assert(events[at].payload == JsonModel::Object(members));
        assert(events[at].kind == "step_end"@);
    }
    if turn.lifecycle_state != LifecycleState::Idle {
        let idle = events[events.len() - 2];
        lemma_member_index_is(idle.payload->Object_0, "state"@, 0);
    }
}

/// A request that may change something, a command, and what writes a file are never made beside
/// others.
pub proof fn law_what_changes_something_is_done_alone(name: Seq<char>, arguments: JsonModel)
    ensures
        name == "rust_http"@ && parallel_safe(name, arguments) ==> lowered(
            arguments.text_or("method"@, "GET"@),
        ) == lowered("GET"@),
        name == "rust_bash"@ || name == "rust_shell"@ || name == "rust_python"@ ==> !parallel_safe(
            name,
            arguments,
        ),
        (name == "rust_files"@ || name == "rust_sandbox_files"@) && (arguments.text("operation"@)
            == Some("write"@) || arguments.text("operation"@) == Some("delete"@))
            ==> !parallel_safe(name, arguments),
        name == "rust_code"@ && (arguments.text("operation"@) == Some("patch"@) || arguments.text(
            "operation"@,
        ) == Some("edit"@) || arguments.text("operation"@) == Some("write"@)) ==> !parallel_safe(
            name,
            arguments,
        ),
        name == "rust_code"@ && arguments.text("operation"@) == Some("grep"@) ==> parallel_safe(
            name,
            arguments,
        ),
        name == "rust_files"@ && arguments.text("operation"@) == Some("read"@) ==> parallel_safe(
            name,
            arguments,
        ),
{
    reveal_strlit("rust_http");
    reveal_strlit("rust_bash");
    reveal_strlit("rust_shell");
    reveal_strlit("rust_python");
    reveal_strlit("rust_files");
    reveal_strlit("rust_sandbox_files");
    reveal_strlit("rust_code");
    reveal_strlit("rust_clock");
    reveal_strlit("rust_web_search");
    reveal_strlit("rust_crawl4ai");
    reveal_strlit("rust_data_analysis");
    reveal_strlit("rust_sandbox_vision");
    reveal_strlit("read");
    reveal_strlit("list");
    reveal_strlit("glob");
    reveal_strlit("grep");
    reveal_strlit("status");
    reveal_strlit("diff");
    reveal_strlit("exists");
    reveal_strlit("write");
    reveal_strlit("delete");
    reveal_strlit("patch");
    reveal_strlit("edit");
    assert("rust_http"@.len() == 9 && "rust_bash"@.len() == 9 && "rust_shell"@.len() == 10
        && "rust_python"@.len() == 11 && "rust_files"@.len() == 10 && "rust_sandbox_files"@.len()
        == 18 && "rust_code"@.len() == 9 && "rust_clock"@.len() == 10 && "rust_web_search"@.len()
        == 15 && "rust_crawl4ai"@.len() == 13 && "rust_data_analysis"@.len() == 18
        && "rust_sandbox_vision"@.len() == 19);
    assert("rust_http"@[5] == 'h' && "rust_bash"@[5] == 'b' && "rust_code"@[5] == 'c'
        && "rust_shell"@[5] == 's' && "rust_files"@[5] == 'f' && "rust_clock"@[5] == 'c'
        && "rust_sandbox_files"@[5] == 's' && "rust_data_analysis"@[5] == 'd');
    assert("read"@.len() == 4 && "list"@.len() == 4 && "glob"@.len() == 4 && "grep"@.len() == 4
        && "status"@.len() == 6 && "diff"@.len() == 4 && "exists"@.len() == 6 && "write"@.len() == 5
        && "delete"@.len() == 6 && "patch"@.len() == 5 && "edit"@.len() == 4);
    assert("edit"@[0] == 'e' && "read"@[0] == 'r' && "list"@[0] == 'l' && "glob"@[0] == 'g'
        && "grep"@[0] == 'g' && "diff"@[0] == 'd' && "delete"@[0] == 'd' && "exists"@[0] == 'e'
        && "status"@[0] == 's');
}

/// Entries that are made ready for a summary, or made smaller, keep what was said in them; a long
/// result keeps its beginning and its end, and one that is not long is kept whole.
pub proof fn law_entries_are_shortened_in_their_middle(entry: EntryModel)
    ensures
        !is_tool(entry) ==> summarized_entry(entry).content == entry.content && reduced_entry(
            entry,
        ).content == entry.content,
        entry.content.len() <= 2 * SUMMARY_KEEP_CHARS ==> summarized_entry(entry).content
            == entry.content,
        entry.content.len() <= 2 * REDUCED_KEEP_CHARS ==> reduced_entry(entry).content
            == entry.content,
        entry.content.len() > 2 * SUMMARY_KEEP_CHARS ==> begins_with(
            summarized_entry(entry).content,
            entry.content.take(SUMMARY_KEEP_CHARS as int),
        ) && finishes_with(
            summarized_entry(entry).content,
            entry.content.skip(entry.content.len() - SUMMARY_KEEP_CHARS),
        ),
        entry.content.len() > 2 * REDUCED_KEEP_CHARS ==> begins_with(
            reduced_entry(entry).content,
            entry.content.take(REDUCED_KEEP_CHARS as int),
        ) && finishes_with(
            reduced_entry(entry).content,
            entry.content.skip(entry.content.len() - REDUCED_KEEP_CHARS),
        ),
        summarized_entry(entry).id == entry.id,
        reduced_entry(entry).id == entry.id,
        summarized_entry(entry).role == entry.role,
        reduced_entry(entry).role == entry.role,
        summarized_entry(entry).tool_calls == entry.tool_calls,
        reduced_entry(entry).tool_calls == entry.tool_calls,
        summarized_entry(entry).tool_call_id == entry.tool_call_id,
        reduced_entry(entry).tool_call_id == entry.tool_call_id,
{
    if entry.content.len() > 2 * SUMMARY_KEEP_CHARS {
        lemma_kept_ends(entry.content, SUMMARY_KEEP_CHARS as nat);
    }
    if entry.content.len() > 2 * REDUCED_KEEP_CHARS {
        lemma_kept_ends(entry.content, REDUCED_KEEP_CHARS as nat);
    }
}

proof fn lemma_kept_ends(text: Seq<char>, keep: nat)
    requires
        text.len() > 2 * keep,
    ensures
        begins_with(compacted(text, keep, keep), text.take(keep as int)),
        finishes_with(compacted(text, keep, keep), text.skip(text.len() - keep)),
        begins_with(text, text.take(keep as int)),
        finishes_with(text, text.skip(text.len() - keep)),
{
    let short = compacted(text, keep, keep);
    assert(short.take(keep as int) =~= text.take(keep as int));
    assert(short.skip(short.len() - keep) =~= text.skip(text.len() - keep));
}

} // verus!
