//! What an agent remembers of a task, made fit to be sent to a model.
//!
//! A chat protocol accepts a conversation only where each tool call of the assistant is followed
//! by its result. A run that was interrupted, or that was recorded by an older version, may
//! leave a memory that breaks this rule. `normalize_memory_entries` repairs such a memory, and
//! `trim_memory_to_budget` shortens one without breaking it.

use vstd::prelude::*;

use crate::agent::{same_calls, MessageToolCall, ToolCallModel};
use crate::deep::{copy_all, deep, group_deep, one};
use crate::ids::{is_id, new_id, now};
use crate::models::{copy_entries, same_entries, AgentMemoryEntry, EntryModel};
use crate::text::{
    begins_with, blank, contains_text, is_blank, is_some_text, same, starts_with,
};

verus! {

broadcast use group_deep;

/// How many entries an agent's memory keeps.
pub const MAX_MEMORY_ENTRIES: usize = 100;

/// Text before the tool's name in the entry that stands for a missing result.
pub const RECOVERED_PREFIX: &'static str =
    "[RustPilot] No result was recorded for the previous `";

/// Text behind the tool's name in the entry that stands for a missing result.
pub const RECOVERED_SUFFIX: &'static str =
    "` call because that run ended before the tool completed. Treat it as unsuccessful and continue from the available evidence.";

pub open spec fn is_user(entry: EntryModel) -> bool {
    entry.role == "user"@
}

pub open spec fn is_assistant(entry: EntryModel) -> bool {
    entry.role == "assistant"@
}

pub open spec fn is_tool(entry: EntryModel) -> bool {
    entry.role == "tool"@
}

/// The three roles are different.
pub broadcast proof fn lemma_roles_differ(entry: EntryModel)
    ensures
        #![trigger is_user(entry)]
        #![trigger is_assistant(entry)]
        #![trigger is_tool(entry)]
        !(is_user(entry) && is_assistant(entry)),
        !(is_user(entry) && is_tool(entry)),
        !(is_assistant(entry) && is_tool(entry)),
{
    reveal_strlit("user");
    reveal_strlit("assistant");
    reveal_strlit("tool");
    assert("user"@[0] == 'u');
    assert("assistant"@[0] == 'a');
    assert("tool"@[0] == 't');
}

// ---- what normalising does ----

/// Whether one of the calls has the identifier `id`.
pub open spec fn has_call(calls: Seq<ToolCallModel>, id: Seq<char>) -> bool {
    exists|k: int| 0 <= k < calls.len() && (#[trigger] calls[k]).id == id
}

/// The calls that can be answered: each has an identifier and a name, and of the calls with one
/// identifier only the first counts.
pub open spec fn valid_calls(calls: Seq<ToolCallModel>) -> Seq<ToolCallModel>
    decreases calls.len(),
{
    if calls.len() == 0 {
        Seq::empty()
    } else {
        let kept = valid_calls(calls.drop_last());
        let call = calls.last();
        if is_blank(call.id) || is_blank(call.name) || has_call(kept, call.id) {
            kept
        } else {
            kept.push(call)
        }
    }
}

/// Where the tool results that begin at `i` end.
pub open spec fn tools_end(entries: Seq<EntryModel>, i: int) -> int
    decreases entries.len() - i,
{
    if 0 <= i < entries.len() && is_tool(entries[i]) {
        tools_end(entries, i + 1)
    } else {
        i
    }
}

pub open spec fn matches_id(entry: EntryModel, call: ToolCallModel) -> bool {
    entry.tool_call_id == Some(call.id)
}

pub open spec fn matches_name(entry: EntryModel, call: ToolCallModel) -> bool {
    entry.name == Some(call.name) || entry.tool_names.contains(call.name)
}

/// The first result from `i` on that is not used and satisfies `fits`; the number of results
/// where there is none.
pub open spec fn first_unused(
    results: Seq<EntryModel>,
    used: Seq<bool>,
    fits: spec_fn(EntryModel) -> bool,
    i: int,
) -> int
    decreases results.len() - i,
{
    if i >= results.len() {
        results.len() as int
    } else if !used[i] && fits(results[i]) {
        i
    } else {
        first_unused(results, used, fits, i + 1)
    }
}

/// Which result answers `call`: the first unused one with its identifier, else the first unused
/// one with its name, else, where there are as many results as calls, the first unused one.
pub open spec fn pick(
    results: Seq<EntryModel>,
    used: Seq<bool>,
    call: ToolCallModel,
    complete: bool,
) -> Option<int> {
    let by_id = first_unused(results, used, |e: EntryModel| matches_id(e, call), 0);
    let by_name = first_unused(results, used, |e: EntryModel| matches_name(e, call), 0);
    let by_place = first_unused(results, used, |e: EntryModel| true, 0);
    if by_id < results.len() {
        Some(by_id)
    } else if by_name < results.len() {
        Some(by_name)
    } else if complete && by_place < results.len() {
        Some(by_place)
    } else {
        None
    }
}

/// What stands at one place of a normalised memory: an entry that was there, or a stand-in for
/// the result of a call.
pub enum Slot {
    Kept(EntryModel),
    Recovered(ToolCallModel),
}

/// The stand-in for the result of `call`, but for its identifier and its time.
pub open spec fn recovered_entry(id: Seq<char>, call: ToolCallModel, created_at: i64) -> EntryModel {
    EntryModel {
        id,
        role: "tool"@,
        content: RECOVERED_PREFIX@ + call.name + RECOVERED_SUFFIX@,
        reasoning: Seq::empty(),
        reasoning_opaque: None,
        created_at,
        tool_call_id: Some(call.id),
        tool_names: seq![call.name],
        tool_calls: Seq::empty(),
        name: Some(call.name),
        base64_image: None,
        attachments: Seq::empty(),
    }
}

/// Whether `entry` may stand at the place `slot`.
pub open spec fn fits(entry: EntryModel, slot: Slot) -> bool {
    match slot {
        Slot::Kept(kept) => entry == kept,
        Slot::Recovered(call) => entry == recovered_entry(entry.id, call, entry.created_at)
            && is_id(entry.id, "memory"@),
    }
}

/// Whether the entries may stand at the places `slots`.
pub open spec fn fit_all(entries: Seq<EntryModel>, slots: Seq<Slot>) -> bool {
    &&& entries.len() == slots.len()
    &&& forall|i: int| 0 <= i < entries.len() ==> fits(#[trigger] entries[i], slots[i])
}

/// The slot of a result that answers `call`.
pub open spec fn answer_slot(results: Seq<EntryModel>, picked: Option<int>, call: ToolCallModel) -> Slot {
    match picked {
        Some(k) => Slot::Kept(EntryModel { tool_call_id: Some(call.id), ..results[k] }),
        None => Slot::Recovered(call),
    }
}

/// The results that are used once `picked` is.
pub open spec fn use_result(used: Seq<bool>, picked: Option<int>) -> Seq<bool> {
    match picked {
        Some(k) => used.update(k, true),
        None => used,
    }
}

/// The answers to the calls from `j` on, one for each.
pub open spec fn answers(
    calls: Seq<ToolCallModel>,
    results: Seq<EntryModel>,
    used: Seq<bool>,
    j: int,
) -> Seq<Slot>
    decreases calls.len() - j,
{
    if j >= calls.len() {
        Seq::empty()
    } else {
        let picked = pick(results, used, calls[j], results.len() == calls.len());
        seq![answer_slot(results, picked, calls[j])] + answers(
            calls,
            results,
            use_result(used, picked),
            j + 1,
        )
    }
}

/// Whether answering the calls from `j` on repairs something: a result is missing, has another
/// identifier than its call, or is left over.
pub open spec fn answers_change(
    calls: Seq<ToolCallModel>,
    results: Seq<EntryModel>,
    used: Seq<bool>,
    j: int,
) -> bool
    decreases calls.len() - j,
{
    if j >= calls.len() {
        exists|k: int| 0 <= k < used.len() && !#[trigger] used[k]
    } else {
        let picked = pick(results, used, calls[j], results.len() == calls.len());
        (match picked {
            Some(k) => !matches_id(results[k], calls[j]),
            None => true,
        }) || answers_change(calls, results, use_result(used, picked), j + 1)
    }
}

/// No result is used yet.
pub open spec fn none_used(n: nat) -> Seq<bool> {
    Seq::new(n, |i: int| false)
}

/// The normalised memory from the entry `i` on. The user's entries stay. An entry of the
/// assistant keeps its valid calls, and the results behind it are put in the order of these
/// calls. Everything else is left out.
pub open spec fn normalized_from(entries: Seq<EntryModel>, i: int) -> Seq<Slot>
    decreases entries.len() - i,
{
    if i < 0 || i >= entries.len() {
        Seq::empty()
    } else if is_user(entries[i]) {
        seq![Slot::Kept(entries[i])] + normalized_from(entries, i + 1)
    } else if is_assistant(entries[i]) {
        let calls = valid_calls(entries[i].tool_calls);
        let kept = seq![Slot::Kept(EntryModel { tool_calls: calls, ..entries[i] })];
        if calls.len() == 0 {
            kept + normalized_from(entries, i + 1)
        } else {
            let end = tools_end(entries, i + 1);
            if end <= i || end > entries.len() {
                Seq::empty()
            } else {
                let results = entries.subrange(i + 1, end);
                kept + answers(calls, results, none_used(results.len()), 0) + normalized_from(
                    entries,
                    end,
                )
            }
        }
    } else {
        normalized_from(entries, i + 1)
    }
}

/// Whether normalising the entries from `i` on repairs something.
pub open spec fn normalizing_changes(entries: Seq<EntryModel>, i: int) -> bool
    decreases entries.len() - i,
{
    if i < 0 || i >= entries.len() {
        false
    } else if is_user(entries[i]) {
        normalizing_changes(entries, i + 1)
    } else if is_assistant(entries[i]) {
        let calls = valid_calls(entries[i].tool_calls);
        if calls.len() == 0 {
            calls != entries[i].tool_calls || normalizing_changes(entries, i + 1)
        } else {
            let end = tools_end(entries, i + 1);
            if end <= i || end > entries.len() {
                false
            } else {
                let results = entries.subrange(i + 1, end);
                calls != entries[i].tool_calls || answers_change(
                    calls,
                    results,
                    none_used(results.len()),
                    0,
                ) || normalizing_changes(entries, end)
            }
        }
    } else {
        true
    }
}

pub proof fn lemma_tools_end(entries: Seq<EntryModel>, i: int)
    requires
        0 <= i <= entries.len(),
    ensures
        i <= tools_end(entries, i) <= entries.len(),
        forall|k: int| i <= k < tools_end(entries, i) ==> is_tool(#[trigger] entries[k]),
        tools_end(entries, i) < entries.len() ==> !is_tool(entries[tools_end(entries, i)]),
    decreases entries.len() - i,
{
    if i < entries.len() && is_tool(entries[i]) {
        lemma_tools_end(entries, i + 1);
    }
}

proof fn lemma_first_unused(
    results: Seq<EntryModel>,
    used: Seq<bool>,
    fits: spec_fn(EntryModel) -> bool,
    i: int,
)
    requires
        0 <= i <= results.len(),
    ensures
        i <= first_unused(results, used, fits, i) <= results.len(),
        first_unused(results, used, fits, i) < results.len() ==> !used[first_unused(
            results,
            used,
            fits,
            i,
        )] && fits(results[first_unused(results, used, fits, i)]),
    decreases results.len() - i,
{
    if i < results.len() && (used[i] || !fits(results[i])) {
        lemma_first_unused(results, used, fits, i + 1);
    }
}

/// A picked result is there, and was not used before.
pub proof fn lemma_pick(
    results: Seq<EntryModel>,
    used: Seq<bool>,
    call: ToolCallModel,
    complete: bool,
)
    ensures
        pick(results, used, call, complete) matches Some(k) ==> 0 <= k < results.len() && !used[k],
{
    lemma_first_unused(results, used, |e: EntryModel| matches_id(e, call), 0);
    lemma_first_unused(results, used, |e: EntryModel| matches_name(e, call), 0);
    lemma_first_unused(results, used, |e: EntryModel| true, 0);
}

// ---- normalising ----

/// Whether one of the calls has the identifier `id`.
fn id_taken(calls: &Vec<MessageToolCall>, id: &str) -> (r: bool)
    ensures
        r == has_call(deep(calls@), id@),
{
    let mut i: usize = 0;
    while i < calls.len()
        invariant
            i <= calls@.len(),
            forall|k: int| 0 <= k < i ==> (#[trigger] deep(calls@)[k]).id != id@,
        decreases calls@.len() - i,
    {
        if same(&calls[i].id, id) {
            proof {
                assert(deep(calls@)[i as int].id == id@);
            }
            return true;
        }
        i += 1;
    }
    false
}

/// The calls that can be answered.
pub fn keep_valid_calls(calls: &Vec<MessageToolCall>) -> (r: Vec<MessageToolCall>)
    ensures
        deep(r@) == valid_calls(deep(calls@)),
{
    let mut r: Vec<MessageToolCall> = Vec::new();
    let mut i: usize = 0;
    while i < calls.len()
        invariant
            i <= calls@.len(),
            deep(r@) == valid_calls(deep(calls@).take(i as int)),
        decreases calls@.len() - i,
    {
        let call = &calls[i];
        if !(blank(&call.id) || blank(&call.function.name) || id_taken(&r, &call.id)) {
            r.push(call.clone());
        }
        i += 1;
        proof {
            assert(deep(calls@).take(i as int).drop_last() =~= deep(calls@).take(i - 1));
            assert(deep(calls@).take(i as int).last() == call.deep_view());
        }
    }
    proof {
        assert(deep(calls@).take(calls@.len() as int) =~= deep(calls@));
    }
    r
}

/// The entry that stands for the result of `call`, whose run ended before there was one.
pub fn recovered_tool_result(call: &MessageToolCall) -> (r: AgentMemoryEntry)
    ensures
        fits(r.deep_view(), Slot::Recovered(call.deep_view())),
{
    let id = new_id("memory");
    recovered_tool_result_at(call, id, now())
}

/// The entry that stands for the result of `call`, with a given identifier and time.
pub fn recovered_tool_result_at(call: &MessageToolCall, id: String, created_at: i64) -> (r:
    AgentMemoryEntry)
    ensures
        r.deep_view() == recovered_entry(id@, call.deep_view(), created_at),
{
    let mut content = RECOVERED_PREFIX.to_owned();
    content.append(&call.function.name);
    content.append(RECOVERED_SUFFIX);
    AgentMemoryEntry {
        id,
        role: "tool".to_owned(),
        content,
        reasoning: String::new(),
        reasoning_opaque: None,
        created_at,
        tool_call_id: Some(call.id.clone()),
        tool_names: one(call.function.name.clone()),
        tool_calls: Vec::new(),
        name: Some(call.function.name.clone()),
        base64_image: None,
        attachments: Vec::new(),
    }
}

/// Which of the results `entries[from..to]` answers `call`.
fn pick_result(
    entries: &[AgentMemoryEntry],
    from: usize,
    to: usize,
    used: &Vec<bool>,
    call: &MessageToolCall,
    complete: bool,
) -> (r: Option<usize>)
    requires
        from <= to <= entries@.len(),
        used@.len() == to - from,
    ensures
        match r {
            Some(k) => k < to - from && pick(
                deep(entries@).subrange(from as int, to as int),
                used@,
                call.deep_view(),
                complete,
            ) == Some(k as int),
            None => pick(
                deep(entries@).subrange(from as int, to as int),
                used@,
                call.deep_view(),
                complete,
            ) is None,
        },
{
    let ghost results = deep(entries@).subrange(from as int, to as int);
    let ghost model = call.deep_view();
    let ghost id_fits = |e: EntryModel| matches_id(e, model);
    let ghost name_fits = |e: EntryModel| matches_name(e, model);
    let ghost any_fits = |e: EntryModel| true;
    let n: usize = to - from;
    let mut i: usize = 0;
    while i < n
        invariant
            i <= n,
            n == to - from,
            from <= to <= entries@.len(),
            used@.len() == n,
            results == deep(entries@).subrange(from as int, to as int),
            model == call.deep_view(),
            id_fits == (|e: EntryModel| matches_id(e, model)),
            first_unused(results, used@, id_fits, 0) == first_unused(
                results,
                used@,
                id_fits,
                i as int,
            ),
        decreases n - i,
    {
        if !used[i] && is_some_text(&entries[from + i].tool_call_id, &call.id) {
            return Some(i);
        }
        i += 1;
    }
    let mut j: usize = 0;
    while j < n
        invariant
            j <= n,
            n == to - from,
            from <= to <= entries@.len(),
            used@.len() == n,
            results == deep(entries@).subrange(from as int, to as int),
            model == call.deep_view(),
            id_fits == (|e: EntryModel| matches_id(e, model)),
            name_fits == (|e: EntryModel| matches_name(e, model)),
            first_unused(results, used@, id_fits, 0) == n,
            first_unused(results, used@, name_fits, 0) == first_unused(
                results,
                used@,
                name_fits,
                j as int,
            ),
        decreases n - j,
    {
        if !used[j] && (is_some_text(&entries[from + j].name, &call.function.name)
            || contains_text(&entries[from + j].tool_names, &call.function.name)) {
            return Some(j);
        }
        j += 1;
    }
    if complete {
        let mut k: usize = 0;
        while k < n
            invariant
                k <= n,
                complete,
                n == to - from,
                from <= to <= entries@.len(),
                used@.len() == n,
                results == deep(entries@).subrange(from as int, to as int),
                model == call.deep_view(),
                id_fits == (|e: EntryModel| matches_id(e, model)),
                name_fits == (|e: EntryModel| matches_name(e, model)),
                any_fits == (|e: EntryModel| true),
                first_unused(results, used@, id_fits, 0) == n,
                first_unused(results, used@, name_fits, 0) == n,
                first_unused(results, used@, any_fits, 0) == first_unused(
                    results,
                    used@,
                    any_fits,
                    k as int,
                ),
            decreases n - k,
        {
            if !used[k] {
                return Some(k);
            }
            k += 1;
        }
    }
    None
}

/// Answers the calls with the results `entries[from..to]`, one for each call.
fn answer_calls(
    calls: &Vec<MessageToolCall>,
    entries: &[AgentMemoryEntry],
    from: usize,
    to: usize,
) -> (r: (Vec<AgentMemoryEntry>, bool))
    requires
        from <= to <= entries@.len(),
    ensures
        fit_all(
            deep(r.0@),
            answers(
                deep(calls@),
                deep(entries@).subrange(from as int, to as int),
                none_used((to - from) as nat),
                0,
            ),
        ),
        r.1 == answers_change(
            deep(calls@),
            deep(entries@).subrange(from as int, to as int),
            none_used((to - from) as nat),
            0,
        ),
{
    let ghost results = deep(entries@).subrange(from as int, to as int);
    let ghost models = deep(calls@);
    let ghost start = none_used((to - from) as nat);
    let n: usize = to - from;
    let mut used: Vec<bool> = Vec::new();
    let mut u: usize = 0;
    while u < n
        invariant
            u <= n,
            used@ == none_used(u as nat),
        decreases n - u,
    {
        used.push(false);
        u += 1;
        proof {
            assert(used@ =~= none_used(u as nat));
        }
    }
    let complete = n == calls.len();
    let mut out: Vec<AgentMemoryEntry> = Vec::new();
    let mut changed = false;
    let ghost mut done: Seq<Slot> = Seq::empty();
    let mut j: usize = 0;
    proof {
        assert(done + answers(models, results, used@, 0) =~= answers(models, results, start, 0));
    }
    while j < calls.len()
        invariant
            j <= calls@.len(),
            n == to - from,
            from <= to <= entries@.len(),
            complete == (n == calls@.len()),
            used@.len() == n,
            results == deep(entries@).subrange(from as int, to as int),
            models == deep(calls@),
            done + answers(models, results, used@, j as int) == answers(models, results, start, 0),
            fit_all(deep(out@), done),
            answers_change(models, results, start, 0) == (changed || answers_change(
                models,
                results,
                used@,
                j as int,
            )),
        decreases calls@.len() - j,
    {
        let call = &calls[j];
        let ghost before = used@;
        let picked = pick_result(entries, from, to, &used, call, complete);
        let ghost slot = answer_slot(
            results,
            pick(results, before, models[j as int], complete),
            models[j as int],
        );
        let ghost rest = answers(
            models,
            results,
            use_result(before, pick(results, before, models[j as int], complete)),
            j + 1,
        );
        proof {
            assert(answers(models, results, before, j as int) == seq![slot] + rest);
            assert(done + (seq![slot] + rest) =~= done.push(slot) + rest);
        }
        let ghost out_before = deep(out@);
        match picked {
            Some(k) => {
                used.set(k, true);
                let mut result = entries[from + k].clone();
                if !is_some_text(&result.tool_call_id, &call.id) {
                    changed = true;
                }
                result.tool_call_id = Some(call.id.clone());
                proof {
                    assert(result.deep_view() == (EntryModel {
                        tool_call_id: Some(models[j as int].id),
                        ..results[k as int]
                    }));
                }
                out.push(result);
            },
            None => {
                out.push(recovered_tool_result(call));
                changed = true;
            },
        }
        proof {
            assert(deep(out@) == out_before.push(deep(out@).last()));
            done = done.push(slot);
        }
        j += 1;
    }
    proof {
        assert(done + Seq::<Slot>::empty() =~= done);
    }
    let mut k: usize = 0;
    while k < n && used[k]
        invariant
            k <= n,
            used@.len() == n,
            forall|i: int| 0 <= i < k ==> #[trigger] used@[i],
        decreases n - k,
    {
        k += 1;
    }
    if k < n {
        proof {
            assert(!used@[k as int]);
        }
        changed = true;
    }
    (out, changed)
}

/// Repairs a memory, so that each tool call is followed by its result. Also says whether there
/// was something to repair.
pub fn normalize_memory_entries(entries: &[AgentMemoryEntry]) -> (r: (Vec<AgentMemoryEntry>, bool))
    ensures
        fit_all(deep(r.0@), normalized_from(deep(entries@), 0)),
        r.1 == normalizing_changes(deep(entries@), 0),
{
    let ghost models = deep(entries@);
    let mut out: Vec<AgentMemoryEntry> = Vec::new();
    let mut changed = false;
    let ghost mut done: Seq<Slot> = Seq::empty();
    let mut index: usize = 0;
    proof {
        assert(done + normalized_from(models, 0) =~= normalized_from(models, 0));
    }
    while index < entries.len()
        invariant
            index <= entries@.len(),
            models == deep(entries@),
            done + normalized_from(models, index as int) == normalized_from(models, 0),
            fit_all(deep(out@), done),
            normalizing_changes(models, 0) == (changed || normalizing_changes(
                models,
                index as int,
            )),
        decreases entries@.len() - index,
    {
        let entry = &entries[index];
        let ghost model = models[index as int];
        let ghost out_before = deep(out@);
        let ghost at = index as int;
        proof {
            assert(model == entry.deep_view());
            lemma_roles_differ(model);
        }
        if same(&entry.role, "user") {
            out.push(entry.clone());
            proof {
                let slot = Slot::Kept(model);
                let rest = normalized_from(models, at + 1);
                assert(done + (seq![slot] + rest) =~= done.push(slot) + rest);
                assert(deep(out@) == out_before.push(model));
                done = done.push(slot);
            }
            index += 1;
        } else if same(&entry.role, "assistant") {
            let calls = keep_valid_calls(&entry.tool_calls);
            let mut assistant = entry.clone();
            if !same_calls(&assistant.tool_calls, &calls) {
                changed = true;
            }
            assistant.tool_calls = copy_all(&calls);
            let ghost kept = Slot::Kept(assistant.deep_view());
            out.push(assistant);
            index += 1;
            proof {
                assert(deep(out@) == out_before.push(assistant.deep_view()));
                assert(fit_all(deep(out@), done.push(kept)));
            }
            if calls.is_empty() {
                proof {
                    let rest = normalized_from(models, at + 1);
                    assert(deep(calls@) =~= Seq::<ToolCallModel>::empty());
                    assert(done + (seq![kept] + rest) =~= done.push(kept) + rest);
                    done = done.push(kept);
                }
            } else {
                let from = index;
                while index < entries.len() && same(&entries[index].role, "tool")
                    invariant
                        from <= index <= entries@.len(),
                        models == deep(entries@),
                        tools_end(models, from as int) == tools_end(models, index as int),
                    decreases entries@.len() - index,
                {
                    proof {
                        assert(models[index as int] == entries@[index as int].deep_view());
                    }
                    index += 1;
                }
                proof {
                    if index < entries@.len() {
                        assert(models[index as int] == entries@[index as int].deep_view());
                    }
                    assert(tools_end(models, from as int) == index);
                }
                let (mut results, results_changed) = answer_calls(&calls, entries, from, index);
                if results_changed {
                    changed = true;
                }
                let ghost slots = answers(
                    deep(calls@),
                    models.subrange(from as int, index as int),
                    none_used((index - from) as nat),
                    0,
                );
                let ghost results_model = deep(results@);
                let ghost out_middle = deep(out@);
                out.append(&mut results);
                proof {
                    let rest = normalized_from(models, index as int);
                    assert(models.subrange(from as int, index as int).len() == index - from);
                    assert(deep(calls@).len() > 0);
                    assert(normalized_from(models, at) == seq![kept] + slots + rest);
                    assert(done + (seq![kept] + slots + rest) =~= (done.push(kept) + slots) + rest);
                    assert(deep(out@) == out_middle + results_model);
                    assert(fit_all(deep(out@), done.push(kept) + slots));
                    done = done.push(kept) + slots;
                }
            }
        } else {
            changed = true;
            index += 1;
        }
    }
    proof {
        assert(done + Seq::<Slot>::empty() =~= done);
    }
    (out, changed)
}

// ---- keeping a memory short ----

/// The first entry of the user at or behind `i`; the number of entries where there is none. With
/// each of these a turn begins.
pub open spec fn next_user(entries: Seq<EntryModel>, i: int) -> int
    decreases entries.len() - i,
{
    if i >= entries.len() {
        entries.len() as int
    } else if is_user(entries[i]) {
        i
    } else {
        next_user(entries, i + 1)
    }
}

/// The first entry of the assistant at or behind `i`; the number of entries where there is none.
/// With each of these a block begins: the entry, and the results of its calls.
pub open spec fn next_assistant(entries: Seq<EntryModel>, i: int) -> int
    decreases entries.len() - i,
{
    if i >= entries.len() {
        entries.len() as int
    } else if is_assistant(entries[i]) {
        i
    } else {
        next_assistant(entries, i + 1)
    }
}

/// Where the last turn among the first `n` entries begins.
pub open spec fn last_turn(entries: Seq<EntryModel>, n: int) -> int
    decreases n,
{
    if n <= 0 {
        0
    } else if is_user(entries[n - 1]) {
        n - 1
    } else {
        last_turn(entries, n - 1)
    }
}

/// How many entries of the user stand at the beginning.
pub open spec fn leading_users(entries: Seq<EntryModel>, i: int) -> int
    decreases entries.len() - i,
{
    if i < entries.len() && is_user(entries[i]) {
        leading_users(entries, i + 1)
    } else {
        i
    }
}

/// As much of one turn as `limit` entries can hold: what the user said, and the latest blocks
/// that fit whole. Where not even the user's entries fit, the last of them is kept.
pub open spec fn reduced_turn(turn: Seq<EntryModel>, limit: int) -> Seq<EntryModel> {
    let users = leading_users(turn, 0);
    if turn.len() <= limit {
        turn
    } else if users == 0 {
        Seq::empty()
    } else if users >= limit {
        seq![turn[users - 1]]
    } else {
        turn.take(users) + turn.skip(next_assistant(turn, turn.len() - (limit - users)))
    }
}

/// As much of a memory as `limit` entries can hold: the latest turns that fit whole. Where not
/// even the last turn fits, that turn is reduced.
pub open spec fn within_budget(entries: Seq<EntryModel>, limit: int) -> Seq<EntryModel> {
    if limit <= 0 {
        Seq::empty()
    } else if entries.len() <= limit {
        entries
    } else {
        let start = next_user(entries, entries.len() - limit);
        if start < entries.len() {
            entries.skip(start)
        } else {
            reduced_turn(entries.skip(last_turn(entries, entries.len() as int)), limit)
        }
    }
}

/// As much of one turn as `max_entries` can hold.
pub fn reduce_latest_turn(turn: &[AgentMemoryEntry], max_entries: usize) -> (r: Vec<
    AgentMemoryEntry,
>)
    ensures
        deep(r@) == reduced_turn(deep(turn@), max_entries as int),
{
    let ghost models = deep(turn@);
    let n = turn.len();
    if n <= max_entries {
        let r = copy_entries(turn, 0, n);
        proof {
            assert(models.subrange(0, n as int) =~= models);
        }
        return r;
    }
    let mut users: usize = 0;
    while users < n && same(&turn[users].role, "user")
        invariant
            n == turn@.len(),
            models == deep(turn@),
            users <= n,
            leading_users(models, 0) == leading_users(models, users as int),
        decreases n - users,
    {
        proof {
            assert(models[users as int] == turn@[users as int].deep_view());
        }
        users += 1;
    }
    proof {
        if users < n {
            assert(models[users as int] == turn@[users as int].deep_view());
        }
    }
    if users == 0 {
        return Vec::new();
    }
    if users >= max_entries {
        let r = copy_entries(turn, users - 1, users);
        proof {
            assert(deep(r@) =~= seq![models[users - 1]]);
        }
        return r;
    }
    let mut start: usize = n - (max_entries - users);
    while start < n && !same(&turn[start].role, "assistant")
        invariant
            n == turn@.len(),
            models == deep(turn@),
            users < max_entries < n,
            n - (max_entries - users) <= start <= n,
            next_assistant(models, n - (max_entries - users)) == next_assistant(
                models,
                start as int,
            ),
        decreases n - start,
    {
        proof {
            assert(models[start as int] == turn@[start as int].deep_view());
        }
        start += 1;
    }
    proof {
        if start < n {
            assert(models[start as int] == turn@[start as int].deep_view());
        }
    }
    let mut r = copy_entries(turn, 0, users);
    let mut blocks = copy_entries(turn, start, n);
    r.append(&mut blocks);
    proof {
        assert(deep(r@) =~= models.take(users as int) + models.skip(start as int));
    }
    r
}

/// Shortens a memory to `max_entries`, without parting a tool call from its result.
pub fn trim_memory_to_budget(entries: &mut Vec<AgentMemoryEntry>, max_entries: usize)
    ensures
        deep(final(entries)@) == within_budget(deep(old(entries)@), max_entries as int),
{
    if max_entries == 0 {
        entries.clear();
        return;
    }
    let n = entries.len();
    if n <= max_entries {
        return;
    }
    let ghost models = deep(entries@);
    let mut start: usize = n - max_entries;
    while start < n && !same(&entries[start].role, "user")
        invariant
            n == entries@.len(),
            models == deep(entries@),
            0 < max_entries < n,
            n - max_entries <= start <= n,
            next_user(models, n - max_entries) == next_user(models, start as int),
        decreases n - start,
    {
        proof {
            assert(models[start as int] == entries@[start as int].deep_view());
        }
        start += 1;
    }
    if start < n {
        proof {
            assert(models[start as int] == entries@[start as int].deep_view());
            assert(models.skip(start as int) =~= models.subrange(start as int, n as int));
        }
        let kept = copy_entries(entries, start, n);
        *entries = kept;
        return;
    }
    let mut last: usize = n;
    while last > 0 && !same(&entries[last - 1].role, "user")
        invariant
            n == entries@.len(),
            models == deep(entries@),
            last <= n,
            last_turn(models, n as int) == last_turn(models, last as int),
        decreases last,
    {
        proof {
            assert(models[last - 1] == entries@[last - 1].deep_view());
        }
        last -= 1;
    }
    let begin: usize = if last > 0 {
        proof {
            assert(models[last - 1] == entries@[last - 1].deep_view());
        }
        last - 1
    } else {
        0
    };
    let turn = copy_entries(entries, begin, n);
    proof {
        assert(models.skip(begin as int) =~= models.subrange(begin as int, n as int));
    }
    let kept = reduce_latest_turn(&turn, max_entries);
    *entries = kept;
}

/// Repairs and shortens a memory, so that it can be sent to a model. Also says whether anything
/// of it is new.
pub fn normalize_memory_for_context(entries: &[AgentMemoryEntry]) -> (r: (
    Vec<AgentMemoryEntry>,
    bool,
))
    ensures
        exists|repaired: Seq<EntryModel>|
            {
                &&& #[trigger] fit_all(repaired, normalized_from(deep(entries@), 0))
                &&& deep(r.0@) == within_budget(repaired, MAX_MEMORY_ENTRIES as int)
                &&& r.1 == (normalizing_changes(deep(entries@), 0) || deep(r.0@) != repaired)
            },
{
    let (normalized, changed) = normalize_memory_entries(entries);
    let ghost repaired = deep(normalized@);
    let mut bounded = copy_all(&normalized);
    trim_memory_to_budget(&mut bounded, MAX_MEMORY_ENTRIES);
    let differs = !same_entries(&bounded, &normalized);
    (bounded, changed || differs)
}

/// How many entries stand for a result that was never recorded.
pub open spec fn recovered_count(entries: Seq<EntryModel>) -> nat {
    entries.filter(|e: EntryModel| is_recovered(e)).len()
}

/// Whether an entry stands for a result that was never recorded.
pub open spec fn is_recovered(entry: EntryModel) -> bool {
    is_tool(entry) && begins_with(entry.content, "[RustPilot] No result was recorded"@)
}

/// How many entries stand for a result that was never recorded.
pub fn recovered_tool_result_count(entries: &[AgentMemoryEntry]) -> (r: usize)
    ensures
        r == recovered_count(deep(entries@)),
{
    let ghost models = deep(entries@);
    let ghost counted = |e: EntryModel| is_recovered(e);
    let mut count: usize = 0;
    let mut i: usize = 0;
    while i < entries.len()
        invariant
            i <= entries@.len(),
            models == deep(entries@),
            counted == (|e: EntryModel| is_recovered(e)),
            count <= i,
            count == models.take(i as int).filter(counted).len(),
        decreases entries@.len() - i,
    {
        proof {
            assert(models.take(i + 1) =~= models.take(i as int).push(models[i as int]));
            models.take(i as int).lemma_filter_push(models[i as int], counted);
            assert(models[i as int] == entries@[i as int].deep_view());
        }
        if same(&entries[i].role, "tool") && starts_with(
            &entries[i].content,
            "[RustPilot] No result was recorded",
        ) {
            count += 1;
        }
        i += 1;
    }
    proof {
        assert(models.take(entries@.len() as int) =~= models);
    }
    count
}

} // verus!
