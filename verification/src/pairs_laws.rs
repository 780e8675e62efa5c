//! What the rule of a conversation asks for.

use vstd::prelude::*;

use crate::agent::ToolCallModel;
use crate::pairs::{heard, heard_all, with_calls, FaultModel, Pending, Utterance};
use crate::text::is_blank;

verus! {

/// The identifiers of the calls.
pub open spec fn ids_of(calls: Seq<ToolCallModel>) -> Set<Seq<char>> {
    Set::new(|id: Seq<char>| exists|k: int| 0 <= k < calls.len() && (#[trigger] calls[k]).id == id)
}

/// No identifier is blank, and none stands twice.
pub open spec fn well_named(calls: Seq<ToolCallModel>) -> bool {
    &&& forall|k: int| 0 <= k < calls.len() ==> !is_blank((#[trigger] calls[k]).id)
    &&& forall|j: int, k: int|
        0 <= j < k < calls.len() ==> (#[trigger] calls[j]).id != (#[trigger] calls[k]).id
}

proof fn lemma_with_calls(pending: Set<Seq<char>>, calls: Seq<ToolCallModel>, j: int)
    requires
        0 <= j <= calls.len(),
    ensures
        with_calls(pending, calls, j) matches Ok(set) ==> {
            &&& forall|k: int|
                j <= k < calls.len() ==> !is_blank((#[trigger] calls[k]).id) && !pending.contains(
                    calls[k].id,
                )
            &&& forall|i: int, k: int|
                j <= i < k < calls.len() ==> (#[trigger] calls[i]).id != (#[trigger] calls[k]).id
            &&& forall|id: Seq<char>| #[trigger]
                set.contains(id) <==> pending.contains(id) || exists|k: int|
                    j <= k < calls.len() && (#[trigger] calls[k]).id == id
        },
        with_calls(pending, calls, j) matches Err(fault) ==> fault == FaultModel::BadCallId && (
        exists|k: int|
            j <= k < calls.len() && (is_blank((#[trigger] calls[k]).id) || pending.contains(
                calls[k].id,
            ) || exists|i: int| j <= i < k && (#[trigger] calls[i]).id == calls[k].id)),
    decreases calls.len() - j,
{
    if j < calls.len() {
        let id = calls[j].id;
        if !(is_blank(id) || pending.contains(id)) {
            let next = pending.insert(id);
            lemma_with_calls(next, calls, j + 1);
            match with_calls(next, calls, j + 1) {
                Ok(set) => {
                    assert forall|i: int, k: int| j <= i < k < calls.len() implies (
                    #[trigger] calls[i]).id != (#[trigger] calls[k]).id by {
                        if i == j {
                            assert(!next.contains(calls[k].id));
                        }
                    }
                    assert forall|x: Seq<char>| #[trigger]
                        set.contains(x) <==> pending.contains(x) || exists|k: int|
                            j <= k < calls.len() && (#[trigger] calls[k]).id == x by {
                        if set.contains(x) && !pending.contains(x) {
                            if x == id {
                                assert(calls[j].id == x);
                            } else {
                                let k = choose|k: int|
                                    j + 1 <= k < calls.len() && (#[trigger] calls[k]).id == x;
                                assert(j <= k < calls.len() && calls[k].id == x);
                            }
                        }
                        if exists|k: int| j <= k < calls.len() && (#[trigger] calls[k]).id == x {
                            let k = choose|k: int|
                                j <= k < calls.len() && (#[trigger] calls[k]).id == x;
                            if k > j {
                                assert(j + 1 <= k < calls.len() && calls[k].id == x);
                            }
                        }
                    }
                },
                Err(_) => {
                    let k = choose|k: int|
                        j + 1 <= k < calls.len() && (is_blank((#[trigger] calls[k]).id)
                            || next.contains(calls[k].id) || exists|i: int|
                            j + 1 <= i < k && (#[trigger] calls[i]).id == calls[k].id);
                    if next.contains(calls[k].id) && !pending.contains(calls[k].id) {
                        assert(j <= j < k && calls[j].id == calls[k].id);
                    } else if !is_blank(calls[k].id) && !pending.contains(calls[k].id) {
                        let i = choose|i: int|
                            j + 1 <= i < k && (#[trigger] calls[i]).id == calls[k].id;
                        assert(j <= i < k && calls[i].id == calls[k].id);
                    }
                    assert(j <= k < calls.len());
                },
            }
        } else {
            assert(j <= j < calls.len());
        }
    }
}

/// While a call waits nothing but results may be said. The assistant may make calls whose
/// identifiers are not blank and differ, and then waits for all of them, and for no other one. A
/// result has to answer a call that waits, and then that call waits no longer, but every other one
/// does. The user may speak where nothing waits.
pub proof fn law_results_follow_their_calls(
    pending: Set<Seq<char>>,
    said: Utterance,
    system_speaks: bool,
    id: Seq<char>,
)
    ensures
        pending.contains(id) && said.role != "tool"@ ==> heard(pending, said, system_speaks) is Err,
        pending == Set::<Seq<char>>::empty() && said.role == "assistant"@ ==> {
            &&& heard(pending, said, system_speaks) is Ok <==> well_named(said.calls)
            &&& well_named(said.calls) ==> heard(pending, said, system_speaks)->Ok_0 == ids_of(
                said.calls,
            )
        },
        said.role == "tool"@ ==> {
            &&& heard(pending, said, system_speaks) is Ok <==> said.tool_call_id is Some
                && pending.contains(said.tool_call_id->0)
            &&& heard(pending, said, system_speaks) matches Ok(left) ==> {
                &&& !left.contains(said.tool_call_id->0)
                &&& id != said.tool_call_id->0 ==> left.contains(id) == pending.contains(id)
            }
        },
        pending == Set::<Seq<char>>::empty() && said.role == "user"@ ==> heard(
            pending,
            said,
            system_speaks,
        ) == Ok::<Set<Seq<char>>, FaultModel>(pending),
        said.role != "user"@ && said.role != "assistant"@ && said.role != "tool"@ && said.role
            != "system"@ ==> heard(pending, said, system_speaks) is Err,
{
    reveal_strlit("user");
    reveal_strlit("tool");
    reveal_strlit("assistant");
    reveal_strlit("system");
    assert("user"@[0] == 'u' && "tool"@[0] == 't' && "assistant"@[0] == 'a' && "system"@[0] == 's');
    if pending == Set::<Seq<char>>::empty() && said.role == "assistant"@ {
        lemma_with_calls(pending, said.calls, 0);
        match with_calls(pending, said.calls, 0) {
            Ok(set) => {
                assert(set =~= ids_of(said.calls));
            },
            Err(_) => {
                let k = choose|k: int|
                    0 <= k < said.calls.len() && (is_blank((#[trigger] said.calls[k]).id)
                        || pending.contains(said.calls[k].id) || exists|i: int|
                        0 <= i < k && (#[trigger] said.calls[i]).id == said.calls[k].id);
                if well_named(said.calls) {
                    let i = choose|i: int|
                        0 <= i < k && (#[trigger] said.calls[i]).id == said.calls[k].id;
                    assert(said.calls[i].id != said.calls[k].id);
                }
            },
        }
    }
}

/// A conversation is heard from its beginning to its end: what was said first decides what may be
/// said next.
pub proof fn law_conversations_are_heard_in_order(
    pending: Pending,
    a: Seq<Utterance>,
    b: Seq<Utterance>,
    said: Utterance,
    system_speaks: bool,
)
    ensures
        heard_all(pending, a + b, system_speaks) == heard_all(
            heard_all(pending, a, system_speaks),
            b,
            system_speaks,
        ),
        heard_all(pending, seq![said], system_speaks) == match pending {
            Ok(set) => heard(set, said, system_speaks),
            Err(fault) => Err(fault),
        },
    decreases b.len(),
{
    assert(seq![said].drop_last() =~= Seq::<Utterance>::empty());
    assert(heard_all(pending, seq![said].drop_last(), system_speaks) == pending);
    if b.len() == 0 {
        assert(a + b =~= a);
    } else {
        assert((a + b).drop_last() =~= a + b.drop_last());
        assert((a + b).last() == b.last());
        law_conversations_are_heard_in_order(pending, a, b.drop_last(), said, system_speaks);
    }
}

} // verus!
