//! The rule that a conversation has to keep: each tool call has its result before anything else
//! is said, and no result comes without its call.

use vstd::prelude::*;

use crate::agent::{MessageToolCall, ToolCallModel};
use crate::deep::{deep, group_deep};
use crate::text::{blank, contains_text, is_blank, same};

verus! {

broadcast use group_deep;

/// How a conversation can break the rule.
#[derive(Debug, PartialEq, Eq)]
pub enum Fault {
    /// Something else is said while a call waits for its result.
    MissingResult,
    /// The identifier of a call is blank, or another call that waits has it too.
    BadCallId,
    /// A result does not say which call it belongs to.
    NoCallId,
    /// No call with this identifier waits for a result.
    UnknownCall(String),
    /// There is no such role.
    UnsupportedRole,
}

/// What a fault is.
pub enum FaultModel {
    MissingResult,
    BadCallId,
    NoCallId,
    UnknownCall(Seq<char>),
    UnsupportedRole,
}

impl DeepView for Fault {
    type V = FaultModel;

    open spec fn deep_view(&self) -> FaultModel {
        match self {
            Fault::MissingResult => FaultModel::MissingResult,
            Fault::BadCallId => FaultModel::BadCallId,
            Fault::NoCallId => FaultModel::NoCallId,
            Fault::UnknownCall(id) => FaultModel::UnknownCall(id@),
            Fault::UnsupportedRole => FaultModel::UnsupportedRole,
        }
    }
}

/// The calls that wait for their result, or what is wrong with the conversation.
pub type Pending = Result<Set<Seq<char>>, FaultModel>;

/// The calls that wait for their result once the calls from `j` on are made.
pub open spec fn with_calls(
    pending: Set<Seq<char>>,
    calls: Seq<ToolCallModel>,
    j: int,
) -> Pending
    decreases calls.len() - j,
{
    if j >= calls.len() {
        Ok(pending)
    } else if is_blank(calls[j].id) || pending.contains(calls[j].id) {
        Err(FaultModel::BadCallId)
    } else {
        with_calls(pending.insert(calls[j].id), calls, j + 1)
    }
}

/// What is said, as far as the rule is concerned.
pub struct Utterance {
    pub role: Seq<char>,
    pub calls: Seq<ToolCallModel>,
    pub tool_call_id: Option<Seq<char>>,
}

/// What an utterance does to the calls that wait for their result. The system speaks only where
/// it may.
pub open spec fn heard(pending: Set<Seq<char>>, said: Utterance, system_speaks: bool) -> Pending {
    if pending != Set::<Seq<char>>::empty() && said.role != "tool"@ {
        Err(FaultModel::MissingResult)
    } else if said.role == "assistant"@ {
        with_calls(pending, said.calls, 0)
    } else if said.role == "tool"@ {
        match said.tool_call_id {
            Some(id) => if pending.contains(id) {
                Ok(pending.remove(id))
            } else {
                Err(FaultModel::UnknownCall(id))
            },
            None => Err(FaultModel::NoCallId),
        }
    } else if said.role == "user"@ || (system_speaks && said.role == "system"@) {
        Ok(pending)
    } else {
        Err(FaultModel::UnsupportedRole)
    }
}

/// What the utterances do to the calls that wait for their result.
pub open spec fn heard_all(
    pending: Pending,
    said: Seq<Utterance>,
    system_speaks: bool,
) -> Pending
    decreases said.len(),
{
    if said.len() == 0 {
        pending
    } else {
        match heard_all(pending, said.drop_last(), system_speaks) {
            Ok(set) => heard(set, said.last(), system_speaks),
            Err(fault) => Err(fault),
        }
    }
}

/// The items of `s` as a set, where no item stands twice.
pub open spec fn holds(s: Seq<Seq<char>>, set: Set<Seq<char>>) -> bool {
    &&& s.no_duplicates()
    &&& forall|x: Seq<char>| #[trigger] set.contains(x) == s.contains(x)
}

proof fn lemma_holds_empty(s: Seq<Seq<char>>, set: Set<Seq<char>>)
    requires
        holds(s, set),
    ensures
        (s.len() == 0) == (set == Set::<Seq<char>>::empty()),
{
    if s.len() == 0 {
        assert(set =~= Set::<Seq<char>>::empty());
    } else {
        assert(s.contains(s[0]));
        assert(set.contains(s[0]));
    }
}

/// A fault does not go away.
pub proof fn lemma_fault_stays(
    pending: Pending,
    said: Seq<Utterance>,
    system_speaks: bool,
    i: int,
)
    requires
        0 <= i <= said.len(),
        heard_all(pending, said.take(i), system_speaks) is Err,
    ensures
        heard_all(pending, said, system_speaks) == heard_all(pending, said.take(i), system_speaks),
    decreases said.len() - i,
{
    if i == said.len() {
        assert(said.take(i) =~= said);
    } else {
        assert(said.take(i + 1).drop_last() =~= said.take(i));
        lemma_fault_stays(pending, said, system_speaks, i + 1);
    }
}

/// One more utterance.
pub proof fn lemma_heard_next(
    pending: Pending,
    said: Seq<Utterance>,
    system_speaks: bool,
    i: int,
)
    requires
        0 <= i < said.len(),
        heard_all(pending, said.take(i), system_speaks) is Ok,
    ensures
        heard_all(pending, said.take(i + 1), system_speaks) == heard(
            heard_all(pending, said.take(i), system_speaks)->Ok_0,
            said[i],
            system_speaks,
        ),
        heard_all(pending, said.take(i + 1), system_speaks) is Err ==> heard_all(
            pending,
            said,
            system_speaks,
        ) == heard_all(pending, said.take(i + 1), system_speaks),
{
    assert(said.take(i + 1).drop_last() =~= said.take(i));
    assert(said.take(i + 1).last() == said[i]);
    if heard_all(pending, said.take(i + 1), system_speaks) is Err {
        lemma_fault_stays(pending, said, system_speaks, i + 1);
    }
}

proof fn lemma_holds_push(s: Seq<Seq<char>>, set: Set<Seq<char>>, x: Seq<char>)
    requires
        holds(s, set),
        !s.contains(x),
    ensures
        holds(s.push(x), set.insert(x)),
{
    let t = s.push(x);
    assert forall|y: Seq<char>| #[trigger] set.insert(x).contains(y) == t.contains(y) by {
        if s.contains(y) {
            let k = choose|k: int| 0 <= k < s.len() && s[k] == y;
            assert(t[k] == y);
        }
        if y == x {
            assert(t[s.len() as int] == y);
        }
        if t.contains(y) && y != x {
            let k = choose|k: int| 0 <= k < t.len() && t[k] == y;
            assert(s[k] == y);
        }
    }
    assert forall|i: int, j: int| 0 <= i < t.len() && 0 <= j < t.len() && i != j implies t[i]
        != t[j] by {
        if i < s.len() && j < s.len() {
            assert(s[i] != s[j]);
        } else if i < s.len() {
            assert(s[i] == t[i]);
        } else {
            assert(s[j] == t[j]);
        }
    }
}

proof fn lemma_holds_remove(s: Seq<Seq<char>>, set: Set<Seq<char>>, k: int)
    requires
        holds(s, set),
        0 <= k < s.len(),
    ensures
        holds(s.remove(k), set.remove(s[k])),
{
    let t = s.remove(k);
    assert forall|y: Seq<char>| #[trigger] set.remove(s[k]).contains(y) == t.contains(y) by {
        if s.contains(y) && y != s[k] {
            let i = choose|i: int| 0 <= i < s.len() && s[i] == y;
            if i < k {
                assert(t[i] == y);
            } else {
                assert(t[i - 1] == y);
            }
        }
        if t.contains(y) {
            let i = choose|i: int| 0 <= i < t.len() && t[i] == y;
            if i < k {
                assert(s[i] == y);
            } else {
                assert(s[i + 1] == y);
            }
        }
    }
}

/// The calls that wait for their result, while a conversation is checked.
pub struct OpenCalls {
    pub ids: Vec<String>,
}

impl OpenCalls {
    /// The calls that wait are those of `set`.
    pub open spec fn are(&self, set: Set<Seq<char>>) -> bool {
        holds(deep(self.ids@), set)
    }

    pub(crate) fn new() -> (r: Self)
        ensures
            r.are(Set::empty()),
    {
        let r = OpenCalls { ids: Vec::new() };
        proof {
            assert(deep(r.ids@).no_duplicates());
        }
        r
    }

    /// Whether no call waits.
    pub(crate) fn none(&self, Ghost(set): Ghost<Set<Seq<char>>>) -> (r: bool)
        requires
            self.are(set),
        ensures
            r == (set == Set::<Seq<char>>::empty()),
    {
        proof {
            lemma_holds_empty(deep(self.ids@), set);
        }
        self.ids.is_empty()
    }

    /// Adds the calls, unless one of them has a bad identifier.
    fn open(&mut self, calls: &[MessageToolCall], Ghost(set): Ghost<Set<Seq<char>>>) -> (r: bool)
        requires
            old(self).are(set),
        ensures
            match with_calls(set, deep(calls@), 0) {
                Ok(new_set) => r && final(self).are(new_set),
                Err(fault) => !r && fault == FaultModel::BadCallId,
            },
    {
        let ghost models = deep(calls@);
        let ghost mut now = set;
        let mut j: usize = 0;
        while j < calls.len()
            invariant
                j <= calls@.len(),
                models == deep(calls@),
                self.are(now),
                with_calls(set, models, 0) == with_calls(now, models, j as int),
            decreases calls@.len() - j,
        {
            let id = &calls[j].id;
            proof {
                assert(models[j as int].id == id@);
            }
            if blank(id) || contains_text(&self.ids, id) {
                return false;
            }
            let ghost before = deep(self.ids@);
            self.ids.push(id.clone());
            proof {
                assert(deep(self.ids@) == before.push(id@));
                lemma_holds_push(before, now, id@);
                now = now.insert(id@);
            }
            j += 1;
        }
        true
    }

    /// Removes a call, if it waits.
    fn settle(&mut self, id: &str, Ghost(set): Ghost<Set<Seq<char>>>) -> (r: bool)
        requires
            old(self).are(set),
        ensures
            r == set.contains(id@),
            r ==> final(self).are(set.remove(id@)),
    {
        let mut k: usize = 0;
        while k < self.ids.len() && !same(&self.ids[k], id)
            invariant
                k <= self.ids@.len(),
                self.are(set),
                forall|j: int| 0 <= j < k ==> #[trigger] deep(self.ids@)[j] != id@,
            decreases self.ids@.len() - k,
        {
            k += 1;
        }
        if k >= self.ids.len() {
            return false;
        }
        let ghost before = deep(self.ids@);
        proof {
            assert(before[k as int] == id@);
            assert(before.contains(id@));
            assert(set.contains(id@));
            lemma_holds_remove(before, set, k as int);
        }
        let _ = self.ids.remove(k);
        proof {
            assert(deep(self.ids@) =~= before.remove(k as int));
        }
        true
    }

    /// Hears one utterance: finds what is wrong with it, or goes on.
    pub(crate) fn hear(
        &mut self,
        role: &str,
        calls: &[MessageToolCall],
        tool_call_id: &Option<String>,
        system_speaks: bool,
        Ghost(set): Ghost<Set<Seq<char>>>,
    ) -> (r: Option<Fault>)
        requires
            old(self).are(set),
        ensures
            match heard(
                set,
                (Utterance {
                    role: role@,
                    calls: deep(calls@),
                    tool_call_id: tool_call_id.deep_view(),
                }),
                system_speaks,
            ) {
                Ok(new_set) => r is None && final(self).are(new_set),
                Err(fault) => r is Some && r->0.deep_view() == fault,
            },
    {
        proof {
            reveal_strlit("assistant");
            reveal_strlit("tool");
            assert("assistant"@[0] == 'a');
            assert("tool"@[0] == 't');
        }
        let from_tool = same(role, "tool");
        if !self.none(Ghost(set)) && !from_tool {
            return Some(Fault::MissingResult);
        }
        if same(role, "assistant") {
            if !self.open(calls, Ghost(set)) {
                return Some(Fault::BadCallId);
            }
        } else if from_tool {
            match tool_call_id {
                Some(id) => {
                    if !self.settle(id, Ghost(set)) {
                        return Some(Fault::UnknownCall(id.clone()));
                    }
                },
                None => {
                    return Some(Fault::NoCallId);
                },
            }
        } else if !(same(role, "user") || (system_speaks && same(role, "system"))) {
            return Some(Fault::UnsupportedRole);
        }
        None
    }
}

} // verus!
