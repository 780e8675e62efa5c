//! Which tool calls may run at the same time, and when the next one is started.

use vstd::prelude::*;

use crate::json::{Json, JsonModel};
use crate::text::{lowered, same, same_ignoring_case};

verus! {

/// Whether a tool call may run beside others.
#[derive(Debug, Clone, Copy, PartialEq, Eq, Structural)]
pub enum ExecutionMode {
    ParallelSafe,
    Exclusive,
}

pub const MAX_PARALLEL_TOOL_CALLS: usize = 4;

/// The tools that only ever read.
pub open spec fn only_reads(name: Seq<char>) -> bool {
    name == "rust_clock"@ || name == "rust_web_search"@ || name == "rust_crawl4ai"@ || name
        == "rust_data_analysis"@ || name == "rust_sandbox_vision"@
}

/// The operations on files that only read.
pub open spec fn file_reads(operation: Seq<char>) -> bool {
    operation == "list"@ || operation == "read"@ || operation == "exists"@
}

/// The operations on code that only read.
pub open spec fn code_reads(operation: Seq<char>) -> bool {
    operation == "read"@ || operation == "list"@ || operation == "glob"@ || operation == "grep"@
        || operation == "status"@ || operation == "diff"@
}

/// Whether a call only reads.
pub open spec fn parallel_safe(name: Seq<char>, arguments: JsonModel) -> bool {
    let operation = arguments.text_or("operation"@, ""@);
    ||| only_reads(name)
    ||| name == "rust_http"@ && lowered(arguments.text_or("method"@, "GET"@)) == lowered("GET"@)
    ||| (name == "rust_files"@ || name == "rust_sandbox_files"@) && file_reads(operation)
    ||| name == "rust_code"@ && code_reads(operation)
}

/// Calls that only read may run beside others; all other calls run alone.
pub fn execution_mode(name: &str, arguments: &Json) -> (r: ExecutionMode)
    ensures
        r == if parallel_safe(name@, arguments.deep_view()) {
            ExecutionMode::ParallelSafe
        } else {
            ExecutionMode::Exclusive
        },
{
    proof {
        reveal_strlit("rust_http");
        reveal_strlit("rust_files");
        reveal_strlit("rust_sandbox_files");
        reveal_strlit("rust_code");
        assert("rust_http"@.len() == 9 && "rust_http"@[5] == 'h');
        assert("rust_code"@.len() == 9 && "rust_code"@[5] == 'c');
        assert("rust_files"@.len() == 10);
        assert("rust_sandbox_files"@.len() == 18);
    }
    let safe = if same(name, "rust_clock") || same(name, "rust_web_search") || same(
        name,
        "rust_crawl4ai",
    ) || same(name, "rust_data_analysis") || same(name, "rust_sandbox_vision") {
        true
    } else if same(name, "rust_http") {
        same_ignoring_case(&arguments.text_or("method", "GET"), "GET")
    } else if same(name, "rust_files") || same(name, "rust_sandbox_files") {
        let operation = arguments.text_or("operation", "");
        same(&operation, "list") || same(&operation, "read") || same(&operation, "exists")
    } else if same(name, "rust_code") {
        let operation = arguments.text_or("operation", "");
        same(&operation, "read") || same(&operation, "list") || same(&operation, "glob") || same(
            &operation,
            "grep",
        ) || same(&operation, "status") || same(&operation, "diff")
    } else {
        false
    };
    if safe {
        ExecutionMode::ParallelSafe
    } else {
        ExecutionMode::Exclusive
    }
}

/// The results of calls, ordered by the place of the call.
pub open spec fn ordered<T>(results: Seq<(usize, T)>) -> bool {
    forall|i: int, j: int| 0 <= i < j < results.len() ==> (#[trigger] results[i]).0 <= (
    #[trigger] results[j]).0
}

/// Whether no call has two results.
pub open spec fn once_each<T>(results: Seq<(usize, T)>) -> bool {
    forall|i: int, j: int|
        0 <= i < j < results.len() ==> (#[trigger] results[i]).0 != (#[trigger] results[j]).0
}

/// The calls `start..end` while they run side by side. The calls before `next_index` were
/// started, and `in_flight` of them have no result yet.
#[derive(Debug, PartialEq, Eq)]
pub struct ParallelPool<T> {
    pub start: usize,
    pub end: usize,
    pub max_parallel: usize,
    pub next_index: usize,
    pub in_flight: usize,
    pub results: Vec<(usize, T)>,
    pub aborted: bool,
}

impl<T> ParallelPool<T> {
    /// No more calls run at a time than may; every started call runs or has its one result; the
    /// results are in order.
    pub open spec fn wf(&self) -> bool {
        &&& self.start <= self.next_index
        &&& self.next_index <= self.end || self.next_index == self.start
        &&& 0 < self.max_parallel
        &&& self.in_flight <= self.max_parallel
        &&& self.in_flight + self.results@.len() == self.next_index - self.start
        &&& ordered(self.results@)
        &&& once_each(self.results@)
        &&& forall|i: int|
            0 <= i < self.results@.len() ==> self.start <= (#[trigger] self.results@[i]).0
                < self.next_index
    }

    pub fn new(start: usize, end: usize, max_parallel: usize, cancelled: bool) -> (r: Self)
        ensures
            r.wf(),
            r.start == start,
            r.end == end,
            r.max_parallel == if max_parallel == 0 {
                1
            } else {
                max_parallel
            },
            r.next_index == start,
            r.in_flight == 0,
            r.results@ == Seq::<(usize, T)>::empty(),
            r.aborted == cancelled,
    {
        ParallelPool {
            start,
            end,
            max_parallel: if max_parallel == 0 {
                1
            } else {
                max_parallel
            },
            next_index: start,
            in_flight: 0,
            results: Vec::new(),
            aborted: cancelled,
        }
    }

    /// Whether there is a call that could be started now, if it may run beside others.
    pub fn has_room(&self) -> (r: bool)
        ensures
            r == (!self.aborted && self.next_index < self.end && self.in_flight
                < self.max_parallel),
    {
        !self.aborted && self.next_index < self.end && self.in_flight < self.max_parallel
    }

    /// Starts the next call, if there is room and it may run beside others. Gives its place.
    pub fn launch(&mut self, mode: ExecutionMode, cancelled: bool) -> (r: Option<usize>)
        requires
            old(self).wf(),
        ensures
            final(self).wf(),
            ({
                let starts = !old(self).aborted && old(self).next_index < old(self).end
                    && old(self).in_flight < old(self).max_parallel && mode
                    == ExecutionMode::ParallelSafe;
                &&& starts ==> r == Some(old(self).next_index) && *final(self) == (ParallelPool {
                    next_index: (old(self).next_index + 1) as usize,
                    in_flight: (old(self).in_flight + 1) as usize,
                    aborted: cancelled,
                    ..*old(self)
                })
                &&& !starts ==> r is None && *final(self) == *old(self)
            }),
    {
        if !self.has_room() || mode != ExecutionMode::ParallelSafe {
            return None;
        }
        let index = self.next_index;
        self.next_index = index + 1;
        self.in_flight = self.in_flight + 1;
        self.aborted = cancelled;
        Some(index)
    }

    /// Takes the result of a call that was started and has none yet.
    pub fn finish(&mut self, index: usize, result: T, cancelled: bool)
        requires
            old(self).wf(),
            old(self).in_flight > 0,
            old(self).start <= index < old(self).next_index,
            forall|i: int|
                0 <= i < old(self).results@.len() ==> (#[trigger] old(self).results@[i]).0 != index,
        ensures
            final(self).wf(),
            final(self).results@.to_multiset() == old(self).results@.to_multiset().insert(
                (index, result),
            ),
            *final(self) == (ParallelPool {
                in_flight: (old(self).in_flight - 1) as usize,
                results: final(self).results,
                aborted: old(self).aborted || cancelled,
                ..*old(self)
            }),
    {
        let ghost before = self.results@;
        let mut place: usize = 0;
        while place < self.results.len() && self.results[place].0 <= index
            invariant
                *self == *old(self),
                self.wf(),
                place <= self.results@.len(),
                forall|i: int| 0 <= i < place ==> (#[trigger] self.results@[i]).0 <= index,
            decreases self.results@.len() - place,
        {
            place += 1;
        }
        self.results.insert(place, (index, result));
        self.in_flight = self.in_flight - 1;
        if cancelled {
            self.aborted = true;
        }
        proof {
            let after = self.results@;
            assert(after == before.insert(place as int, (index, result)));
            broadcast use vstd::seq_lib::to_multiset_insert;
            assert forall|i: int, j: int| 0 <= i < j < after.len() implies (#[trigger] after[i]).0
                <= (#[trigger] after[j]).0 by {
                if i < place {
                    assert(after[i] == before[i]);
                    if j > place {
                        assert(after[j] == before[j - 1]);
                    }
                } else if i == place {
                    assert(after[j] == before[j - 1]);
                    assert(before[place as int].0 <= before[j - 1].0);
                } else {
                    assert(after[i] == before[i - 1] && after[j] == before[j - 1]);
                }
            }
            assert forall|i: int, j: int| 0 <= i < j < after.len() implies (#[trigger] after[i]).0
                != (#[trigger] after[j]).0 by {
                let x = if i < place {
                    i
                } else {
                    i - 1
                };
                let y = if j < place {
                    j
                } else {
                    j - 1
                };
                if i != place && j != place {
                    assert(after[i] == before[x] && after[j] == before[y]);
                } else if i == place {
                    assert(after[j] == before[y]);
                } else {
                    assert(after[i] == before[x]);
                }
            }
            assert forall|i: int| 0 <= i < after.len() implies self.start <= (
            #[trigger] after[i]).0 < self.next_index by {
                if i < place {
                    assert(after[i] == before[i]);
                } else if i > place {
                    assert(after[i] == before[i - 1]);
                }
            }
        }
    }

    /// Whether all started calls have their results.
    pub fn is_drained(&self) -> (r: bool)
        ensures
            r == (self.in_flight == 0),
    {
        self.in_flight == 0
    }
}

proof fn lemma_at_least<T>(results: Seq<(usize, T)>, start: int, k: int)
    requires
        ordered(results),
        once_each(results),
        0 <= k < results.len(),
        start <= results[0].0,
    ensures
        results[k].0 >= start + k,
    decreases k,
{
    if k > 0 {
        lemma_at_least(results, start, k - 1);
        assert(results[k - 1].0 != results[k].0);
    }
}

proof fn lemma_at_most<T>(results: Seq<(usize, T)>, next: int, k: int)
    requires
        ordered(results),
        once_each(results),
        0 <= k < results.len(),
        results.last().0 < next,
    ensures
        results[k].0 <= next - (results.len() - k),
    decreases results.len() - k,
{
    if k + 1 < results.len() {
        lemma_at_most(results, next, k + 1);
        assert(results[k].0 != results[k + 1].0);
    }
}

/// When all calls that were started have ended their results stand in the order of the calls, and
/// none is missing.
pub proof fn law_drained_pools_have_all_results_in_order<T>(pool: ParallelPool<T>, k: int)
    requires
        pool.wf(),
        pool.in_flight == 0,
        0 <= k < pool.next_index - pool.start,
    ensures
        pool.results@.len() == pool.next_index - pool.start,
        pool.results@[k].0 == pool.start + k,
{
    lemma_at_least(pool.results@, pool.start as int, k);
    lemma_at_most(pool.results@, pool.next_index as int, k);
}

} // verus!
