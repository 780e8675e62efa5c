//! What matching paths, walking through directories and planning a patch guarantee.

use vstd::prelude::*;

use super::batch::path_key_of;
use super::glob::{glob_matches, law_star_stands_for_any_bytes, pattern_matches, wild, STAR};
use super::hunks::patched;
use super::limits::MAX_WALK_FILES;
use super::patch::{HunkModel, OperationModel};
use super::plan::{PlanModel, TargetModel};
use super::search::{ignored, EntryKind};
use super::walk::{by_name, visited, with_child, ChildModel, WalkModel};
use crate::text::joined;

verus! {

// ---- patterns ----

proof fn lemma_wild_split(a: Seq<u8>, b: Seq<u8>, value: Seq<u8>)
    ensures
        wild(a + b, value) <==> exists|k: int|
            0 <= k <= value.len() && #[trigger] wild(a, value.take(k)) && wild(b, value.skip(k)),
    decreases a.len(), value.len(),
{
    let all = a + b;
    if a.len() == 0 {
        assert(all =~= b);
        assert(value.skip(0) =~= value);
        if wild(b, value) {
            assert(wild(a, value.take(0)) && wild(b, value.skip(0)));
        }
        if exists|k: int|
            0 <= k <= value.len() && #[trigger] wild(a, value.take(k)) && wild(b, value.skip(k)) {
            let k = choose|k: int|
                0 <= k <= value.len() && #[trigger] wild(a, value.take(k)) && wild(
                    b,
                    value.skip(k),
                );
            assert(value.take(k).len() == 0);
            assert(k == 0);
        }
    } else {
        let rest = a.skip(1);
        assert(all.skip(1) =~= rest + b);
        assert(all[0] == a[0]);
        if a[0] == STAR {
            lemma_wild_split(rest, b, value);
            if value.len() > 0 {
                lemma_wild_split(a, b, value.skip(1));
            }
            if wild(all, value) {
                if wild(rest + b, value) {
                    let k = choose|k: int|
                        0 <= k <= value.len() && #[trigger] wild(rest, value.take(k)) && wild(
                            b,
                            value.skip(k),
                        );
                    assert(wild(a, value.take(k)));
                } else {
                    let tail = value.skip(1);
                    let k = choose|k: int|
                        0 <= k <= tail.len() && #[trigger] wild(a, tail.take(k)) && wild(
                            b,
                            tail.skip(k),
                        );
                    assert(value.take(k + 1).skip(1) =~= tail.take(k));
                    assert(tail.skip(k) =~= value.skip(k + 1));
                    assert(wild(a, value.take(k + 1)) && wild(b, value.skip(k + 1)));
                }
            }
            if exists|k: int|
                0 <= k <= value.len() && #[trigger] wild(a, value.take(k)) && wild(
                    b,
                    value.skip(k),
                ) {
                let k = choose|k: int|
                    0 <= k <= value.len() && #[trigger] wild(a, value.take(k)) && wild(
                        b,
                        value.skip(k),
                    );
                if wild(rest, value.take(k)) {
                    assert(wild(rest + b, value));
                } else {
                    let tail = value.skip(1);
                    assert(value.take(k).skip(1) =~= tail.take(k - 1));
                    assert(tail.skip(k - 1) =~= value.skip(k));
                    assert(wild(a, tail.take(k - 1)) && wild(b, tail.skip(k - 1)));
                }
            }
        } else if value.len() > 0 {
            let tail = value.skip(1);
            lemma_wild_split(rest, b, tail);
            if wild(all, value) {
                let k = choose|k: int|
                    0 <= k <= tail.len() && #[trigger] wild(rest, tail.take(k)) && wild(
                        b,
                        tail.skip(k),
                    );
                assert(value.take(k + 1).skip(1) =~= tail.take(k));
                assert(tail.skip(k) =~= value.skip(k + 1));
                assert(wild(a, value.take(k + 1)) && wild(b, value.skip(k + 1)));
            }
            if exists|k: int|
                0 <= k <= value.len() && #[trigger] wild(a, value.take(k)) && wild(
                    b,
                    value.skip(k),
                ) {
                let k = choose|k: int|
                    0 <= k <= value.len() && #[trigger] wild(a, value.take(k)) && wild(
                        b,
                        value.skip(k),
                    );
                assert(k > 0);
                assert(value.take(k).skip(1) =~= tail.take(k - 1));
                assert(tail.skip(k - 1) =~= value.skip(k));
                assert(wild(rest, tail.take(k - 1)) && wild(b, tail.skip(k - 1)));
            }
        } else if exists|k: int|
            0 <= k <= value.len() && #[trigger] wild(a, value.take(k)) && wild(b, value.skip(k)) {
            let k = choose|k: int|
                0 <= k <= value.len() && #[trigger] wild(a, value.take(k)) && wild(
                    b,
                    value.skip(k),
                );
            assert(value.take(k).len() == 0);
        }
    }
}

proof fn lemma_wild_star(value: Seq<u8>)
    ensures
        wild(seq![42u8], value),
    decreases value.len(),
{
    let star = seq![42u8];
    assert(star.skip(1) =~= Seq::<u8>::empty());
    if value.len() > 0 {
        lemma_wild_star(value.skip(1));
    } else {
        assert(wild(star.skip(1), value));
    }
}

proof fn lemma_wild_literal(pattern: Seq<u8>, value: Seq<u8>)
    requires
        forall|i: int|
            0 <= i < pattern.len() ==> #[trigger] pattern[i] != 42 && pattern[i] != 63
                && pattern[i] != 47,
    ensures
        wild(pattern, value) == (pattern == value),
    decreases pattern.len(),
{
    if pattern.len() > 0 {
        assert(pattern[0] != 42 && pattern[0] != 63 && pattern[0] != 47);
        if value.len() > 0 {
            let a = pattern.skip(1);
            let b = value.skip(1);
            assert forall|i: int| 0 <= i < a.len() implies #[trigger] a[i] != 42 && a[i] != 63
                && a[i] != 47 by {
                assert(a[i] == pattern[i + 1]);
            }
            lemma_wild_literal(a, b);
            if a == b && pattern[0] == value[0] {
                assert forall|i: int| 0 <= i < pattern.len() implies pattern[i] == value[i] by {
                    if i > 0 {
                        assert(a[i - 1] == b[i - 1]);
                    }
                }
                assert(pattern =~= value);
            }
        }
    } else if value.len() == 0 {
        assert(pattern =~= value);
    }
}

/// Patterns are matched part by part: a pattern of two parts matches what is made of something
/// that the first matches and something that the second matches. A star matches anything, a
/// question mark any one byte, and a text without signs that mean something itself alone.
pub proof fn law_patterns_match_part_by_part(a: Seq<u8>, b: Seq<u8>, value: Seq<u8>)
    requires
        forall|i: int| 0 <= i < value.len() ==> #[trigger] value[i] != 42,
    ensures
        pattern_matches(a + b, value) <==> exists|k: int|
            0 <= k <= value.len() && #[trigger] pattern_matches(a, value.take(k))
                && pattern_matches(b, value.skip(k)),
        pattern_matches(seq![42u8], value),
        pattern_matches(seq![63u8], value) <==> value.len() == 1,
        (forall|i: int|
            0 <= i < a.len() ==> #[trigger] a[i] != 42 && a[i] != 63 && a[i] != 47) ==> (
        pattern_matches(a, value) <==> a == value),
{
    assert forall|p: Seq<u8>, k: int| 0 <= k <= value.len() implies #[trigger] pattern_matches(
        p,
        value.take(k),
    ) == wild(p, value.take(k)) by {
        let part = value.take(k);
        assert forall|i: int| 0 <= i < part.len() implies #[trigger] part[i] != STAR by {
            assert(part[i] == value[i]);
        }
        law_star_stands_for_any_bytes(p, part);
    }
    assert forall|p: Seq<u8>, k: int| 0 <= k <= value.len() implies #[trigger] pattern_matches(
        p,
        value.skip(k),
    ) == wild(p, value.skip(k)) by {
        let part = value.skip(k);
        assert forall|i: int| 0 <= i < part.len() implies #[trigger] part[i] != STAR by {
            assert(part[i] == value[i + k]);
        }
        law_star_stands_for_any_bytes(p, part);
    }
    law_star_stands_for_any_bytes(a + b, value);
    law_star_stands_for_any_bytes(seq![42u8], value);
    law_star_stands_for_any_bytes(seq![63u8], value);
    law_star_stands_for_any_bytes(a, value);
    lemma_wild_split(a, b, value);
    lemma_wild_star(value);
    let one = seq![63u8];
    assert(one.skip(1) =~= Seq::<u8>::empty());
    if value.len() > 0 {
        assert(wild(one.skip(1), value.skip(1)) == (value.skip(1).len() == 0));
    }
    if forall|i: int| 0 <= i < a.len() ==> #[trigger] a[i] != 42 && a[i] != 63 && a[i] != 47 {
        lemma_wild_literal(a, value);
    }
    if wild(a + b, value) {
        let k = choose|k: int|
            0 <= k <= value.len() && #[trigger] wild(a, value.take(k)) && wild(b, value.skip(k));
        assert(pattern_matches(a, value.take(k)) && pattern_matches(b, value.skip(k)));
    }
    if exists|k: int|
        0 <= k <= value.len() && #[trigger] pattern_matches(a, value.take(k)) && pattern_matches(
            b,
            value.skip(k),
        ) {
        let k = choose|k: int|
            0 <= k <= value.len() && #[trigger] pattern_matches(a, value.take(k))
                && pattern_matches(b, value.skip(k));
        assert(wild(a, value.take(k)) && wild(b, value.skip(k)));
    }
}

/// A path may be written with either slash: the same patterns match it.
pub proof fn law_slashes_of_paths_do_not_matter(pattern: Seq<char>, value: Seq<char>)
    requires
        forall|i: int| 0 <= i < value.len() ==> #[trigger] value[i] != '\\',
    ensures
        glob_matches(pattern, value) == glob_matches(
            pattern,
            crate::text::replaced_char(value, '/', '\\'),
        ),
{
    let other = crate::text::replaced_char(value, '/', '\\');
    assert(crate::text::replaced_char(other, '\\', '/') =~= crate::text::replaced_char(
        value,
        '\\',
        '/',
    ));
}

// ---- walks ----

/// Whether the children hold the child.
proof fn lemma_with_child(children: Seq<ChildModel>, child: ChildModel, x: ChildModel)
    ensures
        with_child(children, child).len() == children.len() + 1,
        with_child(children, child).contains(x) <==> x == child || children.contains(x),
    decreases children.len(),
{
    let all = with_child(children, child);
    if children.len() > 0 && !crate::order::text_le(children.last().name, child.name) {
        let head = children.drop_last();
        lemma_with_child(head, child, x);
        let rest = with_child(head, child);
        assert(all == rest.push(children.last()));
        if rest.contains(x) {
            let k = choose|k: int| 0 <= k < rest.len() && rest[k] == x;
            assert(all[k] == x);
        }
        assert(all[rest.len() as int] == children.last());
        assert(children[children.len() - 1] == children.last());
        if children.contains(x) {
            let k = choose|k: int| 0 <= k < children.len() && children[k] == x;
            if k < head.len() {
                assert(head[k] == x);
            }
        }
        if head.contains(x) {
            let k = choose|k: int| 0 <= k < head.len() && head[k] == x;
            assert(children[k] == x);
        }
    } else {
        assert(all[children.len() as int] == child);
        if children.contains(x) {
            let k = choose|k: int| 0 <= k < children.len() && children[k] == x;
            assert(all[k] == x);
        }
    }
}

/// The children of a directory are all there when they are put in order, and no other ones.
pub proof fn law_ordering_children_loses_none(children: Seq<ChildModel>, child: ChildModel)
    ensures
        by_name(children).len() == children.len(),
        by_name(children).contains(child) <==> children.contains(child),
    decreases children.len(),
{
    if children.len() > 0 {
        let head = children.drop_last();
        law_ordering_children_loses_none(head, child);
        lemma_with_child(by_name(head), children.last(), child);
        assert(children[children.len() - 1] == children.last());
        if head.contains(child) {
            let k = choose|k: int| 0 <= k < head.len() && head[k] == child;
            assert(children[k] == child);
        }
        if children.contains(child) {
            let k = choose|k: int| 0 <= k < children.len() && children[k] == child;
            if k < head.len() {
                assert(head[k] == child);
            }
        }
    }
}

proof fn lemma_visited(walk: WalkModel, children: Seq<ChildModel>, n: int, i: int)
    requires
        0 <= n <= children.len(),
        !walk.truncated,
    ensures
        ({
            let after = visited(walk, children, n);
            &&& walk.files.len() <= after.files.len()
            &&& after.files.take(walk.files.len() as int) == walk.files
            &&& walk.stack.len() <= after.stack.len()
            &&& after.stack.take(walk.stack.len() as int) == walk.stack
            &&& !after.truncated && 0 <= i < n ==> {
                let child = children[i];
                &&& child.kind == EntryKind::File ==> after.files.contains(child.path)
                &&& child.kind == EntryKind::Directory && !ignored(child.name)
                    ==> after.stack.contains(child.path)
            }
            &&& !after.truncated ==> after.files.len() - walk.files.len() + after.stack.len()
                - walk.stack.len() <= n
        }),
    decreases n,
{
    assert(walk.files.take(walk.files.len() as int) =~= walk.files);
    assert(walk.stack.take(walk.stack.len() as int) =~= walk.stack);
    if n > 0 {
        let child = children[n - 1];
        let next = match child.kind {
            EntryKind::Directory => if ignored(child.name) {
                walk
            } else {
                WalkModel { stack: walk.stack.push(child.path), ..walk }
            },
            EntryKind::File => if walk.files.len() >= MAX_WALK_FILES {
                WalkModel { truncated: true, ..walk }
            } else {
                WalkModel { files: walk.files.push(child.path), ..walk }
            },
            EntryKind::Other => walk,
        };
        if next.truncated {
            assert(visited(next, children, n - 1) == next);
        } else {
            lemma_visited(next, children, n - 1, i);
            let after = visited(next, children, n - 1);
            assert(after.files.take(walk.files.len() as int) =~= after.files.take(
                next.files.len() as int,
            ).take(walk.files.len() as int));
            assert(next.files.take(walk.files.len() as int) =~= walk.files);
            assert(after.stack.take(walk.stack.len() as int) =~= after.stack.take(
                next.stack.len() as int,
            ).take(walk.stack.len() as int));
            assert(next.stack.take(walk.stack.len() as int) =~= walk.stack);
            if i == n - 1 && !after.truncated {
                if child.kind == EntryKind::File {
                    let k = walk.files.len() as int;
                    assert(after.files.take(next.files.len() as int)[k] == next.files[k]);
                    assert(after.files[k] == child.path);
                }
                if child.kind == EntryKind::Directory && !ignored(child.name) {
                    let k = walk.stack.len() as int;
                    assert(after.stack.take(next.stack.len() as int)[k] == next.stack[k]);
                    assert(after.stack[k] == child.path);
                }
            }
        }
    }
}

/// A walk that is not cut short finds every file of a directory, will look into every directory in
/// it but those that are never looked into, and forgets nothing that it found before.
pub proof fn law_walks_miss_nothing(walk: WalkModel, children: Seq<ChildModel>, i: int)
    requires
        !walk.truncated,
        0 <= i < children.len(),
    ensures
        ({
            let after = visited(walk, children, children.len() as int);
            &&& after.files.len() >= walk.files.len()
            &&& after.files.take(walk.files.len() as int) == walk.files
            &&& after.stack.take(walk.stack.len() as int) == walk.stack
            &&& !after.truncated && children[i].kind == EntryKind::File ==> after.files.contains(
                children[i].path,
            )
            &&& !after.truncated && children[i].kind == EntryKind::Directory && !ignored(
                children[i].name,
            ) ==> after.stack.contains(children[i].path)
        }),
{
    lemma_visited(walk, children, children.len() as int, i);
}

// ---- plans ----

/// A plan with one more operation holds all that it held before, and what the operation does: an
/// added file is written with its lines, a changed file with its text after the hunks, at its new
/// place where it moves, and then it is deleted at its old one.
pub proof fn law_plans_hold_every_operation(
    plan: PlanModel,
    lines: Seq<Seq<char>>,
    hunks: Seq<HunkModel>,
    path: Seq<char>,
    move_to: Option<Seq<char>>,
    source: TargetModel,
    destination: TargetModel,
    ignore_case: bool,
)
    ensures
        plan.with_operation(
            OperationModel::Add { path, lines },
            source,
            destination,
            ignore_case,
        ) matches Ok(next) ==> {
            &&& !source.exists
            &&& next.writes.drop_last() == plan.writes
            &&& next.writes.last() == (source.path, joined(lines, "\n"@) + "\n"@)
            &&& next.deletes == plan.deletes
        },
        plan.with_operation(
            OperationModel::Delete { path, hunks: None },
            source,
            destination,
            ignore_case,
        ) matches Ok(next) ==> {
            &&& source.is_file
            &&& next.deletes.drop_last() == plan.deletes
            &&& next.deletes.last() == source.path
            &&& next.writes == plan.writes
        },
        plan.with_operation(
            OperationModel::Update { path, move_to, hunks },
            source,
            destination,
            ignore_case,
        ) matches Ok(next) ==> {
            &&& source.text is Ok
            &&& patched(source.text->Ok_0, hunks) == Ok::<Seq<char>, Seq<char>>(
                next.writes.last().1,
            )
            &&& next.writes.drop_last() == plan.writes
            &&& next.writes.last().0 == destination.path
            &&& destination.path == source.path ==> next.deletes == plan.deletes
            &&& destination.path != source.path ==> !destination.exists
                && next.deletes.drop_last() == plan.deletes && next.deletes.last() == source.path
        },
        !plan.seen.contains(path_key_of(source.path, ignore_case)) && !source.exists
            ==> plan.with_operation(
            OperationModel::Add { path, lines },
            source,
            destination,
            ignore_case,
        ) is Ok,
        !plan.seen.contains(path_key_of(source.path, ignore_case)) && source.is_file
            ==> plan.with_operation(
            OperationModel::Delete { path, hunks: None },
            source,
            destination,
            ignore_case,
        ) is Ok,
        !plan.seen.contains(path_key_of(source.path, ignore_case)) && source.text is Ok && patched(
            source.text->Ok_0,
            hunks,
        ) is Ok && destination.path == source.path ==> plan.with_operation(
            OperationModel::Update { path, move_to, hunks },
            source,
            destination,
            ignore_case,
        ) is Ok,
        plan.seen.contains(path_key_of(source.path, ignore_case)) ==> plan.with_operation(
            OperationModel::Update { path, move_to, hunks },
            source,
            destination,
            ignore_case,
        ) is Err,
{
    reveal_strlit("\n");
    let add = OperationModel::Add { path, lines };
    let delete = OperationModel::Delete { path, hunks: None };
    let update = OperationModel::Update { path, move_to, hunks };
    if let Ok(next) = plan.with_operation(add, source, destination, ignore_case) {
        assert(next.writes.drop_last() =~= plan.writes);
        assert(joined(lines, "\n"@).push('\n') =~= joined(lines, "\n"@) + "\n"@);
    }
    if let Ok(next) = plan.with_operation(delete, source, destination, ignore_case) {
        assert(next.deletes.drop_last() =~= plan.deletes);
    }
    if let Ok(next) = plan.with_operation(update, source, destination, ignore_case) {
        assert(next.writes.drop_last() =~= plan.writes);
        if destination.path != source.path {
            assert(next.deletes.drop_last() =~= plan.deletes);
        }
    }
}

} // verus!
