//! Walking through the directories of a repository.

use vstd::prelude::*;

use super::limits::MAX_WALK_FILES;
use super::search::{ignored, is_ignored_directory, EntryKind};
use crate::deep::{deep, group_deep};
use crate::order::{le, text_le};

verus! {

broadcast use group_deep;

/// Something that was found in a directory.
#[derive(Debug, PartialEq, Eq)]
pub struct Child {
    pub name: String,
    pub path: String,
    pub kind: EntryKind,
}

/// What was found in a directory.
pub struct ChildModel {
    pub name: Seq<char>,
    pub path: Seq<char>,
    pub kind: EntryKind,
}

impl DeepView for Child {
    type V = ChildModel;

    open spec fn deep_view(&self) -> ChildModel {
        ChildModel { name: self.name@, path: self.path@, kind: self.kind }
    }
}

/// The children with one more at its place: they stand in the order of their names.
pub open spec fn with_child(children: Seq<ChildModel>, child: ChildModel) -> Seq<ChildModel>
    decreases children.len(),
{
    if children.len() > 0 && !text_le(children.last().name, child.name) {
        with_child(children.drop_last(), child).push(children.last())
    } else {
        children.push(child)
    }
}

/// The children in the order of their names.
pub open spec fn by_name(children: Seq<ChildModel>) -> Seq<ChildModel>
    decreases children.len(),
{
    if children.len() == 0 {
        Seq::empty()
    } else {
        with_child(by_name(children.drop_last()), children.last())
    }
}

/// What is still to be looked into, and what was found.
pub struct WalkModel {
    pub stack: Seq<Seq<char>>,
    pub files: Seq<Seq<char>>,
    pub truncated: bool,
}

/// The walk after the first `n` children of a directory, the last first.
pub open spec fn visited(walk: WalkModel, children: Seq<ChildModel>, n: int) -> WalkModel
    decreases n,
{
    if n <= 0 || walk.truncated {
        walk
    } else {
        let child = children[n - 1];
        let next = match child.kind {
            EntryKind::Directory => if ignored(child.name) {
                walk
            } else {
                WalkModel { stack: walk.stack.push(child.path), ..walk }
            },
            EntryKind::File => if walk.files.len() >= MAX_WALK_FILES {
                WalkModel { truncated: true, ..walk }
            } else {
                WalkModel { files: walk.files.push(child.path), ..walk }
            },
            EntryKind::Other => walk,
        };
        visited(next, children, n - 1)
    }
}

/// A walk through directories.
#[derive(Debug, PartialEq, Eq)]
pub struct Walk {
    pub stack: Vec<String>,
    pub files: Vec<String>,
    pub truncated: bool,
}

impl DeepView for Walk {
    type V = WalkModel;

    open spec fn deep_view(&self) -> WalkModel {
        WalkModel {
            stack: deep(self.stack@),
            files: deep(self.files@),
            truncated: self.truncated,
        }
    }
}

fn sort_children(children: Vec<Child>) -> (r: Vec<Child>)
    ensures
        deep(r@) == by_name(deep(children@)),
        r@.len() == children@.len(),
{
    let ghost models = deep(children@);
    let mut rest = children;
    let mut r: Vec<Child> = Vec::new();
    let mut todo: Vec<Child> = Vec::new();
    // Turn the list round, so that the first child is the next to be taken.
    while rest.len() > 0
        invariant
            deep(rest@) + deep(todo@).reverse() == models,
            rest@.len() + todo@.len() == models.len(),
        decreases rest@.len(),
    {
        let ghost a = deep(rest@);
        let ghost b = deep(todo@);
        match rest.pop() {
            Some(child) => {
                todo.push(child);
                proof {
                    assert(deep(rest@) =~= a.drop_last());
                    assert(deep(todo@) =~= b.push(a.last()));
                    assert(a.drop_last() + b.push(a.last()).reverse() =~= a + b.reverse());
                }
            },
            None => {},
        }
    }
    proof {
        assert(deep(todo@).reverse() =~= models);
        assert(models.take(0) =~= Seq::<ChildModel>::empty());
        assert(deep(r@) =~= Seq::<ChildModel>::empty());
    }
    while todo.len() > 0
        invariant
            r@.len() + todo@.len() == models.len(),
            deep(todo@) == models.skip(r@.len() as int).reverse(),
            deep(r@) == by_name(models.take(r@.len() as int)),
        decreases todo@.len(),
    {
        let ghost k = r@.len() as int;
        let ghost before = deep(todo@);
        match todo.pop() {
            Some(child) => {
                proof {
                    assert(child.deep_view() == before.last());
                    assert(before.last() == models[k]);
                    assert(deep(todo@) =~= models.skip(k + 1).reverse());
                    assert(models.take(k + 1).drop_last() =~= models.take(k));
                    assert(models.take(k + 1).last() == models[k]);
                }
                insert_child(&mut r, child);
            },
            None => {},
        }
    }
    proof {
        assert(models.take(models.len() as int) =~= models);
    }
    r
}

fn insert_child(children: &mut Vec<Child>, child: Child)
    ensures
        deep(final(children)@) == with_child(deep(old(children)@), child.deep_view()),
        final(children)@.len() == old(children)@.len() + 1,
{
    let ghost before = children@;
    let ghost models = deep(before);
    let ghost model = child.deep_view();
    let mut place: usize = children.len();
    proof {
        assert(models.take(place as int) =~= models);
    }
    while place > 0 && !le(&children[place - 1].name, &child.name)
        invariant
            place <= children@.len(),
            children@ == before,
            models == deep(before),
            model == child.deep_view(),
            with_child(models, model) == with_child(models.take(place as int), model)
                + models.skip(place as int),
        decreases place,
    {
        proof {
            let head = models.take(place as int);
            assert(head.last() == before[place - 1].deep_view());
            assert(head.drop_last() =~= models.take(place - 1));
            assert(with_child(models.take(place - 1), model).push(head.last()) + models.skip(
                place as int,
            ) =~= with_child(models.take(place - 1), model) + models.skip(place - 1));
        }
        place -= 1;
    }
    proof {
        if place > 0 {
            assert(models.take(place as int).last() == before[place - 1].deep_view());
        }
        assert(with_child(models.take(place as int), model) == models.take(place as int).push(
            model,
        ));
    }
    children.insert(place, child);
    proof {
        assert(deep(children@) =~= models.take(place as int).push(model) + models.skip(
            place as int,
        ));
    }
}

impl Walk {
    /// A walk that begins with the directory `root`.
    pub fn new(root: &str) -> (r: Self)
        ensures
            r.deep_view() == (WalkModel {
                stack: seq![root@],
                files: Seq::empty(),
                truncated: false,
            }),
    {
        let r = Walk {
            stack: crate::deep::one(root.to_owned()),
            files: Vec::new(),
            truncated: false,
        };
        proof {
            assert(deep(r.files@) =~= Seq::<Seq<char>>::empty());
        }
        r
    }

    /// The next directory to be looked into. There is none once the walk was cut short.
    pub fn next(&mut self) -> (r: Option<String>)
        ensures
            ({
                let walk = old(self).deep_view();
                if walk.truncated || walk.stack.len() == 0 {
                    r is None && final(self).deep_view() == walk
                } else {
                    r is Some && r->0@ == walk.stack.last() && final(self).deep_view() == (
                    WalkModel { stack: walk.stack.drop_last(), ..walk })
                }
            }),
    {
        if self.truncated {
            return None;
        }
        let ghost before = deep(self.stack@);
        let r = self.stack.pop();
        proof {
            if before.len() > 0 {
                assert(deep(self.stack@) =~= before.drop_last());
            }
        }
        r
    }

    /// Takes the children of a directory.
    pub fn visit(&mut self, children: Vec<Child>)
        requires
            !old(self).truncated,
        ensures
            final(self).deep_view() == visited(
                old(self).deep_view(),
                by_name(deep(children@)),
                children@.len() as int,
            ),
    {
        let ordered = sort_children(children);
        let ghost models = deep(ordered@);
        let ghost first = self.deep_view();
        let mut n: usize = ordered.len();
        while n > 0 && !self.truncated
            invariant
                n <= ordered@.len(),
                models == deep(ordered@),
                visited(first, models, ordered@.len() as int) == visited(
                    self.deep_view(),
                    models,
                    n as int,
                ),
            decreases n,
        {
            let child = &ordered[n - 1];
            proof {
                assert(models[n - 1] == child.deep_view());
            }
            match child.kind {
                EntryKind::Directory => {
                    if !is_ignored_directory(&child.name) {
                        self.stack.push(child.path.clone());
                    }
                },
                EntryKind::File => {
                    if self.files.len() >= MAX_WALK_FILES {
                        self.truncated = true;
                    } else {
                        self.files.push(child.path.clone());
                    }
                },
                EntryKind::Other => {},
            }
            n -= 1;
        }
    }
}

/// A walk never gathers more files than it may, and it is cut short only where there are more.
pub proof fn law_walk_is_bounded(walk: WalkModel, children: Seq<ChildModel>, n: int)
    requires
        walk.files.len() <= MAX_WALK_FILES,
    ensures
        visited(walk, children, n).files.len() <= MAX_WALK_FILES,
        !walk.truncated && visited(walk, children, n).truncated ==> visited(
            walk,
            children,
            n,
        ).files.len() == MAX_WALK_FILES,
    decreases n,
{
    if n > 0 && !walk.truncated {
        let child = children[n - 1];
        let next = match child.kind {
            EntryKind::Directory => if ignored(child.name) {
                walk
            } else {
                WalkModel { stack: walk.stack.push(child.path), ..walk }
            },
            EntryKind::File => if walk.files.len() >= MAX_WALK_FILES {
                WalkModel { truncated: true, ..walk }
            } else {
                WalkModel { files: walk.files.push(child.path), ..walk }
            },
            EntryKind::Other => walk,
        };
        law_walk_is_bounded(next, children, n - 1);
    }
}

} // verus!
