//! Lists of names with their values, in which each name stands once.

use vstd::prelude::*;

use crate::deep::{deep, group_deep};
use crate::text::same;

verus! {

broadcast use group_deep;

/// The place of the name; the length of the list where it is not there.
pub open spec fn name_index<V>(list: Seq<(Seq<char>, V)>, name: Seq<char>) -> int
    decreases list.len(),
{
    if list.len() == 0 || list.first().0 == name {
        0
    } else {
        1 + name_index(list.drop_first(), name)
    }
}

/// The value of the name.
pub open spec fn value_of<V>(list: Seq<(Seq<char>, V)>, name: Seq<char>) -> Option<V> {
    let i = name_index(list, name);
    if i < list.len() {
        Some(list[i].1)
    } else {
        None
    }
}

/// The list with the value of the name set, at its place or, where there was none, at the end.
pub open spec fn with_value<V>(
    list: Seq<(Seq<char>, V)>,
    name: Seq<char>,
    value: V,
) -> Seq<(Seq<char>, V)> {
    let i = name_index(list, name);
    if i < list.len() {
        list.update(i, (name, value))
    } else {
        list.push((name, value))
    }
}

/// Whether each name stands once.
pub open spec fn names_differ<V>(list: Seq<(Seq<char>, V)>) -> bool {
    forall|i: int, j: int|
        0 <= i < j < list.len() ==> (#[trigger] list[i]).0 != (#[trigger] list[j]).0
}

pub proof fn lemma_name_index<V>(list: Seq<(Seq<char>, V)>, name: Seq<char>)
    ensures
        0 <= name_index(list, name) <= list.len(),
        name_index(list, name) < list.len() ==> list[name_index(list, name)].0 == name,
        forall|j: int| 0 <= j < name_index(list, name) ==> (#[trigger] list[j]).0 != name,
    decreases list.len(),
{
    if list.len() > 0 && list.first().0 != name {
        lemma_name_index(list.drop_first(), name);
        let k = name_index(list.drop_first(), name);
        assert forall|j: int| 0 <= j < k + 1 implies (#[trigger] list[j]).0 != name by {
            if j > 0 {
                assert(list.drop_first()[j - 1] == list[j]);
            }
        }
    }
}

/// A value that was set is read back, every other name keeps its value, and each name still
/// stands once.
pub proof fn law_set_value_is_read_back<V>(
    list: Seq<(Seq<char>, V)>,
    name: Seq<char>,
    value: V,
    other: Seq<char>,
)
    requires
        other != name,
    ensures
        value_of(with_value(list, name, value), name) == Some(value),
        value_of(with_value(list, name, value), other) == value_of(list, other),
        names_differ(list) ==> names_differ(with_value(list, name, value)),
{
    let new = with_value(list, name, value);
    lemma_name_index(list, name);
    lemma_name_index(new, name);
    lemma_name_index(list, other);
    lemma_name_index(new, other);
    let i = name_index(list, name);
    let k = name_index(new, name);
    assert(new[i] == (name, value));
    if k < i {
        assert(new[k] == list[k]);
    }
    let a = name_index(list, other);
    let b = name_index(new, other);
    if a < list.len() {
        assert(new[a] == list[a]);
    }
    if b < list.len() {
        assert(b != i);
        assert(new[b] == list[b]);
    } else if b < new.len() {
        assert(b == i);
    }
}

/// The place of the name.
pub fn find_name<T: DeepView>(list: &Vec<(String, T)>, name: &str) -> (r: usize)
    ensures
        r == name_index(deep(list@), name@),
        r <= list@.len(),
{
    let mut i: usize = 0;
    let ghost models = deep(list@);
    proof {
        assert(models.skip(0) =~= models);
    }
    while i < list.len() && !same(&list[i].0, name)
        invariant
            models == deep(list@),
            i <= list@.len(),
            name_index(models, name@) == i + name_index(models.skip(i as int), name@),
        decreases list@.len() - i,
    {
        proof {
            assert(models.skip(i as int).first() == list@[i as int].deep_view());
            assert(models.skip(i as int).drop_first() =~= models.skip(i + 1));
        }
        i += 1;
    }
    proof {
        if i < list@.len() {
            assert(models.skip(i as int).first() == list@[i as int].deep_view());
        }
    }
    i
}

/// Sets the value of the name.
pub fn set_value<T: DeepView>(list: &mut Vec<(String, T)>, name: &str, value: T)
    ensures
        deep(final(list)@) == with_value(deep(old(list)@), name@, value.deep_view()),
{
    let i = find_name(list, name);
    let entry = (name.to_owned(), value);
    proof {
        assert(entry.deep_view() == (name@, value.deep_view()));
    }
    if i < list.len() {
        list.set(i, entry);
    } else {
        list.push(entry);
    }
}

} // verus!
