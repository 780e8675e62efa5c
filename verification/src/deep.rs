//! Models of sequences of values.
//!
//! A collection of owned values (`Vec<String>`, `Vec<Message>`) is compared by what its items
//! mean. `deep` turns a sequence of executable values into the sequence of their models.

use vstd::prelude::*;

verus! {

/// The models of the items of `s`, in order.
pub open spec fn deep<T: DeepView>(s: Seq<T>) -> Seq<T::V> {
    Seq::new(s.len(), |i: int| s[i].deep_view())
}

pub broadcast proof fn lemma_deep_push<T: DeepView>(s: Seq<T>, x: T)
    ensures
        #[trigger] deep(s.push(x)) == deep(s).push(x.deep_view()),
{
    assert(deep(s.push(x)) =~= deep(s).push(x.deep_view()));
}

pub broadcast proof fn lemma_deep_empty<T: DeepView>()
    ensures
        #[trigger] deep(Seq::<T>::empty()) == Seq::<T::V>::empty(),
{
    assert(deep(Seq::<T>::empty()) =~= Seq::<T::V>::empty());
}

pub broadcast proof fn lemma_deep_add<T: DeepView>(s: Seq<T>, t: Seq<T>)
    ensures
        #[trigger] deep(s + t) == deep(s) + deep(t),
{
    assert(deep(s + t) =~= deep(s) + deep(t));
}

pub broadcast proof fn lemma_deep_subrange<T: DeepView>(s: Seq<T>, i: int, j: int)
    requires
        0 <= i <= j <= s.len(),
    ensures
        #[trigger] deep(s.subrange(i, j)) == deep(s).subrange(i, j),
{
    assert(deep(s.subrange(i, j)) =~= deep(s).subrange(i, j));
}

pub broadcast proof fn lemma_deep_take<T: DeepView>(s: Seq<T>, n: int)
    requires
        0 <= n <= s.len(),
    ensures
        #[trigger] deep(s.take(n)) == deep(s).take(n),
{
    assert(deep(s.take(n)) =~= deep(s).take(n));
}

pub broadcast proof fn lemma_deep_skip<T: DeepView>(s: Seq<T>, n: int)
    requires
        0 <= n <= s.len(),
    ensures
        #[trigger] deep(s.skip(n)) == deep(s).skip(n),
{
    assert(deep(s.skip(n)) =~= deep(s).skip(n));
}

pub broadcast proof fn lemma_deep_update<T: DeepView>(s: Seq<T>, i: int, x: T)
    requires
        0 <= i < s.len(),
    ensures
        #[trigger] deep(s.update(i, x)) == deep(s).update(i, x.deep_view()),
{
    assert(deep(s.update(i, x)) =~= deep(s).update(i, x.deep_view()));
}

pub broadcast group group_deep {
    lemma_deep_push,
    lemma_deep_empty,
    lemma_deep_add,
    lemma_deep_subrange,
    lemma_deep_take,
    lemma_deep_skip,
    lemma_deep_update,
}

/// A vector holding one item.
pub fn one<T: DeepView>(x: T) -> (v: Vec<T>)
    ensures
        v@ == seq![x],
        deep(v@) == seq![x.deep_view()],
{
    let mut v: Vec<T> = Vec::new();
    v.push(x);
    proof {
        assert(v@ =~= seq![x]);
        assert(deep(v@) =~= seq![x.deep_view()]);
    }
    v
}

/// A copy of a vector whose items are copied one by one.
pub fn copy_all<T: DeepView + Clone>(items: &Vec<T>) -> (v: Vec<T>)
    requires
        forall|a: T, b: T| #[trigger] cloned(a, b) ==> b.deep_view() == a.deep_view(),
    ensures
        deep(v@) == deep(items@),
{
    let v = items.clone();
    proof {
        assert forall|i: int| 0 <= i < items@.len() implies v@[i].deep_view()
            == items@[i].deep_view() by {
            assert(cloned(items[i], v[i]));
        }
        assert(deep(v@) =~= deep(items@));
    }
    v
}

/// A copy of a vector of strings.
pub fn copy_strings(items: &Vec<String>) -> (v: Vec<String>)
    ensures
        deep(v@) == deep(items@),
{
    copy_all(items)
}

} // verus!
