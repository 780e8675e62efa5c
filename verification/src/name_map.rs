//! Maps from names to values, in the order of the names.

use vstd::prelude::*;

use crate::deep::{deep, group_deep};
use crate::order::{le, lemma_text_le_total, lemma_text_le_transitive, text_le};
use crate::table::{find_name, lemma_name_index, name_index, value_of};
use crate::text::same;

verus! {

broadcast use group_deep;

/// Whether `a` stands before `b`.
pub open spec fn before(a: Seq<char>, b: Seq<char>) -> bool {
    text_le(a, b) && a != b
}

/// Whether the names stand in order, each once.
pub open spec fn ordered<V>(list: Seq<(Seq<char>, V)>) -> bool {
    forall|i: int, j: int|
        0 <= i < j < list.len() ==> before((#[trigger] list[i]).0, (#[trigger] list[j]).0)
}

/// How many of the first entries stand before the name.
pub open spec fn place_of<V>(list: Seq<(Seq<char>, V)>, name: Seq<char>) -> int
    decreases list.len(),
{
    if list.len() == 0 || !before(list.first().0, name) {
        0
    } else {
        1 + place_of(list.drop_first(), name)
    }
}

/// The entries with the value of the name set.
pub open spec fn with_entry<V>(
    list: Seq<(Seq<char>, V)>,
    name: Seq<char>,
    value: V,
) -> Seq<(Seq<char>, V)> {
    let k = place_of(list, name);
    if k < list.len() && list[k].0 == name {
        list.update(k, (name, value))
    } else {
        list.insert(k, (name, value))
    }
}

/// The entries without that of the name.
pub open spec fn without_entry<V>(
    list: Seq<(Seq<char>, V)>,
    name: Seq<char>,
) -> Seq<(Seq<char>, V)> {
    let i = name_index(list, name);
    if i < list.len() {
        list.remove(i)
    } else {
        list
    }
}

/// The names of the entries.
pub open spec fn names_of<V>(list: Seq<(Seq<char>, V)>) -> Seq<Seq<char>> {
    list.map_values(|entry: (Seq<char>, V)| entry.0)
}

/// The entries one after the other set into a map that is empty at first.
pub open spec fn all_entries<V>(list: Seq<(Seq<char>, V)>) -> Seq<(Seq<char>, V)>
    decreases list.len(),
{
    if list.len() == 0 {
        Seq::empty()
    } else {
        with_entry(all_entries(list.drop_last()), list.last().0, list.last().1)
    }
}

proof fn lemma_before_transitive(a: Seq<char>, b: Seq<char>, c: Seq<char>)
    requires
        before(a, b),
        before(b, c),
    ensures
        before(a, c),
{
    lemma_text_le_transitive(a, b, c);
    lemma_text_le_total(a, b);
}

pub proof fn lemma_place_of<V>(list: Seq<(Seq<char>, V)>, name: Seq<char>)
    ensures
        0 <= place_of(list, name) <= list.len(),
        forall|j: int|
            0 <= j < place_of(list, name) ==> before((#[trigger] list[j]).0, name),
        place_of(list, name) < list.len() ==> !before(list[place_of(list, name)].0, name),
    decreases list.len(),
{
    if list.len() > 0 && before(list.first().0, name) {
        lemma_place_of(list.drop_first(), name);
        let k = place_of(list.drop_first(), name);
        assert forall|j: int| 0 <= j < k + 1 implies before((#[trigger] list[j]).0, name) by {
            if j > 0 {
                assert(list.drop_first()[j - 1] == list[j]);
            }
        }
    }
}

/// A value that was set is read back, every other name keeps its value, and the names stay in
/// order.
pub proof fn law_set_entry_is_read_back<V>(
    list: Seq<(Seq<char>, V)>,
    name: Seq<char>,
    value: V,
    other: Seq<char>,
)
    requires
        ordered(list),
        other != name,
    ensures
        ordered(with_entry(list, name, value)),
        value_of(with_entry(list, name, value), name) == Some(value),
        value_of(with_entry(list, name, value), other) == value_of(list, other),
{
    lemma_with_entry_ordered(list, name, value);
    let new = with_entry(list, name, value);
    let k = place_of(list, name);
    lemma_place_of(list, name);
    lemma_name_index(new, name);
    lemma_name_index(new, other);
    lemma_name_index(list, other);
    assert(new[k] == (name, value));
    let i = name_index(new, name);
    if i < k {
        assert(before(new[i].0, new[k].0));
    }
    let a = name_index(list, other);
    let b = name_index(new, other);
    if k < list.len() && list[k].0 == name {
        assert forall|j: int| 0 <= j < list.len() && j != k implies new[j] == list[j] by {}
        if a < list.len() {
            assert(new[a] == list[a]);
        }
        if b < new.len() {
            assert(b != k);
            assert(new[b] == list[b]);
        }
    } else {
        assert forall|j: int| 0 <= j < list.len() implies list[j] == new[if j < k {
            j
        } else {
            j + 1
        }] by {}
        if a < list.len() {
            let c = if a < k {
                a
            } else {
                a + 1
            };
            assert(list[a] == new[c]);
            assert(new[c].0 == other);
        }
        if b < new.len() {
            assert(b != k);
            let c = if b < k {
                b
            } else {
                b - 1
            };
            assert(list[c] == new[b]);
        }
    }
}

pub proof fn lemma_with_entry_ordered<V>(list: Seq<(Seq<char>, V)>, name: Seq<char>, value: V)
    requires
        ordered(list),
    ensures
        ordered(with_entry(list, name, value)),
{
    let new = with_entry(list, name, value);
    let k = place_of(list, name);
    lemma_place_of(list, name);
    if k < list.len() && list[k].0 == name {
        assert forall|i: int, j: int| 0 <= i < j < new.len() implies before(
            (#[trigger] new[i]).0,
            (#[trigger] new[j]).0,
        ) by {
            assert(new[i].0 == list[i].0 && new[j].0 == list[j].0);
        }
    } else {
        if k < list.len() {
            lemma_text_le_total(list[k].0, name);
            assert(before(name, list[k].0));
        }
        assert forall|i: int, j: int| 0 <= i < j < new.len() implies before(
            (#[trigger] new[i]).0,
            (#[trigger] new[j]).0,
        ) by {
            if j < k {
                assert(new[i] == list[i] && new[j] == list[j]);
            } else if j == k {
                assert(new[i] == list[i]);
            } else if i < k {
                assert(new[i] == list[i] && new[j] == list[j - 1]);
            } else if i == k {
                assert(new[j] == list[j - 1]);
                if j - 1 > k {
                    lemma_before_transitive(name, list[k].0, list[j - 1].0);
                }
            } else {
                assert(new[i] == list[i - 1] && new[j] == list[j - 1]);
            }
        }
    }
}

proof fn lemma_without_entry_ordered<V>(list: Seq<(Seq<char>, V)>, name: Seq<char>)
    requires
        ordered(list),
    ensures
        ordered(without_entry(list, name)),
{
    lemma_name_index(list, name);
    let new = without_entry(list, name);
    let k = name_index(list, name);
    if k < list.len() {
        assert forall|i: int, j: int| 0 <= i < j < new.len() implies before(
            (#[trigger] new[i]).0,
            (#[trigger] new[j]).0,
        ) by {
            let a = if i < k {
                i
            } else {
                i + 1
            };
            let b = if j < k {
                j
            } else {
                j + 1
            };
            assert(new[i] == list[a] && new[j] == list[b]);
        }
    }
}

/// A map from names to values, in the order of the names.
#[derive(Debug, PartialEq, Eq)]
pub struct NameMap<T> {
    pub entries: Vec<(String, T)>,
}

impl<T: DeepView> DeepView for NameMap<T> {
    type V = Seq<(Seq<char>, T::V)>;

    open spec fn deep_view(&self) -> Seq<(Seq<char>, T::V)> {
        deep(self.entries@)
    }
}

impl<T: DeepView> NameMap<T> {
    /// Whether the names stand in order, each once.
    pub open spec fn wf(&self) -> bool {
        ordered(self.deep_view())
    }

    pub fn new() -> (r: Self)
        ensures
            r.deep_view() == Seq::<(Seq<char>, T::V)>::empty(),
            r.wf(),
    {
        NameMap { entries: Vec::new() }
    }

    pub fn is_empty(&self) -> (r: bool)
        ensures
            r == (self.deep_view().len() == 0),
    {
        self.entries.len() == 0
    }

    /// The value of the name.
    pub fn get(&self, name: &str) -> (r: Option<&T>)
        ensures
            match r {
                Some(value) => value_of(self.deep_view(), name@) == Some(value.deep_view()),
                None => value_of(self.deep_view(), name@) is None,
            },
    {
        let i = find_name(&self.entries, name);
        if i < self.entries.len() {
            proof {
                assert(self.deep_view()[i as int] == self.entries@[i as int].deep_view());
            }
            Some(&self.entries[i].1)
        } else {
            None
        }
    }

    /// Whether the name is there.
    pub fn contains_key(&self, name: &str) -> (r: bool)
        ensures
            r == (value_of(self.deep_view(), name@) is Some),
    {
        self.get(name).is_some()
    }

    /// Sets the value of the name.
    pub fn insert(&mut self, name: &str, value: T)
        ensures
            final(self).deep_view() == with_entry(
                old(self).deep_view(),
                name@,
                value.deep_view(),
            ),
            old(self).wf() ==> final(self).wf(),
    {
        let ghost models = self.deep_view();
        let mut k: usize = 0;
        proof {
            assert(models.skip(0) =~= models);
        }
        while k < self.entries.len() && le(&self.entries[k].0, name) && !same(
            &self.entries[k].0,
            name,
        )
            invariant
                models == deep(self.entries@),
                k <= self.entries@.len(),
                place_of(models, name@) == k + place_of(models.skip(k as int), name@),
            decreases self.entries@.len() - k,
        {
            proof {
                assert(models.skip(k as int).first() == self.entries@[k as int].deep_view());
                assert(models.skip(k as int).drop_first() =~= models.skip(k + 1));
            }
            k += 1;
        }
        let ghost list = self.entries@;
        proof {
            if k < self.entries@.len() {
                assert(models.skip(k as int).first() == self.entries@[k as int].deep_view());
            }
            if ordered(models) {
                lemma_with_entry_ordered(models, name@, value.deep_view());
            }
        }
        let entry = (name.to_owned(), value);
        if k < self.entries.len() && same(&self.entries[k].0, name) {
            self.entries.set(k, entry);
        } else {
            self.entries.insert(k, entry);
            proof {
                assert(deep(self.entries@) =~= models.insert(k as int, entry.deep_view()));
            }
        }
    }

    /// Takes the name out, and says whether it was there.
    pub fn remove(&mut self, name: &str) -> (r: bool)
        ensures
            r == (value_of(old(self).deep_view(), name@) is Some),
            final(self).deep_view() == without_entry(old(self).deep_view(), name@),
            old(self).wf() ==> final(self).wf(),
    {
        let ghost models = self.deep_view();
        proof {
            if ordered(models) {
                lemma_without_entry_ordered(models, name@);
            }
        }
        let i = find_name(&self.entries, name);
        if i < self.entries.len() {
            self.entries.remove(i);
            proof {
                assert(deep(self.entries@) =~= models.remove(i as int));
            }
            true
        } else {
            false
        }
    }

    /// Takes all names out.
    pub fn clear(&mut self)
        ensures
            final(self).deep_view() == Seq::<(Seq<char>, T::V)>::empty(),
            final(self).wf(),
    {
        self.entries = Vec::new();
        proof {
            assert(deep(self.entries@) =~= Seq::<(Seq<char>, T::V)>::empty());
        }
    }

    /// The names in order.
    pub fn keys(&self) -> (r: Vec<String>)
        ensures
            deep(r@) == names_of(self.deep_view()),
    {
        let mut r: Vec<String> = Vec::new();
        let mut i: usize = 0;
        while i < self.entries.len()
            invariant
                i <= self.entries@.len(),
                r@.len() == i,
                forall|k: int|
                    0 <= k < i ==> #[trigger] deep(r@)[k] == names_of(self.deep_view())[k],
            decreases self.entries@.len() - i,
        {
            let name = self.entries[i].0.clone();
            let ghost before = deep(r@);
            r.push(name);
            proof {
                assert(deep(r@) == before.push(name@));
                assert(self.deep_view()[i as int] == self.entries@[i as int].deep_view());
            }
            i += 1;
        }
        proof {
            assert(deep(r@) =~= names_of(self.deep_view()));
        }
        r
    }
}

} // verus!
