//! The order of texts: by the code points of their characters, the earlier ones first.

use vstd::prelude::*;

use crate::deep::deep;
use crate::text::chars_of;

verus! {

/// Whether `a` stands before `b` or is the same.
pub open spec fn text_le(a: Seq<char>, b: Seq<char>) -> bool
    decreases a.len(),
{
    if a.len() == 0 {
        true
    } else if b.len() == 0 {
        false
    } else if a[0] == b[0] {
        text_le(a.skip(1), b.skip(1))
    } else {
        a[0] < b[0]
    }
}

pub proof fn lemma_text_le_total(a: Seq<char>, b: Seq<char>)
    ensures
        text_le(a, b) || text_le(b, a),
        text_le(a, b) && text_le(b, a) ==> a == b,
    decreases a.len(),
{
    if a.len() > 0 && b.len() > 0 {
        if a[0] == b[0] {
            lemma_text_le_total(a.skip(1), b.skip(1));
            if a.skip(1) == b.skip(1) {
                assert(a =~= seq![a[0]] + a.skip(1));
                assert(b =~= seq![b[0]] + b.skip(1));
            }
        }
    } else {
        assert(a.len() == 0 && b.len() == 0 ==> a =~= b);
    }
}

pub proof fn lemma_text_le_transitive(a: Seq<char>, b: Seq<char>, c: Seq<char>)
    requires
        text_le(a, b),
        text_le(b, c),
    ensures
        text_le(a, c),
    decreases a.len(),
{
    if a.len() > 0 && b.len() > 0 && c.len() > 0 && a[0] == b[0] && b[0] == c[0] {
        lemma_text_le_transitive(a.skip(1), b.skip(1), c.skip(1));
    }
}

/// Whether `a` stands before `b` or is the same.
pub fn le(a: &str, b: &str) -> (r: bool)
    ensures
        r == text_le(a@, b@),
{
    let x = chars_of(a);
    let y = chars_of(b);
    let mut i: usize = 0;
    proof {
        assert(a@.skip(0) =~= a@);
        assert(b@.skip(0) =~= b@);
    }
    while i < x.len() && i < y.len() && x[i] == y[i]
        invariant
            x@ == a@,
            y@ == b@,
            i <= a@.len(),
            i <= b@.len(),
            text_le(a@, b@) == text_le(a@.skip(i as int), b@.skip(i as int)),
        decreases a@.len() - i,
    {
        proof {
            assert(a@.skip(i as int)[0] == a@[i as int]);
            assert(b@.skip(i as int)[0] == b@[i as int]);
            assert(a@.skip(i as int).skip(1) =~= a@.skip(i + 1));
            assert(b@.skip(i as int).skip(1) =~= b@.skip(i + 1));
        }
        i += 1;
    }
    proof {
        if i < a@.len() {
            assert(a@.skip(i as int)[0] == a@[i as int]);
        }
        if i < b@.len() {
            assert(b@.skip(i as int)[0] == b@[i as int]);
        }
    }
    if i >= x.len() {
        true
    } else if i >= y.len() {
        false
    } else {
        x[i] < y[i]
    }
}

/// Whether the texts stand in order.
pub open spec fn in_order(texts: Seq<Seq<char>>) -> bool {
    forall|i: int, j: int|
        0 <= i < j < texts.len() ==> text_le(#[trigger] texts[i], #[trigger] texts[j])
}

/// The texts with `text` at its place.
pub open spec fn inserted(texts: Seq<Seq<char>>, text: Seq<char>) -> Seq<Seq<char>>
    decreases texts.len(),
{
    if texts.len() > 0 && !text_le(texts.last(), text) {
        inserted(texts.drop_last(), text).push(texts.last())
    } else {
        texts.push(text)
    }
}

/// The texts in order.
pub open spec fn sorted(texts: Seq<Seq<char>>) -> Seq<Seq<char>>
    decreases texts.len(),
{
    if texts.len() == 0 {
        Seq::empty()
    } else {
        inserted(sorted(texts.drop_last()), texts.last())
    }
}

proof fn lemma_inserted(texts: Seq<Seq<char>>, text: Seq<char>)
    requires
        in_order(texts),
    ensures
        in_order(inserted(texts, text)),
        inserted(texts, text).len() == texts.len() + 1,
        inserted(texts, text).to_multiset() == texts.to_multiset().insert(text),
        forall|k: int|
            0 <= k < inserted(texts, text).len() ==> #[trigger] inserted(texts, text)[k] == text
                || texts.contains(inserted(texts, text)[k]),
    decreases texts.len(),
{
    broadcast use vstd::seq_lib::to_multiset_build;

    let all = inserted(texts, text);
    if texts.len() > 0 && !text_le(texts.last(), text) {
        let head = texts.drop_last();
        assert forall|i: int, j: int| 0 <= i < j < head.len() implies text_le(
            #[trigger] head[i],
            #[trigger] head[j],
        ) by {
            assert(head[i] == texts[i] && head[j] == texts[j]);
        }
        lemma_inserted(head, text);
        let front = inserted(head, text);
        lemma_text_le_total(texts.last(), text);
        assert forall|k: int| 0 <= k < front.len() implies text_le(
            #[trigger] front[k],
            texts.last(),
        ) by {
            if front[k] != text {
                let m = choose|m: int| 0 <= m < head.len() && head[m] == front[k];
                assert(texts[m] == front[k]);
                assert(text_le(texts[m], texts[texts.len() - 1]));
            }
        }
        assert forall|i: int, j: int| 0 <= i < j < all.len() implies text_le(
            #[trigger] all[i],
            #[trigger] all[j],
        ) by {
            if j < front.len() {
                assert(all[i] == front[i] && all[j] == front[j]);
            } else {
                assert(all[i] == front[i]);
            }
        }
        assert(head.push(texts.last()) =~= texts);
        assert forall|k: int| 0 <= k < all.len() implies #[trigger] all[k] == text
            || texts.contains(all[k]) by {
            if k < front.len() {
                assert(all[k] == front[k]);
                if front[k] != text {
                    let m = choose|m: int| 0 <= m < head.len() && head[m] == front[k];
                    assert(texts[m] == all[k]);
                }
            } else {
                assert(texts[texts.len() - 1] == all[k]);
            }
        }
        assert(all.to_multiset() =~= texts.to_multiset().insert(text));
    } else {
        assert forall|i: int, j: int| 0 <= i < j < all.len() implies text_le(
            #[trigger] all[i],
            #[trigger] all[j],
        ) by {
            if j == texts.len() {
                if i < texts.len() - 1 {
                    lemma_text_le_transitive(texts[i], texts.last(), text);
                }
            } else {
                assert(all[i] == texts[i] && all[j] == texts[j]);
            }
        }
        assert forall|k: int| 0 <= k < all.len() implies #[trigger] all[k] == text
            || texts.contains(all[k]) by {
            if k < texts.len() {
                assert(texts[k] == all[k]);
            }
        }
    }
}

/// Sorting puts the same texts in order.
pub proof fn law_sorted(texts: Seq<Seq<char>>)
    ensures
        in_order(sorted(texts)),
        sorted(texts).len() == texts.len(),
        sorted(texts).to_multiset() == texts.to_multiset(),
    decreases texts.len(),
{
    broadcast use vstd::seq_lib::to_multiset_build;

    if texts.len() > 0 {
        law_sorted(texts.drop_last());
        lemma_inserted(sorted(texts.drop_last()), texts.last());
        assert(texts.drop_last().push(texts.last()) =~= texts);
    } else {
        assert(texts =~= Seq::<Seq<char>>::empty());
    }
}

/// Sorting adds no text.
pub proof fn lemma_sorted_members(texts: Seq<Seq<char>>, i: int)
    requires
        0 <= i < sorted(texts).len(),
    ensures
        exists|k: int| 0 <= k < texts.len() && #[trigger] texts[k] == sorted(texts)[i],
    decreases texts.len(),
{
    law_sorted(texts);
    law_sorted(texts.drop_last());
    let head = sorted(texts.drop_last());
    lemma_inserted(head, texts.last());
    let text = sorted(texts)[i];
    if text == texts.last() {
        assert(texts[texts.len() - 1] == text);
    } else {
        let m = choose|m: int| 0 <= m < head.len() && head[m] == text;
        lemma_sorted_members(texts.drop_last(), m);
        let k = choose|k: int|
            0 <= k < texts.drop_last().len() && #[trigger] texts.drop_last()[k] == text;
        assert(texts[k] == text);
    }
}

/// Puts `text` at its place among texts in order.
pub fn insert_sorted(texts: &mut Vec<String>, text: String)
    ensures
        deep(final(texts)@) == inserted(deep(old(texts)@), text@),
{
    let ghost before = texts@;
    let mut place: usize = texts.len();
    proof {
        assert(deep(before).take(place as int) =~= deep(before));
    }
    while place > 0 && !le(&texts[place - 1], &text)
        invariant
            place <= texts@.len(),
            texts@ == before,
            inserted(deep(before), text@) == inserted(
                deep(before).take(place as int),
                text@,
            ) + deep(before).skip(place as int),
        decreases place,
    {
        proof {
            let models = deep(before);
            let head = models.take(place as int);
            assert(head.last() == before[place - 1]@);
            assert(head.drop_last() =~= models.take(place - 1));
            assert(inserted(models.take(place - 1), text@).push(head.last()) + models.skip(
                place as int,
            ) =~= inserted(models.take(place - 1), text@) + models.skip(place - 1));
        }
        place -= 1;
    }
    proof {
        let models = deep(before);
        if place > 0 {
            assert(models.take(place as int).last() == before[place - 1]@);
        }
        assert(inserted(models.take(place as int), text@) == models.take(place as int).push(text@));
    }
    texts.insert(place, text);
    proof {
        let models = deep(before);
        assert(deep(texts@) =~= models.take(place as int).push(text@) + models.skip(
            place as int,
        ));
    }
}

/// The texts in order.
pub fn sort(texts: &[String]) -> (r: Vec<String>)
    ensures
        deep(r@) == sorted(deep(texts@)),
{
    let mut r: Vec<String> = Vec::new();
    let mut i: usize = 0;
    proof {
        assert(deep(texts@).take(0) =~= Seq::<Seq<char>>::empty());
        assert(deep(r@) =~= Seq::<Seq<char>>::empty());
    }
    while i < texts.len()
        invariant
            i <= texts@.len(),
            deep(r@) == sorted(deep(texts@).take(i as int)),
        decreases texts@.len() - i,
    {
        insert_sorted(&mut r, texts[i].clone());
        i += 1;
        proof {
            let models = deep(texts@);
            assert(models.take(i as int).drop_last() =~= models.take(i - 1));
            assert(models.take(i as int).last() == texts@[i - 1]@);
        }
    }
    proof {
        assert(deep(texts@).take(texts@.len() as int) =~= deep(texts@));
    }
    r
}

} // verus!
