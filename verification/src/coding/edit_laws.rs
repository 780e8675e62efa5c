//! What replacing text in a file guarantees.

use vstd::prelude::*;

use super::edit::{occurrences, replaced, replacement};
use crate::text::{find_from, has_part, joined, lemma_find_from, occurs_at};

verus! {

proof fn lemma_joined_cons(first: Seq<char>, rest: Seq<Seq<char>>, by: Seq<char>)
    requires
        rest.len() > 0,
    ensures
        joined(seq![first] + rest, by) == first + by + joined(rest, by),
    decreases rest.len(),
{
    let all = seq![first] + rest;
    assert(all.drop_last() =~= seq![first] + rest.drop_last());
    assert(all.last() == rest.last());
    if rest.len() == 1 {
        assert(all.drop_last() =~= seq![first]);
        assert(joined(seq![first], by) == first);
        assert(joined(rest, by) == rest[0]);
        assert(joined(all, by) =~= first + by + rest[0]);
    } else {
        lemma_joined_cons(first, rest.drop_last(), by);
        assert(joined(all, by) =~= first + by + joined(rest, by));
    }
}

proof fn lemma_pieces(text: Seq<char>, part: Seq<char>, new: Seq<char>, from: int) -> (pieces: Seq<
    Seq<char>,
>)
    requires
        0 <= from <= text.len(),
        part.len() > 0,
    ensures
        pieces.len() == occurrences(text, part, from) + 1,
        joined(pieces, part) == text.skip(from),
        joined(pieces, new) == replaced(text, part, new, from, occurrences(text, part, from)),
        forall|k: int| 0 <= k < pieces.len() ==> !has_part(#[trigger] pieces[k], part),
    decreases text.len() - from,
{
    lemma_find_from(text, part, from);
    match find_from(text, part, from) {
        Some(i) => {
            let rest = lemma_pieces(text, part, new, i + part.len());
            let first = text.subrange(from, i);
            let all = seq![first] + rest;
            lemma_joined_cons(first, rest, part);
            lemma_joined_cons(first, rest, new);
            assert(first + part + text.skip(i + part.len()) =~= text.skip(from));
            assert(!has_part(first, part)) by {
                if has_part(first, part) {
                    let k = choose|k: int| occurs_at(first, part, k);
                    assert(text.subrange(from + k, from + k + part.len()) =~= first.subrange(
                        k,
                        k + part.len(),
                    ));
                    assert(occurs_at(text, part, from + k));
                }
            }
            all
        },
        None => {
            let one = text.skip(from);
            let all = seq![one];
            assert(joined(all, part) == one);
            assert(joined(all, new) == one);
            assert(!has_part(one, part)) by {
                if has_part(one, part) {
                    let k = choose|k: int| occurs_at(one, part, k);
                    assert(text.subrange(from + k, from + k + part.len()) =~= one.subrange(
                        k,
                        k + part.len(),
                    ));
                    assert(occurs_at(text, part, from + k));
                }
            }
            all
        },
    }
}

/// Every occurrence of a text is replaced, and nothing else: the file is made of pieces in which
/// the text does not stand, with the text between each two of them; the new file is made of the
/// same pieces with the new text between them.
pub proof fn law_every_occurrence_is_replaced(
    text: Seq<char>,
    path: Seq<char>,
    part: Seq<char>,
    new: Seq<char>,
    replace_all: bool,
)
    requires
        part.len() > 0,
    ensures
        replacement(text, path, part, new, replace_all) matches Ok((after, count)) ==> {
            &&& count > 0
            &&& exists|pieces: Seq<Seq<char>>|
                {
                    &&& pieces.len() == count + 1
                    &&& text == #[trigger] joined(pieces, part)
                    &&& after == joined(pieces, new)
                    &&& forall|k: int| 0 <= k < pieces.len() ==> !has_part(#[trigger] pieces[k], part)
                }
        },
{
    let pieces = lemma_pieces(text, part, new, 0);
    assert(text.skip(0) =~= text);
    assert(text == joined(pieces, part));
}

/// A text is refused if and only if it does not stand in the file, or stands there more than once
/// where it is to be replaced once.
pub proof fn law_only_what_stands_there_is_replaced(
    text: Seq<char>,
    path: Seq<char>,
    part: Seq<char>,
    new: Seq<char>,
    i: int,
    j: int,
)
    requires
        part.len() > 0,
    ensures
        !has_part(text, part) <==> replacement(text, path, part, new, true) is Err,
        !has_part(text, part) ==> replacement(text, path, part, new, false) is Err,
        occurs_at(text, part, i) && occurs_at(text, part, j) && i + part.len() <= j
            ==> replacement(text, path, part, new, false) is Err,
        occurs_at(text, part, i) && (forall|k: int| k != i ==> !occurs_at(text, part, k))
            ==> replacement(text, path, part, new, false) == Ok::<(Seq<char>, nat), Seq<char>>(
            (text.take(i) + new + text.skip(i + part.len()), 1),
        ),
{
    lemma_find_from(text, part, 0);
    match find_from(text, part, 0) {
        Some(first) => {
            assert(has_part(text, part));
            let end = first + part.len();
            lemma_find_from(text, part, end);
            if occurs_at(text, part, i) && occurs_at(text, part, j) && i + part.len() <= j {
                assert(first <= i);
                if find_from(text, part, end) is None {
                    assert(!occurs_at(text, part, j));
                }
                assert(occurrences(text, part, end) >= 1);
            }
            if occurs_at(text, part, i) && (forall|k: int| k != i ==> !occurs_at(text, part, k)) {
                assert(first == i);
                assert(find_from(text, part, end) is None);
                assert(occurrences(text, part, end) == 0);
                assert(occurrences(text, part, 0) == 1);
                assert(replaced(text, part, new, end, 0) == text.skip(end));
                assert(text.subrange(0, i) =~= text.take(i));
                assert(replaced(text, part, new, 0, 1) == text.subrange(0, i) + new + text.skip(
                    end,
                ));
            }
        },
        None => {
            if has_part(text, part) {
                let k = choose|k: int| occurs_at(text, part, k);
                assert(!occurs_at(text, part, k));
            }
            assert(occurrences(text, part, 0) == 0);
        },
    }
}

} // verus!
