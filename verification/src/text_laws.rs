//! What taking texts apart and putting them together guarantees.

use vstd::prelude::*;

use crate::text::{
    begins_with, finishes_with, is_blank, is_space, joined, lemma_next_char, lines_from, lines_of,
    lower, lowered, next_char, noted, split_from, split_on, trim_end, trim_start, trimmed,
    without_return, without_tail, words,
};

verus! {

proof fn lemma_joined_first(first: Seq<char>, rest: Seq<Seq<char>>, by: Seq<char>)
    requires
        rest.len() > 0,
    ensures
        joined(seq![first] + rest, by) == first + by + joined(rest, by),
    decreases rest.len(),
{
    let all = seq![first] + rest;
    assert(all.drop_last() =~= seq![first] + rest.drop_last());
    assert(all.last() == rest.last());
    if rest.len() == 1 {
        assert(all.drop_last() =~= seq![first]);
        assert(joined(seq![first], by) == first);
        assert(joined(rest, by) == rest[0]);
        assert(joined(all, by) =~= first + by + rest[0]);
    } else {
        lemma_joined_first(first, rest.drop_last(), by);
        assert(joined(all, by) =~= first + by + joined(rest, by));
    }
}

proof fn lemma_split(s: Seq<char>, c: char, from: int, k: int)
    requires
        0 <= from <= s.len(),
    ensures
        split_from(s, c, from).len() > 0,
        joined(split_from(s, c, from), seq![c]) == s.skip(from),
        0 <= k < split_from(s, c, from).len() ==> !split_from(s, c, from)[k].contains(c),
    decreases s.len() - from,
{
    lemma_next_char(s, c, from);
    let end = next_char(s, c, from);
    if end < s.len() {
        lemma_split(s, c, end + 1, k - 1);
        let rest = split_from(s, c, end + 1);
        let first = s.subrange(from, end);
        lemma_joined_first(first, rest, seq![c]);
        assert(first + seq![c] + s.skip(end + 1) =~= s.skip(from));
        if k == 0 && first.contains(c) {
            let j = choose|j: int| 0 <= j < first.len() && first[j] == c;
            assert(s[from + j] == c);
        }
    } else {
        let last = s.skip(from);
        assert(joined(seq![last], seq![c]) == last);
        if last.contains(c) {
            let j = choose|j: int| 0 <= j < last.len() && last[j] == c;
            assert(s[from + j] == c);
        }
    }
}

/// The parts of a text between the signs hold no such sign, and with the signs between them they
/// are the text again.
pub proof fn law_parts_make_up_the_text(s: Seq<char>, c: char, k: int)
    ensures
        split_on(s, c).len() > 0,
        joined(split_on(s, c), seq![c]) == s,
        0 <= k < split_on(s, c).len() ==> !split_on(s, c)[k].contains(c),
{
    lemma_split(s, c, 0, k);
    assert(s.skip(0) =~= s);
}

/// A list that is put together is the first text, the sign and the rest put together.
pub proof fn law_lists_are_put_together(
    first: Seq<char>,
    rest: Seq<Seq<char>>,
    by: Seq<char>,
)
    ensures
        joined(Seq::empty(), by) == Seq::<char>::empty(),
        joined(seq![first], by) == first,
        rest.len() > 0 ==> joined(seq![first] + rest, by) == first + by + joined(rest, by),
{
    if rest.len() > 0 {
        lemma_joined_first(first, rest, by);
    }
}

proof fn lemma_trim_start(s: Seq<char>) -> (n: int)
    ensures
        0 <= n <= s.len(),
        trim_start(s) == s.skip(n),
        is_blank(s.take(n)),
        n < s.len() ==> !is_space(s[n]),
    decreases s.len(),
{
    if s.len() > 0 && is_space(s.first()) {
        let rest = s.drop_first();
        let n = lemma_trim_start(rest);
        assert(rest.skip(n) =~= s.skip(n + 1));
        assert forall|i: int| 0 <= i < s.take(n + 1).len() implies is_space(
            #[trigger] s.take(n + 1)[i],
        ) by {
            if i > 0 {
                assert(rest.take(n)[i - 1] == s.take(n + 1)[i]);
            }
        }
        if n + 1 < s.len() {
            assert(rest[n] == s[n + 1]);
        }
        n + 1
    } else {
        assert(s.skip(0) =~= s);
        0
    }
}

proof fn lemma_trim_end(s: Seq<char>) -> (n: int)
    ensures
        0 <= n <= s.len(),
        trim_end(s) == s.take(n),
        is_blank(s.skip(n)),
        n > 0 ==> !is_space(s[n - 1]),
    decreases s.len(),
{
    if s.len() > 0 && is_space(s.last()) {
        let head = s.drop_last();
        let n = lemma_trim_end(head);
        assert(head.take(n) =~= s.take(n));
        assert forall|i: int| 0 <= i < s.skip(n).len() implies is_space(#[trigger] s.skip(n)[i]) by {
            if i < head.skip(n).len() {
                assert(head.skip(n)[i] == s.skip(n)[i]);
            }
        }
        n
    } else {
        assert(s.take(s.len() as int) =~= s);
        s.len() as int
    }
}

/// A text is what stands in it without the white space around it, with white space before and
/// behind that. What is left begins and ends with something else, and is left alone if it is
/// trimmed again.
pub proof fn law_trimming_takes_white_space_away(s: Seq<char>)
    ensures
        exists|a: int, b: int|
            {
                &&& 0 <= a <= b <= s.len()
                &&& trimmed(s) == #[trigger] s.subrange(a, b)
                &&& is_blank(s.take(a))
                &&& is_blank(s.skip(b))
            },
        trimmed(s).len() > 0 ==> !is_space(trimmed(s).first()) && !is_space(trimmed(s).last()),
        trimmed(trimmed(s)) == trimmed(s),
        trimmed(s).len() == 0 <==> is_blank(s),
{
    let a = lemma_trim_start(s);
    let rest = s.skip(a);
    let n = lemma_trim_end(rest);
    let b = a + n;
    assert(rest.take(n) =~= s.subrange(a, b));
    assert(rest.skip(n) =~= s.skip(b));
    assert(trimmed(s) == s.subrange(a, b));
    let t = trimmed(s);
    if t.len() > 0 {
        assert(t.first() == s[a]);
        assert(t.last() == rest[n - 1]);
        assert(trim_start(t) == t);
        assert(trim_end(t) == t);
    }
    crate::text::lemma_blank_trim(s);
}

/// All texts one behind the other.
pub open spec fn run_together(texts: Seq<Seq<char>>) -> Seq<char>
    decreases texts.len(),
{
    if texts.len() == 0 {
        Seq::empty()
    } else {
        run_together(texts.drop_last()) + texts.last()
    }
}

/// The words of a text hold no white space, none is empty, and together they are all that is not
/// white space, in order.
pub proof fn law_words_are_all_but_white_space(s: Seq<char>, k: int)
    ensures
        run_together(words(s)) == s.filter(|c: char| !is_space(c)),
        0 <= k < words(s).len() ==> words(s)[k].len() > 0 && words(s)[k].all(
            |c: char| !is_space(c),
        ),
        s.len() > 0 && !is_space(s.last()) ==> words(s).len() > 0,
    decreases s.len(),
{
    reveal(Seq::filter);
    let seen = |c: char| !is_space(c);
    if s.len() == 0 {
        assert(run_together(words(s)) =~= s.filter(seen));
    } else {
        let front = s.drop_last();
        let head = words(front);
        let all = words(s);
        law_words_are_all_but_white_space(front, k);
        if !is_space(s.last()) {
            if s.len() == 1 || is_space(s[s.len() - 2]) {
                assert(all.drop_last() =~= head);
                assert(run_together(all) =~= run_together(head).push(s.last()));
            } else {
                assert(front.last() == s[s.len() - 2]);
                assert(head.len() > 0);
                law_words_are_all_but_white_space(front, head.len() - 1);
                assert(all.drop_last() =~= head.drop_last());
                assert(run_together(all) =~= run_together(head).push(s.last()));
                if k == all.len() - 1 {
                    assert(all[k] == head.last().push(s.last()));
                    assert(head[k].all(seen));
                    assert forall|i: int| 0 <= i < all[k].len() implies seen(
                        #[trigger] all[k][i],
                    ) by {
                        if i < head[k].len() {
                            assert(head[k][i] == all[k][i]);
                        }
                    }
                }
            }
        }
        assert(run_together(all) =~= s.filter(seen));
    }
}

proof fn lemma_lines(s: Seq<char>, from: int, k: int)
    requires
        0 <= from <= s.len(),
    ensures
        0 <= k < lines_from(s, from).len() ==> !lines_from(s, from)[k].contains('\n'),
    decreases s.len() - from,
{
    if from < s.len() {
        lemma_next_char(s, '\n', from);
        let end = next_char(s, '\n', from);
        if end < s.len() {
            lemma_lines(s, end + 1, k - 1);
            let first = without_return(s.subrange(from, end));
            if k == 0 && first.contains('\n') {
                let j = choose|j: int| 0 <= j < first.len() && first[j] == '\n';
                assert(s.subrange(from, end)[j] == '\n');
                assert(s[from + j] == '\n');
            }
        } else {
            let last = s.skip(from);
            if last.contains('\n') {
                let j = choose|j: int| 0 <= j < last.len() && last[j] == '\n';
                assert(s[from + j] == '\n');
            }
        }
    }
}

/// A line holds no line feed. A text of one line more has that line more: the lines of a text are
/// its first line and those of what follows.
pub proof fn law_lines_follow_each_other(line: Seq<char>, rest: Seq<char>, k: int)
    requires
        !line.contains('\n'),
    ensures
        lines_of(line + "\n"@ + rest) == seq![without_return(line)] + lines_of(rest),
        line.len() > 0 ==> lines_of(line) == seq![line],
        lines_of(Seq::empty()) == Seq::<Seq<char>>::empty(),
        0 <= k < lines_of(rest).len() ==> !lines_of(rest)[k].contains('\n'),
{
    reveal_strlit("\n");
    lemma_lines(rest, 0, k);
    let s = line + "\n"@ + rest;
    lemma_next_char(s, '\n', 0);
    let end = next_char(s, '\n', 0);
    assert(s[line.len() as int] == '\n');
    if end < line.len() {
        assert(line[end] == '\n');
    }
    assert(end == line.len());
    assert(s.subrange(0, end) =~= line);
    assert(s.skip(end + 1) =~= rest);
    lemma_lines_shift(s, rest, end + 1, 0);
    if line.len() > 0 {
        lemma_next_char(line, '\n', 0);
        let stop = next_char(line, '\n', 0);
        if stop < line.len() {
            assert(line.contains('\n'));
        }
        assert(line.skip(0) =~= line);
    }
}

proof fn lemma_lines_shift(s: Seq<char>, rest: Seq<char>, n: int, from: int)
    requires
        0 <= n <= s.len(),
        s.skip(n) == rest,
        0 <= from <= rest.len(),
    ensures
        lines_from(s, n + from) == lines_from(rest, from),
    decreases rest.len() - from,
{
    assert(s.len() == n + rest.len());
    if from < rest.len() {
        lemma_next_char(s, '\n', n + from);
        lemma_next_char(rest, '\n', from);
        let a = next_char(s, '\n', n + from);
        let b = next_char(rest, '\n', from);
        assert forall|i: int| 0 <= i < rest.len() implies rest[i] == #[trigger] s[n + i] by {}
        if a < n + b {
            assert(s[a] == rest[a - n]);
        } else if a > n + b {
            assert(s[n + b] == rest[b]);
        }
        assert(a == n + b);
        if b < rest.len() {
            assert(s.subrange(n + from, a) =~= rest.subrange(from, b));
            lemma_lines_shift(s, rest, n, b + 1);
        } else {
            assert(s.skip(n + from) =~= rest.skip(from));
        }
    }
}

/// A text begins with another if and only if it is that one with something behind it, and ends
/// with it if and only if it is that one with something before it.
pub proof fn law_beginnings_and_ends(part: Seq<char>, other: Seq<char>, s: Seq<char>)
    ensures
        begins_with(part + other, part),
        finishes_with(other + part, part),
        begins_with(s, part) ==> s == part + s.skip(part.len() as int),
        finishes_with(s, part) ==> s == s.take(s.len() - part.len()) + part,
{
    assert((part + other).take(part.len() as int) =~= part);
    assert((other + part).skip(other.len() as int) =~= part);
    if begins_with(s, part) {
        assert(s =~= s.take(part.len() as int) + s.skip(part.len() as int));
    }
    if finishes_with(s, part) {
        assert(s =~= s.take(s.len() - part.len()) + s.skip(s.len() - part.len()));
    }
}

/// Letters of the ASCII alphabet are put in lower case, each for itself; all else stays, and so
/// does a text that is in lower case.
pub proof fn law_letters_are_put_in_lower_case(s: Seq<char>, i: int)
    requires
        0 <= i < s.len(),
    ensures
        lowered(s).len() == s.len(),
        !('A' <= s[i] && s[i] <= 'Z') ==> lowered(s)[i] == s[i],
        'A' <= s[i] && s[i] <= 'Z' ==> lowered(s)[i] as int == s[i] as int + 32,
{
    let c = s[i];
    if 'A' <= c && c <= 'Z' {
        let n = c as u8;
        assert(65 <= n <= 90);
        assert(lower(c) as u32 == n + 32);
    }
}

/// A text that is no longer than it may be stays, and of a longer one the beginning is kept, with
/// the note behind it.
pub proof fn law_long_texts_are_noted(s: Seq<char>, limit: nat, note: Seq<char>)
    ensures
        s.len() <= limit ==> noted(s, limit, note) == s,
        s.len() > limit ==> noted(s, limit, note).take(limit as int) == s.take(limit as int)
            && noted(s, limit, note).skip(limit as int) == note,
{
    if s.len() > limit {
        let all = noted(s, limit, note);
        assert(all.take(limit as int) =~= s.take(limit as int));
        assert(all.skip(limit as int) =~= note);
    }
}

/// The signs behind a text are taken away, all of them, and nothing else.
pub proof fn law_signs_behind_a_text_are_taken_away(s: Seq<char>, c: char) -> (n: int)
    ensures
        0 <= n <= s.len(),
        without_tail(s, c) == s.take(n),
        n > 0 ==> s[n - 1] != c,
        forall|i: int| n <= i < s.len() ==> #[trigger] s[i] == c,
    decreases s.len(),
{
    if s.len() > 0 && s.last() == c {
        let head = s.drop_last();
        let n = law_signs_behind_a_text_are_taken_away(head, c);
        assert(head.take(n) =~= s.take(n));
        assert forall|i: int| n <= i < s.len() implies #[trigger] s[i] == c by {
            if i < head.len() {
                assert(head[i] == s[i]);
            }
        }
        n
    } else {
        assert(s.take(s.len() as int) =~= s);
        s.len() as int
    }
}

} // verus!
