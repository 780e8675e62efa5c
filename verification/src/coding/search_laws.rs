//! What searching in files guarantees.

use vstd::prelude::*;
use vstd::utf8::is_ascii_chars;

use super::limits::MAX_OUTPUT_CHARS;
use super::search::{
    grep_lines, grep_row, grep_text, line_matches, unreadable, without_ending, GrepModel,
};
use crate::number::decimal;
use crate::text::{first_chars, has_part, lower, lowercase, lowered, occurs_at};

verus! {

// ---- letters ----

proof fn lemma_lowered_ascii(s: Seq<char>)
    ensures
        is_ascii_chars(s) == is_ascii_chars(lowered(s)),
        lowered(lowered(s)) == lowered(s),
{
    assert forall|i: int| 0 <= i < s.len() implies lowered(s)[i] == lower(#[trigger] s[i]) by {}
    assert forall|c: char|
        #![trigger lower(c)]
        lower(lower(c)) == lower(c) && (c <= '\u{7f}') == (lower(c) <= '\u{7f}') by {
        if 'A' <= c && c <= 'Z' {
            let n = c as u8;
            assert(65 <= n <= 90);
            let d = (n + 32) as u8;
            assert(97 <= d <= 122);
            assert(lower(c) as u32 == d);
        }
    }
    if is_ascii_chars(s) {
        assert forall|i: int| 0 <= i < lowered(s).len() implies '\0' <= #[trigger] lowered(s)[i]
            <= '\u{7f}' by {
            assert('\0' <= s[i] <= '\u{7f}');
        }
    }
    if is_ascii_chars(lowered(s)) {
        assert forall|i: int| 0 <= i < s.len() implies '\0' <= #[trigger] s[i] <= '\u{7f}' by {
            assert('\0' <= lowered(s)[i] <= '\u{7f}');
        }
    }
    assert(lowered(lowered(s)) =~= lowered(s));
}

/// With the case, a line matches if and only if the pattern stands in it. Without the case, it
/// matches if and only if the pattern in lower case stands in the line in lower case.
pub proof fn law_lines_match_where_the_pattern_stands_in_them(
    value: Seq<char>,
    pattern: Seq<char>,
)
    ensures
        line_matches(value, pattern, true) <==> exists|i: int|
            0 <= i <= value.len() - pattern.len() && #[trigger] value.subrange(
                i,
                i + pattern.len(),
            ) == pattern,
        is_ascii_chars(pattern) ==> (line_matches(value, pattern, false) <==> line_matches(
            lowercase(value),
            lowered(pattern),
            true,
        )),
{
    if line_matches(value, pattern, true) {
        let i = choose|i: int| occurs_at(value, pattern, i);
        assert(0 <= i <= value.len() - pattern.len() && value.subrange(i, i + pattern.len())
            == pattern);
    }
    if exists|i: int|
        0 <= i <= value.len() - pattern.len() && #[trigger] value.subrange(i, i + pattern.len())
            == pattern {
        let i = choose|i: int|
            0 <= i <= value.len() - pattern.len() && #[trigger] value.subrange(
                i,
                i + pattern.len(),
            ) == pattern;
        assert(occurs_at(value, pattern, i));
    }
    lemma_lowered_ascii(pattern);
    lemma_lowered_ascii(value);
}

/// A search that ignores the case depends on the case of neither the pattern nor the line, and
/// finds every line that a search with the case finds.
pub proof fn law_search_without_case_ignores_the_case(
    value: Seq<char>,
    other: Seq<char>,
    pattern: Seq<char>,
    query: Seq<char>,
)
    requires
        is_ascii_chars(value),
        is_ascii_chars(pattern),
        lowered(value) == lowered(other),
        lowered(pattern) == lowered(query),
    ensures
        line_matches(value, pattern, false) == line_matches(other, query, false),
        line_matches(value, pattern, true) ==> line_matches(other, query, false),
{
    lemma_lowered_ascii(value);
    lemma_lowered_ascii(other);
    lemma_lowered_ascii(pattern);
    lemma_lowered_ascii(query);
    if line_matches(value, pattern, true) {
        let i = choose|i: int| occurs_at(value, pattern, i);
        assert(lowered(value).subrange(i, i + pattern.len()) =~= lowered(pattern)) by {
            assert forall|k: int| 0 <= k < pattern.len() implies value[i + k] == #[trigger]
                pattern[k] by {
                assert(value.subrange(i, i + pattern.len())[k] == pattern[k]);
            }
        }
        assert(occurs_at(lowered(value), lowered(pattern), i));
        assert(has_part(lowered(value), lowered(pattern)));
    }
}

/// The same holds of the pattern whatever the line.
pub proof fn law_case_of_the_pattern_does_not_count(
    value: Seq<char>,
    pattern: Seq<char>,
    query: Seq<char>,
)
    requires
        is_ascii_chars(pattern),
        lowered(pattern) == lowered(query),
    ensures
        line_matches(value, pattern, false) == line_matches(value, query, false),
{
    lemma_lowered_ascii(pattern);
    lemma_lowered_ascii(query);
}

// ---- files ----

proof fn lemma_holds_more(output: Seq<char>, row: Seq<char>, more: Seq<char>)
    requires
        has_part(output, row),
    ensures
        has_part(output + more, row),
{
    let i = choose|i: int| occurs_at(output, row, i);
    assert((output + more).subrange(i, i + row.len()) =~= output.subrange(i, i + row.len()));
    assert(occurs_at(output + more, row, i));
}

/// The lines that match.
pub open spec fn matching(
    lines: Seq<Seq<char>>,
    pattern: Seq<char>,
    case_sensitive: bool,
) -> Seq<Seq<char>> {
    lines.filter(|line: Seq<char>| line_matches(without_ending(line), pattern, case_sensitive))
}

#[verifier::spinoff_prover]
#[verifier::rlimit(60)]
proof fn lemma_grep(
    state: GrepModel,
    pattern: Seq<char>,
    case_sensitive: bool,
    max_matches: nat,
    relative: Seq<char>,
    lines: Seq<Seq<char>>,
    failed: bool,
    i: nat,
    k: int,
)
    requires
        i <= lines.len(),
        !state.done,
        forall|j: int| 0 <= j < lines.len() ==> !unreadable(#[trigger] lines[j]),
    ensures
        ({
            let after = grep_lines(
                state,
                pattern,
                case_sensitive,
                max_matches,
                relative,
                lines,
                failed,
                i,
            );
            let found = matching(lines.skip(i as int), pattern, case_sensitive).len();
            &&& state.output.len() <= after.output.len()
            &&& after.output.take(state.output.len() as int) == state.output
            &&& !after.done ==> {
                &&& after.matches == state.matches + found
                &&& after.skipped == state.skipped + (if failed {
                    1nat
                } else {
                    0nat
                })
                &&& found == 0 ==> after.output == state.output
                &&& i <= k < lines.len() && line_matches(
                    without_ending(lines[k]),
                    pattern,
                    case_sensitive,
                ) ==> has_part(
                    after.output,
                    relative + ":"@ + decimal((k + 1) as nat) + ": "@ + first_chars(
                        without_ending(lines[k]),
                        500,
                    ) + "\n"@,
                )
            }
            &&& after.done ==> state.matches + found > max_matches || after.output.len()
                >= MAX_OUTPUT_CHARS
        }),
    decreases lines.len() - i,
{
    reveal(Seq::filter);
    let keep = |line: Seq<char>|
        line_matches(without_ending(line), pattern, case_sensitive);
    let rest = lines.skip(i as int);
    if i >= lines.len() {
        assert(rest =~= Seq::<Seq<char>>::empty());
        assert(state.output.take(state.output.len() as int) =~= state.output);
    } else {
        let value = without_ending(lines[i as int]);
        let tail = lines.skip(i as int + 1);
        assert(rest =~= seq![lines[i as int]] + tail);
        assert(!unreadable(lines[i as int]));
        let one = seq![lines[i as int]];
        Seq::filter_distributes_over_add(one, tail, keep);
        assert(one.drop_last() =~= Seq::<Seq<char>>::empty());
        assert(one.drop_last().filter(keep).len() == 0);
        assert(one.filter(keep).len() == if keep(one.last()) {
            1nat
        } else {
            0nat
        });
        if !line_matches(value, pattern, case_sensitive) {
            lemma_grep(
                state,
                pattern,
                case_sensitive,
                max_matches,
                relative,
                lines,
                failed,
                i + 1,
                k,
            );
        } else if state.matches >= max_matches {
            assert(state.output.take(state.output.len() as int) =~= state.output);
        } else {
            let row = grep_row(relative, i + 1, value);
            let output = state.output + super::limits::room_for(row, state.output.len());
            assert(output.take(state.output.len() as int) =~= state.output);
            if super::limits::fits_in(row, state.output.len()) {
                let next = GrepModel { output, matches: state.matches + 1, ..state };
                lemma_grep(
                    next,
                    pattern,
                    case_sensitive,
                    max_matches,
                    relative,
                    lines,
                    failed,
                    i + 1,
                    k,
                );
                let after = grep_lines(
                    next,
                    pattern,
                    case_sensitive,
                    max_matches,
                    relative,
                    lines,
                    failed,
                    i + 1,
                );
                assert(after.output.take(state.output.len() as int) =~= after.output.take(
                    output.len() as int,
                ).take(state.output.len() as int));
                if k == i {
                    assert(output == state.output + row);
                    assert(output.subrange(state.output.len() as int, output.len() as int) =~= row);
                    assert(occurs_at(output, row, state.output.len() as int));
                    assert(has_part(output, row));
                    let more = after.output.skip(output.len() as int);
                    assert(after.output =~= after.output.take(output.len() as int) + more);
                    lemma_holds_more(output, row, more);
                }
            }
        }
    }
}

/// A search shows every line that matches, with the name of the file and the number of the line,
/// and counts them; where none matches, nothing is shown. What was shown before stays. It ends
/// early only where there are more matches than it may show, or where the output is full.
pub proof fn law_search_shows_every_match(
    state: GrepModel,
    pattern: Seq<char>,
    case_sensitive: bool,
    max_matches: nat,
    relative: Seq<char>,
    lines: Seq<Seq<char>>,
    failed: bool,
    k: int,
)
    requires
        !state.done,
        forall|j: int| 0 <= j < lines.len() ==> !unreadable(#[trigger] lines[j]),
    ensures
        ({
            let after = grep_lines(
                state,
                pattern,
                case_sensitive,
                max_matches,
                relative,
                lines,
                failed,
                0,
            );
            let found = matching(lines, pattern, case_sensitive).len();
            &&& state.output.len() <= after.output.len()
            &&& after.output.take(state.output.len() as int) == state.output
            &&& !after.done ==> {
                &&& after.matches == state.matches + found
                &&& after.skipped == state.skipped + (if failed {
                    1nat
                } else {
                    0nat
                })
                &&& found == 0 ==> after.output == state.output
                &&& 0 <= k < lines.len() && line_matches(
                    without_ending(lines[k]),
                    pattern,
                    case_sensitive,
                ) ==> has_part(
                    after.output,
                    relative + ":"@ + decimal((k + 1) as nat) + ": "@ + first_chars(
                        without_ending(lines[k]),
                        500,
                    ) + "\n"@,
                )
            }
            &&& after.done ==> state.matches + found > max_matches || after.output.len()
                >= MAX_OUTPUT_CHARS
        }),
{
    assert(lines.skip(0) =~= lines);
    lemma_grep(
        state,
        pattern,
        case_sensitive,
        max_matches,
        relative,
        lines,
        failed,
        0,
        k,
    );
}

/// A line that cannot be shown ends the search in its file, which then counts as skipped; what was
/// found before it stays.
pub proof fn law_unreadable_files_are_skipped(
    state: GrepModel,
    pattern: Seq<char>,
    case_sensitive: bool,
    max_matches: nat,
    relative: Seq<char>,
    lines: Seq<Seq<char>>,
    failed: bool,
)
    requires
        lines.len() > 0,
        unreadable(lines[0]),
    ensures
        grep_lines(
            state,
            pattern,
            case_sensitive,
            max_matches,
            relative,
            lines,
            failed,
            0,
        ) == (GrepModel { skipped: state.skipped + 1, ..state }),
{
}

/// What a search found is shown; where it found nothing that is said, and so is how many files
/// were skipped.
pub proof fn law_searches_tell_what_they_found(state: GrepModel)
    ensures
        grep_text(state).len() >= state.output.len(),
        grep_text(state).take(state.output.len() as int) == state.output,
        !state.done && state.matches == 0 ==> has_part(grep_text(state), "No matches\n"@),
        !state.done && state.skipped > 0 ==> has_part(
            grep_text(state),
            "[skipped "@ + decimal(state.skipped) + " unreadable or binary file(s)]\n"@,
        ),
        !state.done && state.matches > 0 && state.skipped == 0 && state.output.len()
            < MAX_OUTPUT_CHARS ==> grep_text(state) == state.output,
{
    let text = grep_text(state);
    assert(text.take(state.output.len() as int) =~= state.output);
    if !state.done {
        let none = "No matches\n"@;
        let skipped = "[skipped "@ + decimal(state.skipped) + " unreadable or binary file(s)]\n"@;
        let found = if state.matches == 0 {
            state.output + none
        } else {
            state.output
        };
        if state.matches == 0 {
            let at = state.output.len() as int;
            assert(text.subrange(at, at + none.len()) =~= none);
            assert(occurs_at(text, none, at));
        }
        if state.skipped > 0 {
            let at = found.len() as int;
            assert(text.subrange(at, at + skipped.len()) =~= skipped);
            assert(occurs_at(text, skipped, at));
        }
    }
}

} // verus!
