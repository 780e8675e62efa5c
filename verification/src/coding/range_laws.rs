//! Which lines, and how many results, are shown.

use vstd::prelude::*;

use super::arguments::argument_number;
use super::limits::{truncated_text, MAX_OUTPUT_CHARS, MAX_READ_LINES};
use super::names::shown_path;
use super::search::{first_line, last_line, result_limit};
use crate::json::JsonModel;
use crate::text::has_part;

verus! {

/// As many results are shown as are asked for, but at least one and not more than there may be;
/// without a number, as many as there may be.
pub proof fn law_as_many_results_as_asked_for(
    arguments: JsonModel,
    key: Seq<char>,
    most: nat,
    n: usize,
)
    requires
        most >= 1,
    ensures
        1 <= result_limit(arguments, key, most) <= most,
        argument_number(arguments, key) == Some(n) && 1 <= n <= most ==> result_limit(
            arguments,
            key,
            most,
        ) == n,
        argument_number(arguments, key) == Some(n) && n > most ==> result_limit(
            arguments,
            key,
            most,
        ) == most,
        argument_number(arguments, key) is None ==> result_limit(arguments, key, most) == most,
{
}

/// The lines that are asked for are shown, where they are in order and not too many; else they
/// begin with the one that is asked for, and as many follow it as may be shown.
pub proof fn law_lines_that_are_asked_for(arguments: JsonModel, a: usize, b: usize)
    ensures
        first_line(arguments) >= 1,
        last_line(arguments) >= first_line(arguments),
        last_line(arguments) - first_line(arguments) < MAX_READ_LINES,
        argument_number(arguments, "line_start"@) == Some(a) && a >= 1 ==> first_line(arguments)
            == a,
        argument_number(arguments, "line_start"@) is None ==> first_line(arguments) == 1,
        argument_number(arguments, "line_end"@) == Some(b) && first_line(arguments) <= b
            < first_line(arguments) + MAX_READ_LINES ==> last_line(arguments) == b,
        argument_number(arguments, "line_end"@) is None && first_line(arguments) + MAX_READ_LINES
            <= usize::MAX ==> last_line(arguments) == first_line(arguments) + MAX_READ_LINES - 1,
{
}

/// A path is shown with the same signs but for its separators, and never as nothing.
pub proof fn law_paths_are_shown_with_slashes(rest: Seq<char>, path: Seq<char>, i: int)
    ensures
        ({
            let shown = shown_path(Some(rest), path);
            &&& shown.len() > 0
            &&& rest.len() > 0 ==> shown.len() == rest.len()
            &&& 0 <= i < rest.len() ==> shown[i] == if rest[i] == '\\' {
                '/'
            } else {
                rest[i]
            }
            &&& shown_path(None, rest).len() == rest.len()
            &&& 0 <= i < rest.len() ==> shown_path(None, rest)[i] == if rest[i] == '\\' {
                '/'
            } else {
                rest[i]
            }
        }),
{
    reveal_strlit(".");
}

/// What is short enough is told whole, behind what is told before it.
pub proof fn law_short_texts_are_told_whole(value: Seq<char>, prefix: Seq<char>)
    ensures
        prefix.len() == 0 && value.len() <= MAX_OUTPUT_CHARS ==> truncated_text(value, prefix)
            == value,
        prefix.len() > 0 && value.len() <= MAX_OUTPUT_CHARS ==> truncated_text(value, prefix)
            == prefix + ": "@ + value,
        value.len() > MAX_OUTPUT_CHARS ==> has_part(
            truncated_text(value, prefix),
            value.take(MAX_OUTPUT_CHARS as int),
        ),
{
    if value.len() > MAX_OUTPUT_CHARS {
        let text = truncated_text(value, prefix);
        let part = value.take(MAX_OUTPUT_CHARS as int);
        let at: int = if prefix.len() > 0 {
            (prefix + ": "@).len() as int
        } else {
            0
        };
        assert(text.subrange(at, at + part.len()) =~= part);
        assert(crate::text::occurs_at(text, part, at));
    }
}

} // verus!
