//! What showing files and directories guarantees.

use vstd::prelude::*;

use super::limits::{fits_in, room_for, MAX_OUTPUT_CHARS};
use super::search::{
    directory_listing, entry_line, file_view, glob_output, ignored, listed_from, listed_names,
    matching, shown_line, unreadable, view_from, without_ending, EntryInfo, EntryKind,
};
use crate::number::decimal;
use crate::order::{law_sorted, sorted};
use crate::text::{has_part, joined, occurs_at};

verus! {

pub proof fn lemma_part_stays(output: Seq<char>, part: Seq<char>, longer: Seq<char>)
    requires
        has_part(output, part),
        output.len() <= longer.len(),
        longer.take(output.len() as int) == output,
    ensures
        has_part(longer, part),
{
    let i = choose|i: int| occurs_at(output, part, i);
    assert(longer.subrange(i, i + part.len()) =~= output.subrange(i, i + part.len()));
    assert(occurs_at(longer, part, i));
}

pub proof fn lemma_part_at_end(output: Seq<char>, part: Seq<char>)
    ensures
        has_part(output + part, part),
        (output + part).take(output.len() as int) == output,
{
    let all = output + part;
    assert(all.subrange(output.len() as int, all.len() as int) =~= part);
    assert(occurs_at(all, part, output.len() as int));
    assert(all.take(output.len() as int) =~= output);
}

proof fn lemma_sorted_keeps(texts: Seq<Seq<char>>, text: Seq<char>)
    requires
        texts.contains(text),
    ensures
        sorted(texts).contains(text),
{
    broadcast use vstd::seq_lib::to_multiset_contains;

    law_sorted(texts);
    assert(texts.to_multiset().contains(text));
    assert(sorted(texts).to_multiset().contains(text));
}

// ---- a file ----

proof fn lemma_view(
    lines: Seq<Seq<char>>,
    start: nat,
    end: nat,
    numbers: bool,
    output: Seq<char>,
    selected: nat,
    number: nat,
    k: int,
)
    requires
        1 <= number,
        number <= end + 1,
        number <= lines.len() + 1,
        forall|j: int| 0 <= j < lines.len() ==> !unreadable(#[trigger] lines[j]),
    ensures
        ({
            let view = view_from(lines, start, end, numbers, output, selected, number)->0;
            let first = if start > number {
                start
            } else {
                number
            };
            let last = if end < lines.len() {
                end
            } else {
                lines.len()
            };
            &&& view_from(lines, start, end, numbers, output, selected, number) is Some
            &&& output.len() <= view.output.len()
            &&& view.output.take(output.len() as int) == output
            &&& view.full ==> view.output.len() >= MAX_OUTPUT_CHARS && first <= last
            &&& !view.full ==> {
                &&& view.next == last + 1
                &&& view.selected == selected + (if last >= first {
                    (last - first + 1) as nat
                } else {
                    0nat
                })
                &&& first <= k + 1 <= last ==> has_part(
                    view.output,
                    shown_line((k + 1) as nat, lines[k], numbers),
                )
                &&& last < first ==> view.output == output
            }
        }),
    decreases lines.len() + 1 - number,
{
    assert(output.take(output.len() as int) =~= output);
    if !(number > end || number > lines.len()) {
        assert(!unreadable(lines[number - 1]));
        if number < start {
            lemma_view(lines, start, end, numbers, output, selected, number + 1, k);
        } else {
            let text = shown_line(number, lines[number - 1], numbers);
            let more = output + room_for(text, output.len());
            assert(more.take(output.len() as int) =~= output);
            if fits_in(text, output.len()) {
                lemma_view(lines, start, end, numbers, more, selected + 1, number + 1, k);
                let view = view_from(lines, start, end, numbers, more, selected + 1, number + 1)->0;
                assert(view.output.take(output.len() as int) =~= view.output.take(
                    more.len() as int,
                ).take(output.len() as int));
                lemma_part_at_end(output, text);
                lemma_part_stays(more, text, view.output);
            }
        }
    }
}

/// What is shown of a file are the lines that were asked for, all of them, each with its number
/// where these are wanted, behind a head that names the file and the range. Nothing is shown of a
/// file that has no line in the range.
pub proof fn law_all_lines_asked_for_are_shown(
    path: Seq<char>,
    relative: Seq<char>,
    start: nat,
    end: nat,
    numbers: bool,
    lines: Seq<Seq<char>>,
    k: int,
)
    requires
        1 <= start <= end,
        forall|j: int| 0 <= j < lines.len() ==> !unreadable(#[trigger] lines[j]),
    ensures
        ({
            let shown = file_view(path, relative, start, end, numbers, lines, None);
            let head = relative + " lines "@ + decimal(start) + "-"@ + decimal(end) + "\n"@;
            &&& start > lines.len() ==> shown is Err
            &&& start <= lines.len() && head.len() < MAX_OUTPUT_CHARS && (shown matches Ok(text)
                && text.len() < MAX_OUTPUT_CHARS) ==> {
                let text = shown->Ok_0;
                &&& text.take(head.len() as int) == head
                &&& start <= k + 1 <= end && k < lines.len() && numbers ==> has_part(
                    text,
                    decimal((k + 1) as nat) + " | "@ + without_ending(lines[k]) + "\n"@,
                )
                &&& start <= k + 1 <= end && k < lines.len() && !numbers ==> has_part(
                    text,
                    without_ending(lines[k]) + "\n"@,
                )
            }
        }),
{
    let head = relative + " lines "@ + decimal(start) + "-"@ + decimal(end) + "\n"@;
    lemma_view(lines, start, end, numbers, head, 0, 1, k);
    let view = view_from(lines, start, end, numbers, head, 0, 1)->0;
    if let Ok(text) = file_view(path, relative, start, end, numbers, lines, None) {
        if text.len() < MAX_OUTPUT_CHARS {
            assert(view.output.len() <= text.len());
            assert(text.take(view.output.len() as int) =~= view.output);
            assert(text.take(head.len() as int) =~= view.output.take(head.len() as int));
            if start <= k + 1 <= end && k < lines.len() {
                let row = shown_line((k + 1) as nat, lines[k], numbers);
                lemma_part_stays(view.output, row, text);
                if numbers {
                    lemma_padded(decimal((k + 1) as nat), 6);
                    let digits = decimal((k + 1) as nat);
                    let padded = super::search::padded((k + 1) as nat);
                    let part = digits + " | "@ + without_ending(lines[k]) + "\n"@;
                    let i = choose|i: int| occurs_at(text, row, i);
                    let skip = padded.len() - digits.len();
                    assert(row.skip(skip) =~= part);
                    assert(text.subrange(i + skip, i + skip + part.len()) =~= row.skip(skip)) by {
                        assert(text.subrange(i, i + row.len()).skip(skip) =~= text.subrange(
                            i + skip,
                            i + row.len(),
                        ));
                    }
                    assert(occurs_at(text, part, i + skip));
                }
            }
        }
    }
}

pub proof fn lemma_padded(s: Seq<char>, width: nat)
    ensures
        ({
            let wide = super::search::pad_left(s, width);
            &&& wide.len() >= s.len()
            &&& wide.len() == if s.len() < width {
                width
            } else {
                s.len()
            }
            &&& wide.skip(wide.len() - s.len()) == s
        }),
    decreases width - s.len(),
{
    let wide = super::search::pad_left(s, width);
    if s.len() < width {
        let more = seq![' '] + s;
        lemma_padded(more, width);
        assert(wide.skip(wide.len() - s.len()) =~= wide.skip(wide.len() - more.len()).skip(1));
        assert(more.skip(1) =~= s);
    } else {
        assert(wide.skip(0) =~= s);
    }
}

// ---- a directory ----

/// Whether an entry is listed: all but the directories that are never looked into.
pub open spec fn is_listed(entry: EntryInfo) -> bool {
    !(entry.kind == EntryKind::Directory && ignored(entry.name))
}

proof fn lemma_listed(entries: Seq<EntryInfo>, i: int)
    requires
        0 <= i < entries.len(),
        is_listed(entries[i]),
    ensures
        listed_names(entries).contains(
            super::search::kind_text(entries[i].kind) + entries[i].name,
        ),
    decreases entries.len(),
{
    let head = entries.drop_last();
    let all = listed_names(entries);
    let line = super::search::kind_text(entries[i].kind) + entries[i].name;
    if i < head.len() {
        lemma_listed(head, i);
        let rest = listed_names(head);
        let k = choose|k: int| 0 <= k < rest.len() && rest[k] == line;
        assert(all[k] == line);
    } else {
        assert(all[all.len() - 1] == line);
    }
}

proof fn lemma_listed_from(
    lines: Seq<Seq<char>>,
    limit: nat,
    output: Seq<char>,
    i: nat,
    k: int,
)
    requires
        i <= lines.len(),
    ensures
        ({
            let (text, truncated) = listed_from(lines, limit, output, i);
            &&& output.len() <= text.len()
            &&& text.take(output.len() as int) == output
            &&& truncated ==> lines.len() > limit || text.len() >= MAX_OUTPUT_CHARS
            &&& !truncated && i <= k < lines.len() ==> has_part(text, lines[k] + "\n"@)
        }),
    decreases lines.len() - i,
{
    assert(output.take(output.len() as int) =~= output);
    if i < lines.len() && i < limit {
        let row = lines[i as int] + "\n"@;
        let more = output + room_for(row, output.len());
        assert(more.take(output.len() as int) =~= output);
        if fits_in(row, output.len()) {
            lemma_listed_from(lines, limit, more, i + 1, k);
            let text = listed_from(lines, limit, more, i + 1).0;
            assert(text.take(output.len() as int) =~= text.take(more.len() as int).take(
                output.len() as int,
            ));
            lemma_part_at_end(output, row);
            lemma_part_stays(more, row, text);
        }
    }
}

/// A directory is listed with all its entries, each by its kind and its path, but for those that
/// are never looked into, as long as they are no more than are asked for and the listing is not
/// too long.
pub proof fn law_all_entries_are_listed(
    relative: Seq<char>,
    entries: Seq<EntryInfo>,
    limit: nat,
    i: int,
)
    requires
        0 <= i < entries.len(),
        is_listed(entries[i]),
        entries.len() <= limit,
        directory_listing(relative, entries, limit).len() < MAX_OUTPUT_CHARS,
    ensures
        has_part(
            directory_listing(relative, entries, limit),
            entry_line(relative, super::search::kind_text(entries[i].kind) + entries[i].name)
                + "\n"@,
        ),
        directory_listing(relative, entries, limit).take(relative.len() as int) == relative,
{
    let names = listed_names(entries);
    let line = super::search::kind_text(entries[i].kind) + entries[i].name;
    lemma_listed(entries, i);
    lemma_listed_len(entries);
    lemma_sorted_keeps(names, line);
    let order = sorted(names);
    law_sorted(names);
    let lines = order.map_values(|entry: Seq<char>| entry_line(relative, entry));
    let k = choose|k: int| 0 <= k < order.len() && order[k] == line;
    let head = relative + "\n"@;
    lemma_listed_from(lines, limit, head, 0, k);
    let (text, truncated) = listed_from(lines, limit, head, 0);
    let all = directory_listing(relative, entries, limit);
    assert(all.take(text.len() as int) =~= text);
    assert(!truncated);
    assert(lines[k] == entry_line(relative, line));
    lemma_part_stays(text, lines[k] + "\n"@, all);
    assert(all.take(relative.len() as int) =~= text.take(head.len() as int).take(
        relative.len() as int,
    ));
    assert(head.take(relative.len() as int) =~= relative);
}

proof fn lemma_listed_len(entries: Seq<EntryInfo>)
    ensures
        listed_names(entries).len() <= entries.len(),
    decreases entries.len(),
{
    if entries.len() > 0 {
        lemma_listed_len(entries.drop_last());
    }
}

// ---- finding files ----

pub proof fn lemma_joined_has(parts: Seq<Seq<char>>, by: Seq<char>, k: int)
    requires
        0 <= k < parts.len(),
    ensures
        has_part(joined(parts, by), parts[k]),
    decreases parts.len(),
{
    let all = joined(parts, by);
    if parts.len() == 1 {
        assert(Seq::<char>::empty() + parts[0] =~= all);
        lemma_part_at_end(Seq::empty(), parts[0]);
    } else if k == parts.len() - 1 {
        lemma_part_at_end(joined(parts.drop_last(), by) + by, parts[k]);
    } else {
        let head = joined(parts.drop_last(), by);
        lemma_joined_has(parts.drop_last(), by, k);
        assert(all.take(head.len() as int) =~= head);
        assert(parts.drop_last()[k] == parts[k]);
        lemma_part_stays(head, parts[k], all);
    }
}

/// Every file that matches is shown, where these are no more than are asked for; where none
/// matches that is said.
pub proof fn law_all_files_that_match_are_shown(
    pattern: Seq<char>,
    paths: Seq<Seq<char>>,
    limit: nat,
    truncated: bool,
    i: int,
)
    requires
        0 <= i < paths.len(),
        paths.len() <= limit,
    ensures
        super::glob::glob_matches(pattern, paths[i]) ==> has_part(
            glob_output(pattern, paths, limit, truncated),
            paths[i],
        ),
        (forall|k: int|
            0 <= k < paths.len() ==> !super::glob::glob_matches(pattern, #[trigger] paths[k]))
            && !truncated ==> glob_output(pattern, paths, limit, truncated)
            == "No files found\n"@,
{
    let keep = |path: Seq<char>| super::glob::glob_matches(pattern, path);
    let found = matching(pattern, paths);
    lemma_filter_len(paths, keep);
    if super::glob::glob_matches(pattern, paths[i]) {
        lemma_filter_has(paths, keep, i);
        let j = choose|j: int| 0 <= j < found.len() && found[j] == paths[i];
        lemma_sorted_keeps(found, paths[i]);
        let order = sorted(found);
        let k = choose|k: int| 0 <= k < order.len() && order[k] == paths[i];
        lemma_joined_has(order, "\n"@, k);
        let text = joined(order, "\n"@) + "\n"@;
        let all = glob_output(pattern, paths, limit, truncated);
        assert(text.take(joined(order, "\n"@).len() as int) =~= joined(order, "\n"@));
        lemma_part_stays(joined(order, "\n"@), paths[i], text);
        assert(all.take(text.len() as int) =~= text);
        lemma_part_stays(text, paths[i], all);
    }
    if forall|k: int|
        0 <= k < paths.len() ==> !super::glob::glob_matches(pattern, #[trigger] paths[k]) {
        lemma_filter_none(paths, keep);
        reveal_strlit("No files found\n");
    }
}

proof fn lemma_filter_len(paths: Seq<Seq<char>>, keep: spec_fn(Seq<char>) -> bool)
    ensures
        paths.filter(keep).len() <= paths.len(),
    decreases paths.len(),
{
    reveal(Seq::filter);
    if paths.len() > 0 {
        lemma_filter_len(paths.drop_last(), keep);
    }
}

proof fn lemma_filter_has(paths: Seq<Seq<char>>, keep: spec_fn(Seq<char>) -> bool, i: int)
    requires
        0 <= i < paths.len(),
        keep(paths[i]),
    ensures
        paths.filter(keep).contains(paths[i]),
    decreases paths.len(),
{
    reveal(Seq::filter);
    let head = paths.drop_last();
    let all = paths.filter(keep);
    if i < head.len() {
        lemma_filter_has(head, keep, i);
        let rest = head.filter(keep);
        let k = choose|k: int| 0 <= k < rest.len() && rest[k] == head[i];
        assert(all[k] == paths[i]);
    } else {
        assert(all[all.len() - 1] == paths[i]);
    }
}

proof fn lemma_filter_none(paths: Seq<Seq<char>>, keep: spec_fn(Seq<char>) -> bool)
    requires
        forall|k: int| 0 <= k < paths.len() ==> !keep(#[trigger] paths[k]),
    ensures
        paths.filter(keep).len() == 0,
    decreases paths.len(),
{
    reveal(Seq::filter);
    if paths.len() > 0 {
        let head = paths.drop_last();
        assert forall|k: int| 0 <= k < head.len() implies !keep(#[trigger] head[k]) by {
            assert(head[k] == paths[k]);
        }
        lemma_filter_none(head, keep);
        assert(!keep(paths[paths.len() - 1]));
    }
}

} // verus!
