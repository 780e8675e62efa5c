//! What editing files and drawing tables guarantees.

use vstd::prelude::*;

use crate::coding::edit_laws::law_only_what_stands_there_is_replaced;
use crate::coding::limits::MAX_OUTPUT_CHARS;
use crate::coding::search::{EntryInfo, EntryKind};
use crate::coding::view_laws::{lemma_joined_has, lemma_part_at_end, lemma_part_stays};
use crate::json::JsonModel;
use crate::number::decimal;
use crate::text::{begins_with, has_part, joined, lines_of, occurs_at};
use crate::tools::data::{
    bar_svg, bars_svg, cells_html, chart_sources, drawn_column, escaped, escaped_char, first_true,
    item_path, item_title, label_at, listed_sources, missing_in, rows_html, BarBox,
};
use crate::tools::editor::{
    file_view, inserted, numbered, recorded, replaced_once, view_end, view_start, visible_lines,
    MAX_DIRECTORY_LINES, MAX_HISTORY_ENTRIES,
};
use crate::tools::files::listing_lines;

verus! {

// ---- editing ----

/// A text that stands in the file at one place alone is replaced there, and nothing else changes;
/// one that stands nowhere, or at two places, is refused.
pub proof fn law_edits_replace_one_place(
    original: Seq<char>,
    old: Seq<char>,
    new: Seq<char>,
    i: int,
    j: int,
)
    requires
        old.len() > 0,
    ensures
        occurs_at(original, old, i) && (forall|k: int| k != i ==> !occurs_at(original, old, k))
            ==> replaced_once(original, old, new) == Ok::<Seq<char>, Seq<char>>(
            original.take(i) + new + original.skip(i + old.len()),
        ),
        !has_part(original, old) ==> replaced_once(original, old, new) is Err,
        occurs_at(original, old, i) && occurs_at(original, old, j) && i + old.len() <= j
            ==> replaced_once(original, old, new) is Err,
{
    law_only_what_stands_there_is_replaced(original, Seq::empty(), old, new, i, j);
}

/// A line is inserted behind the line that is named, and all other lines stay in their order.
pub proof fn law_lines_are_inserted_where_they_should_be(
    original: Seq<char>,
    line: i64,
    new: Seq<char>,
)
    ensures
        ({
            let all = lines_of(original);
            &&& 0 <= line <= all.len() ==> inserted(original, line, new) == Ok::<
                Seq<char>,
                Seq<char>,
            >(joined(all.take(line as int) + seq![new] + all.skip(line as int), "\n"@))
            &&& line < 0 ==> inserted(original, line, new) == Ok::<Seq<char>, Seq<char>>(
                joined(seq![new] + all, "\n"@),
            )
            &&& line > all.len() ==> inserted(original, line, new) is Err
        }),
{
    let all = lines_of(original);
    if 0 <= line <= all.len() {
        assert(all.insert(line as int, new) =~= all.take(line as int) + seq![new] + all.skip(
            line as int,
        ));
    }
    if line < 0 {
        assert(all.insert(0, new) =~= seq![new] + all);
    }
}

/// Every line of the range is shown with its number, where the view is not too long.
pub proof fn law_views_show_every_line(contents: Seq<char>, start: nat, end: nat, k: int)
    requires
        1 <= start <= end <= lines_of(contents).len(),
        start <= k <= end,
        file_view(contents, start, end).len() <= MAX_OUTPUT_CHARS,
    ensures
        has_part(
            file_view(contents, start, end),
            decimal(k as nat) + "\t"@ + lines_of(contents)[k - 1],
        ),
{
    let all = lines_of(contents);
    let rows = numbered(all, start, end);
    let whole = joined(rows, "\n"@);
    let i = k - start;
    lemma_joined_has(rows, "\n"@, i);
    let view = file_view(contents, start, end);
    if whole.len() > MAX_OUTPUT_CHARS {
        reveal_strlit("\n[output truncated]");
    }
    assert(view == whole);
    let digits = decimal(k as nat);
    let padded = crate::coding::search::padded(k as nat);
    let part = digits + "\t"@ + all[k - 1];
    crate::coding::view_laws::lemma_padded(digits, 6);
    let skip = padded.len() - digits.len();
    let row = rows[i];
    assert(row == padded + "\t"@ + all[k - 1]);
    assert(row.skip(skip) =~= part);
    let at = choose|at: int| occurs_at(view, row, at);
    assert(view.subrange(at + skip, at + skip + part.len()) =~= part) by {
        assert(view.subrange(at, at + row.len()).skip(skip) =~= view.subrange(
            at + skip,
            at + row.len(),
        ));
    }
    assert(occurs_at(view, part, at + skip));
}

/// The state of a file before an edit is the one that an undo gives back, and no earlier one is
/// lost before there are too many.
pub proof fn law_states_are_recorded(states: Seq<Seq<char>>, contents: Seq<char>)
    ensures
        recorded(states, contents).len() > 0,
        recorded(states, contents).last() == contents,
        states.len() < MAX_HISTORY_ENTRIES && (states.len() == 0 || states.last() != contents)
            ==> recorded(states, contents) == states.push(contents),
        states.len() > 0 && states.last() == contents && states.len() <= MAX_HISTORY_ENTRIES
            ==> recorded(states, contents) == states,
{
}

/// Every entry of a directory whose name does not begin with a dot is shown, in order.
pub proof fn law_directories_show_what_is_not_hidden(entries: Seq<EntryInfo>)
    requires
        entries.len() <= MAX_DIRECTORY_LINES,
    ensures
        visible_lines(entries) == entries.filter(
            |e: EntryInfo| !begins_with(e.name, "."@),
        ).map_values(
            |e: EntryInfo|
                (if e.kind == EntryKind::Directory {
                    "dir "@
                } else {
                    "file"@
                }) + e.name,
        ),
    decreases entries.len(),
{
    reveal(Seq::filter);
    let seen = |e: EntryInfo| !begins_with(e.name, "."@);
    let line = |e: EntryInfo|
        (if e.kind == EntryKind::Directory {
            "dir "@
        } else {
            "file"@
        }) + e.name;
    if entries.len() > 0 {
        law_directories_show_what_is_not_hidden(entries.drop_last());
        lemma_visible_len(entries.drop_last());
    }
    assert(visible_lines(entries) =~= entries.filter(seen).map_values(line));
}

proof fn lemma_visible_len(entries: Seq<EntryInfo>)
    ensures
        visible_lines(entries).len() <= entries.len(),
    decreases entries.len(),
{
    if entries.len() > 0 {
        lemma_visible_len(entries.drop_last());
    }
}

/// A listing shows every entry by its name and its kind, up to its limit, and says where it ends
/// early.
pub proof fn law_listings_show_every_entry(entries: Seq<EntryInfo>, i: int)
    requires
        0 <= i < entries.len(),
        i < MAX_DIRECTORY_LINES,
    ensures
        listing_lines(entries).len() > i,
        listing_lines(entries)[i] == (if entries[i].kind == EntryKind::Directory {
            "dir "@
        } else {
            "file"@
        }) + " "@ + entries[i].name,
        entries.len() < MAX_DIRECTORY_LINES ==> listing_lines(entries).len() == entries.len(),
{
}

// ---- tables and charts ----

/// Each row that has nothing in the column is counted once.
pub proof fn law_missing_values_are_counted(rows: Seq<Seq<Seq<char>>>, column: int)
    ensures
        missing_in(rows, column) == rows.filter(
            |row: Seq<Seq<char>>| column >= row.len() || row[column].len() == 0,
        ).len(),
    decreases rows.len(),
{
    reveal(Seq::filter);
    if rows.len() > 0 {
        law_missing_values_are_counted(rows.drop_last(), column);
    }
}

proof fn lemma_first_true(flags: Seq<bool>, from: int, k: int)
    requires
        0 <= from <= k < flags.len(),
        flags[k],
        forall|j: int| from <= j < k ==> !#[trigger] flags[j],
    ensures
        first_true(flags, from) == k,
    decreases k - from,
{
    if from < k {
        assert(!flags[from]);
        lemma_first_true(flags, from + 1, k);
    }
}

/// The column that is drawn is the first one with numbers.
pub proof fn law_the_first_numbers_are_drawn(flags: Seq<bool>, k: int)
    requires
        0 <= k < flags.len(),
        flags[k],
        forall|j: int| 0 <= j < k ==> !#[trigger] flags[j],
    ensures
        drawn_column(flags) == k,
{
    lemma_first_true(flags, 0, k);
}

/// A text is escaped character by character: those that mean something in a page are replaced by
/// what stands for them, and all others stay.
pub proof fn law_escaping_goes_character_by_character(a: Seq<char>, b: Seq<char>, c: char)
    ensures
        escaped(a + b) == escaped(a) + escaped(b),
        c != '&' && c != '<' && c != '>' && c != '"' ==> escaped(seq![c]) == seq![c],
        escaped("&"@) == "&amp;"@,
        escaped("<"@) == "&lt;"@,
        escaped(">"@) == "&gt;"@,
        escaped("\""@) == "&quot;"@,
    decreases b.len(),
{
    reveal_strlit("&");
    reveal_strlit("<");
    reveal_strlit(">");
    reveal_strlit("\"");
    lemma_escaped_one(c);
    lemma_escaped_one('&');
    lemma_escaped_one('<');
    lemma_escaped_one('>');
    lemma_escaped_one('"');
    assert("&"@ =~= seq!['&']);
    assert("<"@ =~= seq!['<']);
    assert(">"@ =~= seq!['>']);
    assert("\""@ =~= seq!['"']);
    if b.len() == 0 {
        assert(a + b =~= a);
        assert(escaped(a) + escaped(b) =~= escaped(a));
    } else {
        assert((a + b).drop_last() =~= a + b.drop_last());
        assert((a + b).last() == b.last());
        law_escaping_goes_character_by_character(a, b.drop_last(), c);
        assert(escaped(a + b) =~= escaped(a) + escaped(b));
    }
}

proof fn lemma_escaped_one(c: char)
    ensures
        escaped(seq![c]) == escaped_char(c),
{
    assert(seq![c].drop_last() =~= Seq::<char>::empty());
    assert(escaped(seq![c].drop_last()) =~= Seq::<char>::empty());
    assert(escaped(seq![c]) =~= escaped_char(c));
}

/// Every bar of a chart is drawn, with its label.
pub proof fn law_every_bar_is_drawn(bars: Seq<BarBox>, labels: Seq<Seq<char>>, i: int)
    requires
        0 <= i < bars.len(),
    ensures
        has_part(bars_svg(bars, labels), bar_svg(bars[i], label_at(labels, i))),
        0 <= i < labels.len() ==> has_part(bars_svg(bars, labels), escaped(labels[i])),
    decreases bars.len(),
{
    let head = bars_svg(bars.drop_last(), labels);
    let last = bar_svg(bars.last(), label_at(labels, bars.len() - 1));
    let all = head + last;
    lemma_part_at_end(head, last);
    if i < bars.len() - 1 {
        law_every_bar_is_drawn(bars.drop_last(), labels, i);
        lemma_part_stays(head, bar_svg(bars[i], label_at(labels, i)), all);
        if i < labels.len() {
            lemma_part_stays(head, escaped(labels[i]), all);
        }
    } else if i < labels.len() {
        let label = escaped(labels[i]);
        let end = "</text>"@;
        let at = all.len() - end.len() - label.len();
        assert(all.subrange(at, at + label.len()) =~= label);
        assert(occurs_at(all, label, at));
    }
}

/// Every cell of a table stands in its page, and every row.
pub proof fn law_every_cell_is_written(
    cells: Seq<Seq<char>>,
    open: Seq<char>,
    close: Seq<char>,
    i: int,
)
    requires
        0 <= i < cells.len(),
    ensures
        has_part(cells_html(cells, open, close), open + escaped(cells[i]) + close),
    decreases cells.len(),
{
    let head = cells_html(cells.drop_last(), open, close);
    let last = open + escaped(cells.last()) + close;
    lemma_part_at_end(head, last);
    if i < cells.len() - 1 {
        law_every_cell_is_written(cells.drop_last(), open, close, i);
        lemma_part_stays(head, open + escaped(cells[i]) + close, head + last);
    }
}

/// Every row of a table stands in its page.
pub proof fn law_every_row_is_written(rows: Seq<Seq<Seq<char>>>, i: int)
    requires
        0 <= i < rows.len(),
    ensures
        has_part(
            rows_html(rows),
            "<tr>"@ + cells_html(rows[i], "<td>"@, "</td>"@) + "</tr>"@,
        ),
    decreases rows.len(),
{
    let head = rows_html(rows.drop_last());
    let last = "<tr>"@ + cells_html(rows.last(), "<td>"@, "</td>"@) + "</tr>"@;
    lemma_part_at_end(head, last);
    if i < rows.len() - 1 {
        law_every_row_is_written(rows.drop_last(), i);
        lemma_part_stays(
            head,
            "<tr>"@ + cells_html(rows[i], "<td>"@, "</td>"@) + "</tr>"@,
            head + last,
        );
    }
}

/// Every item of a list of charts that names a file is drawn, in order, up to a limit; where there
/// is none, the file itself is.
pub proof fn law_every_listed_chart_is_drawn(
    items: Seq<JsonModel>,
    path: Seq<char>,
    title: Seq<char>,
)
    ensures
        listed_sources(items) == items.filter(
            |item: JsonModel| item_path(item) is Some,
        ).map_values(|item: JsonModel| (item_path(item)->0, item_title(item))),
        0 < listed_sources(items).len() <= 16 ==> chart_sources(
            Some(JsonModel::Array(items)),
            path,
            title,
        ) == listed_sources(items),
        listed_sources(items).len() > 16 ==> chart_sources(
            Some(JsonModel::Array(items)),
            path,
            title,
        ) == listed_sources(items).take(16),
        chart_sources(None, path, title) == seq![(path, title)],
    decreases items.len(),
{
    reveal(Seq::filter);
    let named = |item: JsonModel| item_path(item) is Some;
    let source = |item: JsonModel| (item_path(item)->0, item_title(item));
    if items.len() > 0 {
        law_every_listed_chart_is_drawn(items.drop_last(), path, title);
    }
    assert(listed_sources(items) =~= items.filter(named).map_values(source));
}

/// The lines that are asked for are viewed, where the file has them; without a range, all are.
pub proof fn law_views_show_the_range(arguments: JsonModel, count: nat, a: i64, b: i64)
    ensures
        view_start(arguments) >= 1,
        view_end(arguments, count) <= count,
        (arguments.items("view_range"@) matches Some(items) ==> items.len() == 2
            && items[0].as_i64() == Some(a) && items[1].as_i64() == Some(b) && 1 <= a && 0 <= b
            && b <= count ==> view_start(arguments) == a && view_end(arguments, count) == b),
        arguments.items("view_range"@) is None ==> view_start(arguments) == 1 && view_end(
            arguments,
            count,
        ) == count,
{
}

} // verus!
