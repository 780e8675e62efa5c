//! What reading tables and pages guarantees.

use vstd::prelude::*;
use vstd::utf8::is_ascii_chars;

use crate::json::JsonModel;
use crate::text::{
    begins_with, find_from, is_blank, lemma_find_from, lower, lowercase, squeezed, trimmed,
};
use crate::tools::csv::{
    add_names, cell_text, csv_from, csv_table, csv_values, json_rows, json_table, member_names,
    written_lines,
};
use crate::tools::html::{
    links_from, page_text, replaced_all, resolved_url, untagged, with_link, without_block,
    MAX_LINKS,
};
use crate::tools::websearch::{is_result, results_of, texts_of};

verus! {

// ---- values in quotes ----

/// A text with each quote doubled.
pub open spec fn doubled(text: Seq<char>) -> Seq<char>
    decreases text.len(),
{
    if text.len() == 0 {
        Seq::empty()
    } else if text[0] == '"' {
        seq!['"', '"'] + doubled(text.skip(1))
    } else {
        seq![text[0]] + doubled(text.skip(1))
    }
}

/// Values as a line of a table, each in quotes.
pub open spec fn quoted_line(values: Seq<Seq<char>>) -> Seq<char>
    decreases values.len(),
{
    if values.len() == 0 {
        Seq::empty()
    } else {
        let first = seq!['"'] + doubled(values[0]) + seq!['"'];
        if values.len() == 1 {
            first
        } else {
            first + seq![','] + quoted_line(values.skip(1))
        }
    }
}

proof fn lemma_quoted_value(
    line: Seq<char>,
    i: int,
    text: Seq<char>,
    values: Seq<Seq<char>>,
    current: Seq<char>,
)
    requires
        0 <= i,
        i + doubled(text).len() < line.len(),
        line.subrange(i, i + doubled(text).len() + 1) == doubled(text) + seq!['"'],
        i + doubled(text).len() + 1 < line.len() ==> line[i + doubled(text).len() + 1] != '"',
    ensures
        csv_from(line, i, values, current, true) == csv_from(
            line,
            i + doubled(text).len() + 1,
            values,
            current + text,
            false,
        ),
    decreases text.len(),
{
    let part = line.subrange(i, i + doubled(text).len() + 1);
    assert(part[0] == line[i]);
    if text.len() == 0 {
        assert(line[i] == '"');
        assert(current + text =~= current);
    } else {
        let rest = text.skip(1);
        let step: int = if text[0] == '"' {
            2
        } else {
            1
        };
        assert(doubled(text).len() == step + doubled(rest).len());
        assert(line[i] == text[0]);
        if text[0] == '"' {
            assert(part[1] == line[i + 1]);
            assert(line[i + 1] == '"');
        }
        assert(line.subrange(i + step, i + step + doubled(rest).len() + 1) =~= part.skip(step));
        assert((doubled(text) + seq!['"']).skip(step) =~= doubled(rest) + seq!['"']);
        lemma_quoted_value(line, i + step, rest, values, current.push(text[0]));
        assert(current.push(text[0]) + rest =~= current + text);
    }
}

proof fn lemma_quoted_line(
    line: Seq<char>,
    i: int,
    values: Seq<Seq<char>>,
    found: Seq<Seq<char>>,
)
    requires
        0 <= i <= line.len(),
        values.len() > 0,
        line.skip(i) == quoted_line(values),
    ensures
        csv_from(line, i, found, Seq::empty(), false) == found + values.map_values(
            |value: Seq<char>| trimmed(value),
        ),
    decreases values.len(),
{
    let trim = |value: Seq<char>| trimmed(value);
    let text = values[0];
    let rest = line.skip(i);
    let n = doubled(text).len() as int;
    let first = seq!['"'] + doubled(text) + seq!['"'];
    assert(rest.take(n + 2) =~= first);
    assert(rest[0] == '"');
    assert(line[i] == rest[0]);
    assert(line.subrange(i + 1, i + 1 + n + 1) =~= first.skip(1)) by {
        assert(line.subrange(i + 1, i + 1 + n + 1) =~= rest.take(n + 2).skip(1));
    }
    assert(first.skip(1) =~= doubled(text) + seq!['"']);
    let end = i + n + 2;
    if end < line.len() {
        assert(line[end] == rest[n + 2]);
        assert(values.len() > 1);
        assert(rest[n + 2] == ',');
    }
    lemma_quoted_value(line, i + 1, text, found, Seq::empty());
    assert(Seq::<char>::empty() + text =~= text);
    if values.len() == 1 {
        assert(rest == first);
        assert(end == line.len());
        assert(found.push(trimmed(text)) =~= found + values.map_values(trim));
    } else {
        let more = values.skip(1);
        assert(line[end] == ',');
        assert(line.skip(end + 1) =~= rest.skip(n + 3));
        assert((first + seq![','] + quoted_line(more)).skip(n + 3) =~= quoted_line(more));
        lemma_quoted_line(line, end + 1, more, found.push(trimmed(text)));
        assert(found.push(trimmed(text)) + more.map_values(trim) =~= found + values.map_values(
            trim,
        ));
    }
}

/// Values that stand in quotes are read as they are, but for the white space around them: commas
/// and quotes in them do not part them.
pub proof fn law_quoted_values_are_read_back(values: Seq<Seq<char>>)
    requires
        values.len() > 0,
    ensures
        csv_values(quoted_line(values)) == values.map_values(|value: Seq<char>| trimmed(value)),
{
    let line = quoted_line(values);
    assert(line.skip(0) =~= line);
    lemma_quoted_line(line, 0, values, Seq::empty());
    assert(Seq::<Seq<char>>::empty() + values.map_values(|value: Seq<char>| trimmed(value))
        =~= values.map_values(|value: Seq<char>| trimmed(value)));
}

// ---- tables ----

/// Every line of a table that is not blank is read, in order.
pub proof fn law_every_line_of_a_table_is_read(lines: Seq<Seq<char>>)
    ensures
        written_lines(lines) == lines.filter(|line: Seq<char>| !is_blank(line)),
    decreases lines.len(),
{
    reveal(Seq::filter);
    let written = |line: Seq<char>| !is_blank(line);
    if lines.len() > 0 {
        law_every_line_of_a_table_is_read(lines.drop_last());
    }
    assert(written_lines(lines) =~= lines.filter(written));
}

/// The first line names the columns, and every other one is a row.
pub proof fn law_first_line_names_the_columns(contents: Seq<char>, i: int)
    ensures
        ({
            let lines = crate::text::lines_of(contents).filter(|line: Seq<char>| !is_blank(line));
            csv_table(contents) matches Some(table) ==> {
                &&& lines.len() > 0 ==> table.headers == csv_values(lines[0]) && table.rows.len()
                    == lines.len() - 1
                &&& 0 <= i < table.rows.len() ==> table.rows[i] == csv_values(lines[i + 1])
            }
        }),
{
    law_every_line_of_a_table_is_read(crate::text::lines_of(contents));
}

proof fn lemma_add_names(
    names: Seq<Seq<char>>,
    members: Seq<(Seq<char>, JsonModel)>,
    name: Seq<char>,
)
    ensures
        add_names(names, members).contains(name) <==> names.contains(name) || exists|k: int|
            0 <= k < members.len() && (#[trigger] members[k]).0 == name,
    decreases members.len(),
{
    if members.len() > 0 {
        let before = members.drop_last();
        lemma_add_names(names, before, name);
        let head = add_names(names, before);
        let all = add_names(names, members);
        if head.contains(name) {
            let k = choose|k: int| 0 <= k < head.len() && head[k] == name;
            assert(all[k] == name);
        }
        if exists|k: int| 0 <= k < members.len() && (#[trigger] members[k]).0 == name {
            let k = choose|k: int| 0 <= k < members.len() && (#[trigger] members[k]).0 == name;
            if k < before.len() {
                assert(before[k].0 == name);
            } else if !head.contains(name) {
                assert(all[head.len() as int] == name);
            }
        }
        if all.contains(name) && !head.contains(name) {
            assert(members[members.len() - 1].0 == name);
        }
        if exists|k: int| 0 <= k < before.len() && (#[trigger] before[k]).0 == name {
            let k = choose|k: int| 0 <= k < before.len() && (#[trigger] before[k]).0 == name;
            assert(members[k].0 == name);
        }
    }
}

proof fn lemma_member_names(rows: Seq<JsonModel>, i: int, k: int)
    requires
        0 <= i < rows.len(),
        rows[i] is Object,
        0 <= k < rows[i]->Object_0.len(),
    ensures
        member_names(rows).contains(rows[i]->Object_0[k].0),
    decreases rows.len(),
{
    let name = rows[i]->Object_0[k].0;
    let head = rows.drop_last();
    if i < head.len() {
        lemma_member_names(head, i, k);
        assert(head[i] == rows[i]);
        if let JsonModel::Object(members) = rows.last() {
            lemma_add_names(member_names(head), members, name);
        }
    } else {
        lemma_add_names(member_names(head), rows[i]->Object_0, name);
    }
}

/// Every value of every object in a table of JSON stands in the row of the object, in the column
/// with its name.
pub proof fn law_every_value_has_its_cell(value: JsonModel, i: int, k: int)
    requires
        0 <= i < json_rows(value).len(),
        json_rows(value)[i] is Object,
        0 <= k < json_rows(value)[i]->Object_0.len(),
    ensures
        ({
            let table = json_table(value);
            let row = json_rows(value)[i];
            let name = row->Object_0[k].0;
            exists|j: int|
                {
                    &&& 0 <= j < table.headers.len()
                    &&& #[trigger] table.headers[j] == name
                    &&& table.rows[i][j] == cell_text(row.get(name)->0)
                    &&& row.get(name) is Some
                }
        }),
{
    let rows = json_rows(value);
    let row = rows[i];
    let name = row->Object_0[k].0;
    lemma_member_names(rows, i, k);
    let names = member_names(rows);
    let j = choose|j: int| 0 <= j < names.len() && names[j] == name;
    crate::json_model::lemma_member_index(row->Object_0, name);
    assert(json_table(value).headers[j] == name);
}

// ---- pages ----

proof fn lemma_untagged_add(a: Seq<char>, b: Seq<char>)
    requires
        !untagged(a).1,
    ensures
        untagged(a + b).0 == untagged(a).0 + untagged(b).0,
        untagged(a + b).1 == untagged(b).1,
    decreases b.len(),
{
    if b.len() == 0 {
        assert(a + b =~= a);
        assert(untagged(a).0 + untagged(b).0 =~= untagged(a).0);
    } else {
        assert((a + b).drop_last() =~= a + b.drop_last());
        assert((a + b).last() == b.last());
        lemma_untagged_add(a, b.drop_last());
        assert(untagged(a + b).0 =~= untagged(a).0 + untagged(b).0);
    }
}

proof fn lemma_in_tag(tag: Seq<char>)
    requires
        !tag.contains('>'),
    ensures
        untagged(seq!['<'] + tag) == (Seq::<char>::empty(), true),
    decreases tag.len(),
{
    let all = seq!['<'] + tag;
    if tag.len() == 0 {
        assert(all.drop_last() =~= Seq::<char>::empty());
        assert(untagged(all.drop_last()) == (Seq::<char>::empty(), false));
        assert(all.last() == '<');
    } else {
        let head = tag.drop_last();
        assert(!head.contains('>')) by {
            if head.contains('>') {
                let k = choose|k: int| 0 <= k < head.len() && head[k] == '>';
                assert(tag[k] == '>');
            }
        }
        lemma_in_tag(head);
        assert(all.drop_last() =~= seq!['<'] + head);
        assert(all.last() == tag.last());
        assert(tag.contains(tag.last())) by {
            assert(tag[tag.len() - 1] == tag.last());
        }
    }
}

/// Text outside tags stays as it is, and every tag becomes a space.
pub proof fn law_tags_become_spaces(a: Seq<char>, tag: Seq<char>, b: Seq<char>)
    requires
        !tag.contains('>'),
    ensures
        !a.contains('<') ==> untagged(a) == (a, false),
        untagged(seq!['<'] + tag + seq!['>']) == (" "@, false),
        !untagged(a).1 ==> untagged(a + b).0 == untagged(a).0 + untagged(b).0,
    decreases a.len(),
{
    reveal_strlit(" ");
    lemma_in_tag(tag);
    let whole = seq!['<'] + tag + seq!['>'];
    assert(whole.drop_last() =~= seq!['<'] + tag);
    assert(whole.last() == '>');
    assert(untagged(whole).0 =~= " "@);
    if !untagged(a).1 {
        lemma_untagged_add(a, b);
    }
    if !a.contains('<') {
        if a.len() > 0 {
            let head = a.drop_last();
            assert(!head.contains('<')) by {
                if head.contains('<') {
                    let k = choose|k: int| 0 <= k < head.len() && head[k] == '<';
                    assert(a[k] == '<');
                }
            }
            law_tags_become_spaces(head, tag, b);
            assert(a.contains(a.last())) by {
                assert(a[a.len() - 1] == a.last());
            }
            assert(head.push(a.last()) =~= a);
        } else {
            assert(a =~= Seq::<char>::empty());
        }
    }
}

proof fn lemma_not_found(s: Seq<char>, part: Seq<char>, c: char)
    requires
        part.len() > 0,
        part[0] == c,
        !s.contains(c),
    ensures
        find_from(s, part, 0) is None,
{
    lemma_find_from(s, part, 0);
    if let Some(i) = find_from(s, part, 0) {
        assert(s.subrange(i, i + part.len())[0] == s[i]);
        assert(s[i] == c);
    }
}

proof fn lemma_nothing_replaced(s: Seq<char>, part: Seq<char>, new: Seq<char>)
    requires
        part.len() > 0,
        part[0] == '&',
        !s.contains('&'),
    ensures
        replaced_all(s, part, new) == s,
{
    lemma_not_found(s, part, '&');
    assert(s.skip(0) =~= s);
}

proof fn lemma_no_blocks(html: Seq<char>, tag: Seq<char>)
    requires
        is_ascii_chars(html),
        !html.contains('<'),
    ensures
        without_block(html, tag) == html,
{
    reveal_strlit("<");
    let low = lowercase(html);
    assert(!low.contains('<')) by {
        if low.contains('<') {
            let k = choose|k: int| 0 <= k < low.len() && low[k] == '<';
            assert(low[k] == lower(html[k]));
            let c = html[k];
            if 'A' <= c && c <= 'Z' {
                let n = c as u8;
                assert(65 <= n <= 90);
                assert(lower(c) as u32 == n + 32);
            }
            assert(html[k] == '<');
        }
    }
    let open = "<"@ + tag;
    assert(open[0] == '<');
    lemma_not_found(low, open, '<');
}

/// A page without markup is its own text: nothing but white space is changed.
pub proof fn law_plain_pages_are_their_text(html: Seq<char>)
    requires
        is_ascii_chars(html),
        !html.contains('<'),
        !html.contains('&'),
    ensures
        page_text(html) == squeezed(html),
{
    reveal(page_text);
    lemma_no_blocks(html, lowercase("script"@));
    lemma_no_blocks(html, lowercase("style"@));
    lemma_no_blocks(html, lowercase("nav"@));
    lemma_no_blocks(html, lowercase("header"@));
    lemma_no_blocks(html, lowercase("footer"@));
    law_tags_become_spaces(html, Seq::empty(), Seq::empty());
    reveal_strlit("&nbsp;");
    reveal_strlit("&amp;");
    reveal_strlit("&quot;");
    reveal_strlit("&#39;");
    lemma_nothing_replaced(html, "&nbsp;"@, " "@);
    lemma_nothing_replaced(html, "&amp;"@, "&"@);
    lemma_nothing_replaced(html, "&quot;"@, "\""@);
    lemma_nothing_replaced(html, "&#39;"@, "'"@);
}

/// A link with a scheme of the web stays as it is, but for white space around it; one that begins
/// at the root of a host leads to that host.
pub proof fn law_links_lead_where_they_say(base: Seq<char>, link: Seq<char>)
    ensures
        begins_with(trimmed(link), "https://"@) || begins_with(trimmed(link), "http://"@)
            ==> resolved_url(base, link) == trimmed(link),
        begins_with(trimmed(link), "/"@) && !begins_with(trimmed(link), "//"@) ==> ({
            let whole = resolved_url(base, link);
            &&& whole.len() >= trimmed(link).len()
            &&& whole.skip(whole.len() - trimmed(link).len()) == trimmed(link)
        }),
{
    reveal_strlit("/");
    reveal_strlit("//");
    reveal_strlit("http://");
    reveal_strlit("https://");
    let href = trimmed(link);
    if begins_with(href, "/"@) && !begins_with(href, "//"@) {
        assert(href.take(1)[0] == href[0]);
        if begins_with(href, "http://"@) {
            assert(href.take(7)[0] == href[0]);
        }
        if begins_with(href, "https://"@) {
            assert(href.take(8)[0] == href[0]);
        }
        let whole = resolved_url(base, link);
        assert(whole.skip(whole.len() - href.len()) =~= href);
    }
}

proof fn lemma_links_from(
    html: Seq<char>,
    base: Seq<char>,
    from: int,
    found: Seq<(Seq<char>, Seq<char>)>,
)
    ensures
        links_from(html, base, from, found).len() >= found.len(),
        links_from(html, base, from, found).take(found.len() as int) == found,
    decreases lowercase(html).len() - from,
{
    let low = lowercase(html);
    assert(found.take(found.len() as int) =~= found);
    if let Some(start) = find_from(low, "<a"@, from) {
        let open = crate::text::next_char(low, '>', start);
        if open < low.len() {
            if let Some(close) = find_from(low, "</a>"@, open + 1) {
                if let Some(next) = with_link(html, base, start, open, close, found) {
                    assert(next.take(found.len() as int) =~= found);
                    if !(next.len() >= MAX_LINKS || !(0 <= from <= start <= open < close && close
                        + 4 <= low.len())) {
                        lemma_links_from(html, base, close + 4, next);
                        let all = links_from(html, base, close + 4, next);
                        assert(all.take(found.len() as int) =~= all.take(next.len() as int).take(
                            found.len() as int,
                        ));
                    }
                }
            }
        }
    }
}

/// A link of a page that leads somewhere is found, with its text, and the search goes on behind
/// it. What was found before stays.
pub proof fn law_every_link_is_found(
    html: Seq<char>,
    base: Seq<char>,
    from: int,
    found: Seq<(Seq<char>, Seq<char>)>,
    start: int,
    open: int,
    close: int,
    text: Seq<char>,
    href: Seq<char>,
)
    requires
        0 <= from <= start < open < close,
        find_from(lowercase(html), "<a"@, from) == Some(start),
        crate::text::next_char(lowercase(html), '>', start) == open,
        find_from(lowercase(html), "</a>"@, open + 1) == Some(close),
        close + 4 <= lowercase(html).len(),
        crate::offsets::carried_slice(html, start, open + 1) matches Some(fragment)
            && crate::tools::html::tag_attribute(fragment, "href"@) == Some(href),
        crate::offsets::carried_slice(html, open + 1, close) == Some(text),
        !begins_with(href, "#"@),
        !begins_with(href, "javascript:"@),
        found.len() + 1 < MAX_LINKS,
    ensures
        ({
            let link = (page_text(text), resolved_url(base, href));
            let all = links_from(html, base, from, found);
            &&& all == links_from(html, base, close + 4, found.push(link))
            &&& all.len() > found.len()
            &&& all[found.len() as int] == link
            &&& all.take(found.len() as int) == found
        }),
{
    let link = (page_text(text), resolved_url(base, href));
    let next = found.push(link);
    assert(with_link(html, base, start, open, close, found) == Some(next));
    lemma_links_from(html, base, close + 4, next);
    let all = links_from(html, base, close + 4, next);
    assert(all.take(next.len() as int)[found.len() as int] == link);
    assert(all.take(found.len() as int) =~= all.take(next.len() as int).take(found.len() as int));
}

// ---- searches ----

/// Every page that a link of a search leads to is among the results, once behind each other.
pub proof fn law_every_result_is_found(links: Seq<(Seq<char>, Seq<char>)>, i: int)
    requires
        0 <= i < links.len(),
        is_result(links[i]),
    ensures
        exists|k: int|
            0 <= k < results_of(links).len() && (#[trigger] results_of(links)[k]).1 == links[i].1,
    decreases links.len(),
{
    let head = links.drop_last();
    let all = results_of(links);
    let before = results_of(head);
    if i < head.len() {
        law_every_result_is_found(head, i);
        let k = choose|k: int|
            0 <= k < before.len() && (#[trigger] before[k]).1 == head[i].1;
        assert(all[k].1 == links[i].1);
    } else if before.len() > 0 && before.last().1 == links[i].1 {
        assert(all[before.len() - 1].1 == links[i].1);
    } else {
        assert(all[before.len() as int].1 == links[i].1);
    }
}

/// Every text among the items of an array is taken, in order.
pub proof fn law_every_text_is_taken(items: Seq<JsonModel>)
    ensures
        texts_of(items) == items.filter(|item: JsonModel| item is Str).map_values(
            |item: JsonModel| item->Str_0,
        ),
    decreases items.len(),
{
    reveal(Seq::filter);
    let is_text = |item: JsonModel| item is Str;
    let text = |item: JsonModel| item->Str_0;
    if items.len() > 0 {
        law_every_text_is_taken(items.drop_last());
    }
    assert(texts_of(items) =~= items.filter(is_text).map_values(text));
}

} // verus!
