//! What is asked of the web and reported of it, what is drawn, and what a computer is told to do.

use vstd::prelude::*;

use crate::json::{num, JsonModel};
use crate::json_model::lemma_member_index_is;
use crate::text::{has_part, occurs_at};
use crate::tools::computer::{character_events, click_events, computer_step, integer_at, InputEvent};
use crate::tools::data::{analysis_json, missing_in, text_array};
use crate::tools::csv::TableModel;
use crate::tools::html::{page_text, page_title, percent_encoded, upper_hex};
use crate::tools::png::{
    bar_covers, be_bytes, chart_png, chunk_of, colour, crc_of, line_pixels, picture, stored,
};
use crate::tools::websearch::{
    crawled_json, engine_list, page_at, result_json, search_report_json, shown, wanted_results,
};

verus! {

proof fn lemma_get_at(members: Seq<(Seq<char>, JsonModel)>, i: int, key: Seq<char>)
    requires
        0 <= i < members.len(),
        members[i].0 == key,
        forall|j: int| 0 <= j < i ==> (#[trigger] members[j]).0 != key,
    ensures
        JsonModel::Object(members).get(key) == Some(members[i].1),
{
    lemma_member_index_is(members, key, i);
}

// ---- addresses ----

/// The value of a hexadecimal digit.
pub open spec fn hex_value(c: char) -> int {
    if '0' <= c && c <= '9' {
        c as int - 48
    } else {
        c as int - 55
    }
}

/// Bytes as they are read from an address, from its end to its beginning.
pub open spec fn percent_decoded(s: Seq<char>) -> Seq<u8>
    decreases s.len(),
{
    if s.len() == 0 {
        Seq::empty()
    } else if s.len() >= 3 && s[s.len() - 3] == '%' {
        percent_decoded(s.take(s.len() - 3)).push(
            (hex_value(s[s.len() - 2]) * 16 + hex_value(s[s.len() - 1])) as u8,
        )
    } else {
        percent_decoded(s.drop_last()).push(s.last() as u8)
    }
}

/// A byte is written as itself where it is a letter, a digit or one of four signs, and by its two
/// digits else; bytes are written one behind the other.
pub proof fn law_addresses_are_written_byte_by_byte(a: Seq<u8>, b: Seq<u8>, byte: u8)
    ensures
        percent_encoded(a + b) == percent_encoded(a) + percent_encoded(b),
        65 <= byte <= 90 || 97 <= byte <= 122 || 48 <= byte <= 57 || byte == 45 || byte == 95
            || byte == 46 || byte == 126 ==> percent_encoded(seq![byte]) == seq![byte as char],
        !(65 <= byte <= 90 || 97 <= byte <= 122 || 48 <= byte <= 57 || byte == 45 || byte == 95
            || byte == 46 || byte == 126) ==> {
            let text = percent_encoded(seq![byte]);
            &&& text.len() == 3
            &&& text[0] == '%'
            &&& hex_value(text[1]) * 16 + hex_value(text[2]) == byte
        },
    decreases b.len(),
{
    assert(seq![byte].drop_last() =~= Seq::<u8>::empty());
    assert(percent_encoded(seq![byte].drop_last()) =~= Seq::<char>::empty());
    if crate::tools::html::is_unreserved(byte) {
        assert(percent_encoded(seq![byte]) =~= seq![byte as char]);
    } else {
        let high = (byte / 16) as nat;
        let low = (byte % 16) as nat;
        assert(percent_encoded(seq![byte]) =~= seq!['%', upper_hex(high), upper_hex(low)]);
        lemma_hex(high);
        lemma_hex(low);
    }
    if b.len() == 0 {
        assert(a + b =~= a);
        assert(percent_encoded(a) + percent_encoded(b) =~= percent_encoded(a));
    } else {
        assert((a + b).drop_last() =~= a + b.drop_last());
        assert((a + b).last() == b.last());
        law_addresses_are_written_byte_by_byte(a, b.drop_last(), byte);
        assert(percent_encoded(a + b) =~= percent_encoded(a) + percent_encoded(b));
    }
}

proof fn lemma_no_sign_at_end(bytes: Seq<u8>)
    ensures
        ({
            let text = percent_encoded(bytes);
            &&& text.len() >= 1 ==> text[text.len() - 1] != '%'
            &&& text.len() >= 2 ==> text[text.len() - 2] != '%'
        }),
    decreases bytes.len(),
{
    if bytes.len() > 0 {
        lemma_no_sign_at_end(bytes.drop_last());
        lemma_hex((bytes.last() / 16) as nat);
        lemma_hex((bytes.last() % 16) as nat);
    }
}

/// What was written into an address is read back from it, whatever the bytes are.
pub proof fn law_addresses_are_read_back(bytes: Seq<u8>)
    ensures
        percent_decoded(percent_encoded(bytes)) == bytes,
    decreases bytes.len(),
{
    if bytes.len() == 0 {
        assert(percent_decoded(percent_encoded(bytes)) =~= bytes);
    } else {
        let front = bytes.drop_last();
        let head = percent_encoded(front);
        let all = percent_encoded(bytes);
        let byte = bytes.last();
        law_addresses_are_read_back(front);
        lemma_no_sign_at_end(front);
        lemma_hex((byte / 16) as nat);
        lemma_hex((byte % 16) as nat);
        if crate::tools::html::is_unreserved(byte) {
            assert(all.drop_last() =~= head);
            assert(all.last() == byte as char);
        } else {
            assert(all.take(all.len() - 3) =~= head);
        }
        assert(front.push(byte) =~= bytes);
    }
}

proof fn lemma_hex(d: nat)
    requires
        d < 16,
    ensures
        hex_value(upper_hex(d)) == d,
{
    if d < 10 {
        let n = (48 + d) as u8;
        assert(upper_hex(d) as u32 == n);
    } else {
        let n = (55 + d) as u8;
        assert(upper_hex(d) as u32 == n);
    }
}

/// Every engine is asked for the query: it stands in the address of its page.
pub proof fn law_engines_are_asked_for_the_query(query: Seq<char>, number: u64, i: int)
    requires
        0 <= i < engine_list(query, number).len(),
    ensures
        has_part(
            engine_list(query, number)[i].1,
            percent_encoded(vstd::utf8::encode_utf8(query)),
        ),
        engine_list(query, number).len() == 4,
{
    let encoded = percent_encoded(vstd::utf8::encode_utf8(query));
    let page = engine_list(query, number)[i].1;
    let head = if i == 0 {
        "https://html.duckduckgo.com/html/?q="@
    } else if i == 1 {
        "https://www.bing.com/search?q="@
    } else if i == 2 {
        "https://www.google.com/search?q="@
    } else {
        "https://www.baidu.com/s?wd="@
    };
    let at = head.len() as int;
    assert(page.subrange(at, at + encoded.len()) =~= encoded);
    assert(occurs_at(page, encoded, at));
}

// ---- reports ----

/// The report of a search names the query and every result, in order, each with its place, its
/// title, its address, and the text of its page where that was fetched.
pub proof fn law_reports_name_every_result(
    query: Seq<char>,
    engine: Seq<char>,
    links: Seq<(Seq<char>, Seq<char>)>,
    pages: Seq<Option<Seq<char>>>,
    i: int,
)
    requires
        0 <= i < links.len(),
    ensures
        ({
            let report = search_report_json(query, engine, links, pages);
            let results = report.items("results"@)->0;
            let result = results[i];
            &&& report.text("query"@) == Some(query)
            &&& report.text("source"@) == Some(engine)
            &&& report.items("results"@) is Some
            &&& results.len() == links.len()
            &&& result.get("position"@) == Some(num((i + 1) as nat))
            &&& result.text("title"@) == Some(links[i].0)
            &&& result.text("url"@) == Some(links[i].1)
            &&& i < pages.len() && pages[i] is Some ==> result.text("raw_content"@) == Some(
                shown(page_text(pages[i]->0)),
            )
        }),
{
    reveal_strlit("query");
    reveal_strlit("source");
    reveal_strlit("total_results");
    reveal_strlit("results");
    reveal_strlit("position");
    reveal_strlit("title");
    reveal_strlit("url");
    reveal_strlit("description");
    reveal_strlit("raw_content");
    assert("query"@.len() == 5 && "source"@.len() == 6 && "total_results"@.len() == 13
        && "results"@.len() == 7 && "position"@.len() == 8 && "title"@.len() == 5 && "url"@.len()
        == 3 && "description"@.len() == 11 && "raw_content"@.len() == 11);
    assert("description"@[0] == 'd' && "raw_content"@[0] == 'r' && "query"@[0] == 'q' && "title"@[0]
        == 't');
    let report = search_report_json(query, engine, links, pages);
    lemma_get_at(report->Object_0, 0, "query"@);
    lemma_get_at(report->Object_0, 1, "source"@);
    lemma_get_at(report->Object_0, 3, "results"@);
    let result = result_json((i + 1) as nat, links[i], engine, page_at(pages, i));
    assert(report.items("results"@)->0[i] == result);
    lemma_get_at(result->Object_0, 0, "position"@);
    lemma_get_at(result->Object_0, 1, "title"@);
    lemma_get_at(result->Object_0, 2, "url"@);
    lemma_get_at(result->Object_0, 5, "raw_content"@);
}

/// As many results are asked for as are wanted, from one to ten.
pub proof fn law_as_many_results_as_wanted(arguments: JsonModel, n: u64)
    requires
        arguments.get("num_results"@) is Some,
        arguments.get("num_results"@)->0.as_u64() == Some(n),
    ensures
        1 <= n <= 10 ==> wanted_results(arguments) == n,
        n == 0 ==> wanted_results(arguments) == 1,
        n > 10 ==> wanted_results(arguments) == 10,
{
}

/// The report on a page that was read names it, says whether it could be read, and holds its text.
pub proof fn law_pages_are_reported_with_their_text(
    url: Seq<char>,
    status: u16,
    html: Seq<char>,
    threshold: nat,
    bypass: bool,
)
    ensures
        ({
            let report = crawled_json(url, status, html, threshold, bypass);
            &&& report.text("url"@) == Some(url)
            &&& report.get("success"@) == Some(JsonModel::Bool(200 <= status < 300))
            &&& crate::text::words(page_text(html)).len() >= threshold ==> {
                &&& report.text("title"@) == Some(page_title(html))
                &&& report.text("markdown"@) == Some(shown(page_text(html)))
            }
        }),
{
    reveal_strlit("url");
    reveal_strlit("success");
    reveal_strlit("status_code");
    reveal_strlit("title");
    reveal_strlit("markdown");
    assert("url"@.len() == 3 && "success"@.len() == 7 && "status_code"@.len() == 11
        && "title"@.len() == 5 && "markdown"@.len() == 8);
    let report = crawled_json(url, status, html, threshold, bypass);
    lemma_get_at(report->Object_0, 0, "url"@);
    lemma_get_at(report->Object_0, 1, "success"@);
    if crate::text::words(page_text(html)).len() >= threshold {
        lemma_get_at(report->Object_0, 3, "title"@);
        lemma_get_at(report->Object_0, 4, "markdown"@);
    }
}

/// The report on a table tells how many rows there are, names every column, with how many of its
/// values are missing, and shows the first rows.
pub proof fn law_tables_are_reported(
    table: TableModel,
    numeric: Seq<(u64, JsonModel)>,
    limit: nat,
    i: int,
)
    ensures
        ({
            let report = analysis_json(table, numeric, limit);
            let summaries = report.items("summaries"@)->0;
            let sample = report.items("sample"@)->0;
            &&& report.get("rows"@) == Some(num(table.rows.len()))
            &&& report.get("columns"@) == Some(text_array(table.headers))
            &&& report.items("summaries"@) is Some
            &&& summaries.len() == table.headers.len()
            &&& 0 <= i < table.headers.len() ==> {
                &&& summaries[i].text("name"@) == Some(table.headers[i])
                &&& summaries[i].get("missing"@) == Some(num(missing_in(table.rows, i)))
                &&& i < numeric.len() ==> summaries[i].get("numeric_count"@) == Some(
                    num(numeric[i].0 as nat),
                ) && summaries[i].get("mean"@) == Some(numeric[i].1)
            }
            &&& report.items("sample"@) is Some
            &&& table.rows.len() <= limit ==> sample.len() == table.rows.len()
            &&& table.rows.len() > limit ==> sample.len() == limit
            &&& 0 <= i < sample.len() ==> sample[i] == text_array(table.rows[i])
        }),
{
    reveal_strlit("format");
    reveal_strlit("rows");
    reveal_strlit("columns");
    reveal_strlit("summaries");
    reveal_strlit("sample");
    reveal_strlit("name");
    reveal_strlit("missing");
    reveal_strlit("numeric_count");
    reveal_strlit("mean");
    assert("format"@.len() == 6 && "rows"@.len() == 4 && "columns"@.len() == 7 && "summaries"@.len()
        == 9 && "sample"@.len() == 6 && "name"@.len() == 4 && "missing"@.len() == 7
        && "numeric_count"@.len() == 13 && "mean"@.len() == 4);
    assert("format"@[0] == 'f' && "sample"@[0] == 's' && "name"@[0] == 'n' && "mean"@[0] == 'm');
    let report = analysis_json(table, numeric, limit);
    lemma_get_at(report->Object_0, 1, "rows"@);
    lemma_get_at(report->Object_0, 2, "columns"@);
    lemma_get_at(report->Object_0, 3, "summaries"@);
    lemma_get_at(report->Object_0, 4, "sample"@);
    if 0 <= i < table.headers.len() {
        let summary = report.items("summaries"@)->0[i];
        lemma_get_at(summary->Object_0, 0, "name"@);
        lemma_get_at(summary->Object_0, 1, "missing"@);
        lemma_get_at(summary->Object_0, 2, "numeric_count"@);
        lemma_get_at(summary->Object_0, 3, "mean"@);
    }
}

// ---- pictures ----

proof fn lemma_line_pixels(heights: Seq<usize>, y: int, n: nat, x: int)
    requires
        0 <= x < n,
    ensures
        line_pixels(heights, y, n).len() == 3 * n,
        line_pixels(heights, y, n).subrange(3 * x, 3 * x + 3) == colour(heights, x, y),
    decreases n,
{
    let head = line_pixels(heights, y, (n - 1) as nat);
    let all = line_pixels(heights, y, n);
    assert(colour(heights, n - 1, y).len() == 3);
    if n > 1 {
        lemma_line_pixels(heights, y, (n - 1) as nat, if x < n - 1 { x } else { 0 });
    } else {
        assert(head.len() == 0);
    }
    if x < n - 1 {
        assert(all.subrange(3 * x, 3 * x + 3) =~= head.subrange(3 * x, 3 * x + 3));
    } else {
        assert(all.subrange(3 * x, 3 * x + 3) =~= colour(heights, x, y));
    }
}

/// The place of a chart is drawn in the colour of a bar if and only if a bar stands there: between
/// its sides, and no higher than its height above the axis.
pub proof fn law_bars_are_drawn_to_their_height(heights: Seq<usize>, i: int, x: int, y: int)
    ensures
        0 <= i < heights.len() && bar_covers(heights, i, x, y) ==> colour(heights, x, y)
            == seq![196u8, 81u8, 50u8],
        (forall|k: int| 0 <= k < heights.len() ==> !bar_covers(heights, k, x, y)) ==> colour(
            heights,
            x,
            y,
        ) != seq![196u8, 81u8, 50u8],
        0 <= i < heights.len() ==> {
            &&& bar_covers(heights, i, x, y) ==> y < 420 && y >= 420 - heights[i]
            &&& bar_covers(heights, i, x, 419) && 420 - heights[i] <= y < 420 ==> bar_covers(
                heights,
                i,
                x,
                y,
            )
        },
        0 <= x < 900 ==> line_pixels(heights, y, 900).subrange(3 * x, 3 * x + 3) == colour(
            heights,
            x,
            y,
        ),
{
    assert(seq![119u8, 115u8, 107u8][0] == 119u8);
    assert(seq![255u8, 255u8, 255u8][0] == 255u8);
    assert(seq![196u8, 81u8, 50u8][0] == 196u8);
    if 0 <= x < 900 {
        lemma_line_pixels(heights, y, 900, x);
    }
}

/// A chunk of a picture holds its length, its kind, its data and their checksum; the picture of a
/// chart begins with the signature and ends with the chunk that closes it.
pub proof fn law_pictures_are_made_of_chunks(
    kind: Seq<u8>,
    data: Seq<u8>,
    heights: Seq<usize>,
)
    requires
        kind.len() == 4,
        data.len() <= u32::MAX,
    ensures
        ({
            let chunk = chunk_of(kind, data);
            let n = data.len() as int;
            &&& chunk.len() == n + 12
            &&& chunk.take(4) == be_bytes(n as u32)
            &&& chunk.subrange(4, 8) == kind
            &&& chunk.subrange(8, 8 + n) == data
            &&& chunk.skip(8 + n) == be_bytes(crc_of(kind + data))
        }),
        chart_png(heights).take(8) == seq![
            0x89u8,
            0x50u8,
            0x4eu8,
            0x47u8,
            0x0du8,
            0x0au8,
            0x1au8,
            0x0au8,
        ],
        has_bytes(chart_png(heights), stored(picture(heights, 500))),
{
    let chunk = chunk_of(kind, data);
    let n = data.len() as int;
    assert(chunk.take(4) =~= be_bytes(n as u32));
    assert(chunk.subrange(4, 8) =~= kind);
    assert(chunk.subrange(8, 8 + n) =~= data);
    assert(chunk.skip(8 + n) =~= be_bytes(crc_of(kind + data)));
    let png = chart_png(heights);
    assert(png.take(8) =~= seq![
        0x89u8,
        0x50u8,
        0x4eu8,
        0x47u8,
        0x0du8,
        0x0au8,
        0x1au8,
        0x0au8,
    ]);
    let body = stored(picture(heights, 500));
    let at: int = 41;
    assert(png.subrange(at, at + body.len()) =~= body);
}

/// Whether the bytes stand somewhere in others.
pub open spec fn has_bytes(bytes: Seq<u8>, part: Seq<u8>) -> bool {
    exists|i: int|
        0 <= i && i + part.len() <= bytes.len() && #[trigger] bytes.subrange(i, i + part.len())
            == part
}

// ---- the computer ----

/// A button is pressed and let go again as often as it is to be clicked, and nothing else is done
/// but to move the cursor to its place first.
pub proof fn law_clicks_press_and_let_go(down: u32, up: u32, clicks: nat, i: int)
    ensures
        click_events(down, up, clicks).len() == 2 * clicks,
        0 <= i < clicks ==> {
            &&& click_events(down, up, clicks)[2 * i] == (InputEvent::Mouse {
                flags: down,
                data: 0,
            })
            &&& click_events(down, up, clicks)[2 * i + 1] == (InputEvent::Mouse {
                flags: up,
                data: 0,
            })
        },
    decreases clicks,
{
    if clicks > 0 {
        law_clicks_press_and_let_go(down, up, (clicks - 1) as nat, i);
    }
}

/// A key that is typed is pressed and let go again; a key that is held with it is held all the
/// while.
pub proof fn law_keys_are_let_go_again(mapped: u16)
    requires
        mapped != 65535,
    ensures
        ({
            let events = character_events(mapped);
            let code = (mapped % 256) as u8;
            &&& events.contains(InputEvent::Key { code, up: false })
            &&& events.contains(InputEvent::Key { code, up: true })
            &&& mapped / 256 % 2 == 0 ==> events.len() == 2
            &&& mapped / 256 % 2 == 1 ==> events.len() == 4 && events[0] == (InputEvent::Key {
                code: 0x10,
                up: false,
            }) && events[3] == (InputEvent::Key { code: 0x10, up: true })
        }),
{
    let events = character_events(mapped);
    let code = (mapped % 256) as u8;
    if mapped / 256 % 2 == 1 {
        assert(events[1] == InputEvent::Key { code, up: false });
        assert(events[2] == InputEvent::Key { code, up: true });
    } else {
        assert(events[0] == InputEvent::Key { code, up: false });
        assert(events[1] == InputEvent::Key { code, up: true });
    }
}

/// The cursor is moved to the place that is named, and a text is typed as it is.
pub proof fn law_the_computer_does_what_it_is_told(a: JsonModel, x: i64, y: i64, text: Seq<char>)
    ensures
        a.text("action"@) == Some("move_to"@) && integer_at(a, "x"@) == Some(x) && integer_at(
            a,
            "y"@,
        ) == Some(y) && i32::MIN <= x <= i32::MAX && i32::MIN <= y <= i32::MAX ==> (computer_step(
            a,
            true,
        ) matches Ok(step) && step is Move && step->x == x && step->y == y),
        a.text("action"@) == Some("type"@) && a.text("text"@) == Some(text) ==> (computer_step(
            a,
            true,
        ) matches Ok(step) && step is Type && step->text == text),
        a.text("action"@) == Some("move_to"@) || a.text("action"@) == Some("type"@)
            ==> computer_step(a, false) is Err,
{
    reveal_strlit("wait");
    reveal_strlit("screenshot");
    reveal_strlit("move_to");
    reveal_strlit("click");
    reveal_strlit("scroll");
    reveal_strlit("type");
    assert("wait"@.len() == 4 && "screenshot"@.len() == 10 && "move_to"@.len() == 7
        && "click"@.len() == 5 && "scroll"@.len() == 6 && "type"@.len() == 4);
    assert("wait"@[0] == 'w' && "type"@[0] == 't');
}

} // verus!
