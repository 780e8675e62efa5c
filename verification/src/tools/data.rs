//! The tools that look at tables and draw charts of them.
//!
//! Numbers with a fraction are read, averaged and drawn outside the library, which takes them as
//! text.

use vstd::prelude::*;

use crate::coding::limits::truncate_output;
use crate::deep::{deep, group_deep};
use crate::json::{group_json, num, optional, Json, JsonModel, Members};
use crate::json_text::{parsed_json, pretty_json};
use crate::number::{decimal, next_number_text, number_text};
use crate::text::{
    ascii_alnum, ascii_lower, chars_of, concat3, concat5, ends_with, finishes_with, is_alnum, lower,
    lowercase, push_text, string_of, to_lowercase, trim_char, trim_set,
};
use crate::tools::csv::{rows_of, Table, TableModel};
use crate::tools::websearch::{at_most, number_argument, number_or, shown};

verus! {

broadcast use {group_deep, group_json};

// ---- requests ----

/// The file that a call speaks of.
pub open spec fn data_file(arguments: JsonModel) -> Option<Seq<char>> {
    match arguments.text("path"@) {
        Some(path) => Some(path),
        None => arguments.text("json_path"@),
    }
}

fn data_path(arguments: &Json) -> (r: Option<String>)
    ensures
        r.deep_view() == data_file(arguments.deep_view()),
{
    match arguments.text("path") {
        Some(path) => Some(path.clone()),
        None => match arguments.text("json_path") {
            Some(path) => Some(path.clone()),
            None => None,
        },
    }
}

/// How many rows are shown: 5 where nothing is said, and from 1 to 20 in any case.
pub open spec fn sample_rows(arguments: JsonModel) -> usize {
    let n = number_or(arguments, "sample_rows"@, 5);
    if n < 1 {
        1
    } else if n > 20 {
        20
    } else {
        n as usize
    }
}

/// The file that is looked at, and how many of its rows are shown.
pub fn analysis_request(arguments: &Json) -> (r: Result<(String, usize), String>)
    ensures
        match data_file(arguments.deep_view()) {
            Some(path) => r is Ok && r->Ok_0.0@ == path && r->Ok_0.1 == sample_rows(
                arguments.deep_view(),
            ),
            None => r is Err && r->Err_0@ == "rust_data_analysis requires path"@,
        },
{
    let path = match data_path(arguments) {
        Some(path) => path,
        None => {
            return Err("rust_data_analysis requires path".to_owned());
        },
    };
    let n = number_argument(arguments, "sample_rows", 5);
    let limit: usize = if n < 1 {
        1
    } else if n > 20 {
        20
    } else {
        n as usize
    };
    Ok((path, limit))
}

// ---- analysis ----

/// How many of the rows have nothing in the column.
pub open spec fn missing_in(rows: Seq<Seq<Seq<char>>>, column: int) -> nat
    decreases rows.len(),
{
    if rows.len() == 0 {
        0
    } else {
        missing_in(rows.drop_last(), column) + (if column >= rows.last().len()
            || rows.last()[column].len() == 0 {
            1nat
        } else {
            0nat
        })
    }
}

/// How many of the rows have nothing in the column.
pub fn count_missing(rows: &Vec<Vec<String>>, column: usize) -> (r: usize)
    ensures
        r == missing_in(rows_of(rows@), column as int),
{
    let ghost models = rows_of(rows@);
    let n = rows.len();
    let mut count: usize = 0;
    let mut i: usize = 0;
    proof {
        assert(models.take(0) =~= Seq::<Seq<Seq<char>>>::empty());
    }
    while i < n
        invariant
            models == rows_of(rows@),
            n == rows@.len(),
            i <= n,
            count <= i,
            count == missing_in(models.take(i as int), column as int),
        decreases n - i,
    {
        proof {
            assert(models.take(i + 1).drop_last() =~= models.take(i as int));
            assert(models.take(i + 1).last() == deep(rows@[i as int]@));
            assert(deep(rows@[i as int]@).len() == rows@[i as int]@.len());
            if column < rows@[i as int]@.len() {
                assert(deep(rows@[i as int]@)[column as int] == rows@[i as int]@[column as int]@);
            }
        }
        if column >= rows[i].len() || rows[i][column].as_str().is_empty() {
            count += 1;
        }
        i += 1;
    }
    proof {
        assert(models.take(models.len() as int) =~= models);
    }
    count
}

/// What is reported of a column. `numeric` is how many of its cells are numbers, and `mean` their
/// mean, or null.
pub open spec fn summary_json(
    name: Seq<char>,
    missing: nat,
    numeric: (u64, JsonModel),
) -> JsonModel {
    JsonModel::Object(
        seq![
            ("name"@, JsonModel::Str(name)),
            ("missing"@, num(missing)),
            ("numeric_count"@, num(numeric.0 as nat)),
            ("mean"@, numeric.1),
        ],
    )
}

/// A list of texts as a JSON array.
pub open spec fn text_array(texts: Seq<Seq<char>>) -> JsonModel {
    JsonModel::Array(Seq::new(texts.len(), |i: int| JsonModel::Str(texts[i])))
}

/// A list of texts as a JSON array.
pub fn array_of_texts(texts: &Vec<String>) -> (r: Json)
    ensures
        r.deep_view() == text_array(deep(texts@)),
{
    let mut items: Vec<Json> = Vec::new();
    let mut i: usize = 0;
    while i < texts.len()
        invariant
            i <= texts@.len(),
            items@.len() == i,
            forall|k: int|
                0 <= k < i ==> #[trigger] deep(items@)[k] == JsonModel::Str(deep(texts@)[k]),
        decreases texts@.len() - i,
    {
        let item = Json::string(&texts[i]);
        let ghost before = deep(items@);
        items.push(item);
        proof {
            assert(deep(items@) == before.push(item.deep_view()));
            assert(deep(texts@)[i as int] == texts@[i as int]@);
        }
        i += 1;
    }
    proof {
        assert(deep(items@) =~= text_array(deep(texts@))->Array_0);
    }
    Json::Array(items)
}

/// The numbers of a column: how many there are, and their mean.
pub open spec fn numeric_at(numeric: Seq<(u64, JsonModel)>, i: int) -> (u64, JsonModel) {
    if 0 <= i < numeric.len() {
        numeric[i]
    } else {
        (0, JsonModel::Null)
    }
}

/// The report on a table.
pub open spec fn analysis_json(
    table: TableModel,
    numeric: Seq<(u64, JsonModel)>,
    limit: nat,
) -> JsonModel {
    let sample = at_most(table.rows, limit);
    JsonModel::Object(
        seq![
            ("format"@, JsonModel::Str("csv"@)),
            ("rows"@, num(table.rows.len())),
            ("columns"@, text_array(table.headers)),
            (
                "summaries"@,
                JsonModel::Array(
                    Seq::new(
                        table.headers.len(),
                        |i: int|
                            summary_json(
                                table.headers[i],
                                missing_in(table.rows, i),
                                numeric_at(numeric, i),
                            ),
                    ),
                ),
            ),
            ("sample"@, JsonModel::Array(Seq::new(sample.len(), |i: int| text_array(sample[i])))),
        ],
    )
}

fn summaries(table: &Table, numeric: &Vec<(u64, Json)>) -> (r: Vec<Json>)
    ensures
        r@.len() == table.headers@.len(),
        forall|i: int|
            0 <= i < r@.len() ==> #[trigger] deep(r@)[i] == summary_json(
                deep(table.headers@)[i],
                missing_in(rows_of(table.rows@), i),
                numeric_at(numeric_of(numeric@), i),
            ),
{
    let mut r: Vec<Json> = Vec::new();
    let mut i: usize = 0;
    while i < table.headers.len()
        invariant
            i <= table.headers@.len(),
            r@.len() == i,
            forall|k: int|
                0 <= k < i ==> #[trigger] deep(r@)[k] == summary_json(
                    deep(table.headers@)[k],
                    missing_in(rows_of(table.rows@), k),
                    numeric_at(numeric_of(numeric@), k),
                ),
        decreases table.headers@.len() - i,
    {
        let missing = count_missing(&table.rows, i);
        let (count, mean): (u64, Json) = if i < numeric.len() {
            (numeric[i].0, numeric[i].1.clone())
        } else {
            (0, Json::Null)
        };
        let members = Members::new().with("name", Json::string(&table.headers[i])).with(
            "missing",
            Json::number(missing as u64),
        ).with("numeric_count", Json::number(count)).with("mean", mean);
        let ghost wanted = summary_json(
            deep(table.headers@)[i as int],
            missing_in(rows_of(table.rows@), i as int),
            numeric_at(numeric_of(numeric@), i as int),
        );
        proof {
            assert(deep(table.headers@)[i as int] == table.headers@[i as int]@);
            assert(members.model() =~= wanted->Object_0);
        }
        let value = members.object();
        let ghost before = deep(r@);
        r.push(value);
        proof {
            assert(deep(r@) == before.push(value.deep_view()));
        }
        i += 1;
    }
    r
}

/// What the numbers of the columns are.
pub open spec fn numeric_of(numeric: Seq<(u64, Json)>) -> Seq<(u64, JsonModel)> {
    Seq::new(numeric.len(), |i: int| (numeric[i].0, numeric[i].1.deep_view()))
}

/// The report on a table.
pub fn analysis_report(table: &Table, numeric: &Vec<(u64, Json)>, limit: usize) -> (r: String)
    ensures
        r@ == shown(
            pretty_json(analysis_json(table.deep_view(), numeric_of(numeric@), limit as nat)),
        ),
{
    let ghost wanted = analysis_json(table.deep_view(), numeric_of(numeric@), limit as nat);
    let parts = summaries(table, numeric);
    proof {
        assert(deep(parts@) =~= wanted->Object_0[3].1->Array_0);
    }
    let mut sample: Vec<Json> = Vec::new();
    let mut i: usize = 0;
    while i < table.rows.len() && i < limit
        invariant
            i <= table.rows@.len(),
            i <= limit,
            sample@.len() == i,
            forall|k: int|
                0 <= k < i ==> #[trigger] deep(sample@)[k] == text_array(
                    rows_of(table.rows@)[k],
                ),
        decreases table.rows@.len() - i,
    {
        let row = array_of_texts(&table.rows[i]);
        let ghost before = deep(sample@);
        sample.push(row);
        proof {
            assert(deep(sample@) == before.push(row.deep_view()));
        }
        i += 1;
    }
    proof {
        assert(deep(sample@) =~= wanted->Object_0[4].1->Array_0);
    }
    let members = Members::new().with("format", Json::string("csv")).with(
        "rows",
        Json::number(table.rows.len() as u64),
    ).with("columns", array_of_texts(&table.headers)).with("summaries", Json::Array(parts)).with(
        "sample",
        Json::Array(sample),
    );
    proof {
        assert(members.model() =~= wanted->Object_0);
    }
    truncate_output(&members.object().to_pretty_text())
}

// ---- charts ----

/// A character as it stands in HTML.
pub open spec fn escaped_char(c: char) -> Seq<char> {
    if c == '&' {
        "&amp;"@
    } else if c == '<' {
        "&lt;"@
    } else if c == '>' {
        "&gt;"@
    } else if c == '"' {
        "&quot;"@
    } else {
        seq![c]
    }
}

/// A text as it stands in HTML.
pub open spec fn escaped(s: Seq<char>) -> Seq<char>
    decreases s.len(),
{
    if s.len() == 0 {
        Seq::empty()
    } else {
        escaped(s.drop_last()) + escaped_char(s.last())
    }
}

/// A text as it stands in HTML.
pub fn escape_html(value: &str) -> (r: String)
    ensures
        r@ == escaped(value@),
{
    let v = chars_of(value);
    let mut out: Vec<char> = Vec::new();
    let mut i: usize = 0;
    proof {
        assert(value@.take(0) =~= Seq::<char>::empty());
    }
    while i < v.len()
        invariant
            v@ == value@,
            i <= v@.len(),
            out@ == escaped(value@.take(i as int)),
        decreases v@.len() - i,
    {
        let c = v[i];
        let ghost before = out@;
        proof {
            assert(value@.take(i + 1).drop_last() =~= value@.take(i as int));
            assert(value@.take(i + 1).last() == c);
        }
        if c == '&' {
            push_text(&mut out, "&amp;");
        } else if c == '<' {
            push_text(&mut out, "&lt;");
        } else if c == '>' {
            push_text(&mut out, "&gt;");
        } else if c == '"' {
            push_text(&mut out, "&quot;");
        } else {
            out.push(c);
            proof {
                assert(out@ =~= before + seq![c]);
            }
        }
        i += 1;
    }
    proof {
        assert(value@.take(value@.len() as int) =~= value@);
    }
    string_of(&out)
}

/// No text that was escaped holds a bracket or a quote.
pub proof fn law_escaped_text_holds_no_markup(s: Seq<char>)
    ensures
        !escaped(s).contains('<'),
        !escaped(s).contains('>'),
        !escaped(s).contains('"'),
    decreases s.len(),
{
    reveal_strlit("&amp;");
    reveal_strlit("&lt;");
    reveal_strlit("&gt;");
    reveal_strlit("&quot;");
    if s.len() > 0 {
        law_escaped_text_holds_no_markup(s.drop_last());
        let head = escaped(s.drop_last());
        let tail = escaped_char(s.last());
        assert forall|k: int| 0 <= k < escaped(s).len() implies escaped(s)[k] != '<' && escaped(
            s,
        )[k] != '>' && escaped(s)[k] != '"' by {
            if k < head.len() {
                assert(escaped(s)[k] == head[k]);
                assert(head.contains(head[k]));
            } else {
                assert(escaped(s)[k] == tail[k - head.len()]);
            }
        }
    }
}

/// The column that is drawn: the first that holds a number, or the first of all.
pub open spec fn drawn_column(numeric: Seq<bool>) -> int {
    first_true(numeric, 0)
}

pub open spec fn first_true(flags: Seq<bool>, from: int) -> int
    decreases flags.len() - from,
{
    if from < 0 || from >= flags.len() {
        0
    } else if flags[from] {
        from
    } else {
        first_true(flags, from + 1)
    }
}

/// The column that is drawn. `numeric` says of each column whether it holds a number.
pub fn numeric_column(numeric: &Vec<bool>) -> (r: usize)
    ensures
        r == drawn_column(numeric@),
{
    let mut i: usize = 0;
    while i < numeric.len()
        invariant
            i <= numeric@.len(),
            first_true(numeric@, 0) == first_true(numeric@, i as int),
        decreases numeric@.len() - i,
    {
        if numeric[i] {
            return i;
        }
        i += 1;
    }
    0
}

/// The label of a row: its first cell, or its number where that is empty.
pub open spec fn row_label(row: Seq<Seq<char>>, i: int) -> Seq<char> {
    if row.len() > 0 && row[0].len() > 0 {
        row[0]
    } else {
        decimal((i + 1) as nat)
    }
}

/// The labels of the rows.
pub fn chart_labels(rows: &Vec<Vec<String>>) -> (r: Vec<String>)
    ensures
        deep(r@) == Seq::new(rows@.len(), |i: int| row_label(rows_of(rows@)[i], i)),
{
    let n = rows.len();
    let mut r: Vec<String> = Vec::new();
    let mut i: usize = 0;
    while i < n
        invariant
            n == rows@.len(),
            i <= n,
            r@.len() == i,
            forall|k: int|
                0 <= k < i ==> #[trigger] deep(r@)[k] == row_label(rows_of(rows@)[k], k),
        decreases n - i,
    {
        proof {
            let row = deep(rows@[i as int]@);
            assert(rows_of(rows@)[i as int] == row);
            assert(row.len() == rows@[i as int]@.len());
            if row.len() > 0 {
                assert(row[0] == rows@[i as int]@[0]@);
            }
        }
        let label = if rows[i].len() > 0 && !rows[i][0].as_str().is_empty() {
            rows[i][0].clone()
        } else {
            next_number_text(i as u64)
        };
        let ghost before = deep(r@);
        r.push(label);
        proof {
            assert(deep(r@) == before.push(label@));
        }
        i += 1;
    }
    proof {
        assert(deep(r@) =~= Seq::new(rows@.len(), |i: int| row_label(rows_of(rows@)[i], i)));
    }
    r
}

/// The place and the size of a bar, each number as text.
#[derive(Debug, PartialEq, Eq)]
pub struct BarBox {
    pub x: String,
    pub y: String,
    pub width: String,
    pub height: String,
    pub middle: String,
}

/// A bar and its label as part of a drawing.
pub open spec fn bar_svg(bar: BarBox, label: Seq<char>) -> Seq<char> {
    "<rect x=\""@ + bar.x@ + "\" y=\""@ + bar.y@ + "\" width=\""@ + bar.width@ + "\" height=\""@
        + bar.height@ + "\" fill=\"#c45132\"/><text x=\""@ + bar.middle@
        + "\" y=\"445\" font-size=\"11\" text-anchor=\"middle\">"@ + escaped(label) + "</text>"@
}

/// The label at a place; empty where there is none.
pub open spec fn label_at(labels: Seq<Seq<char>>, i: int) -> Seq<char> {
    if 0 <= i < labels.len() {
        labels[i]
    } else {
        Seq::empty()
    }
}

/// The bars of a drawing.
pub open spec fn bars_svg(bars: Seq<BarBox>, labels: Seq<Seq<char>>) -> Seq<char>
    decreases bars.len(),
{
    if bars.len() == 0 {
        Seq::empty()
    } else {
        bars_svg(bars.drop_last(), labels) + bar_svg(
            bars.last(),
            label_at(labels, bars.len() - 1),
        )
    }
}

/// A chart of bars as a drawing.
pub open spec fn chart_svg(
    title: Seq<char>,
    labels: Seq<Seq<char>>,
    bars: Seq<BarBox>,
) -> Seq<char> {
    "<svg xmlns=\"http://www.w3.org/2000/svg\" viewBox=\"0 0 900 500\"><rect width=\"100%\" height=\"100%\" fill=\"#fbfaf7\"/><text x=\"40\" y=\"42\" font-family=\"sans-serif\" font-size=\"22\" fill=\"#262522\">"@
        + escaped(title)
        + "</text><line x1=\"90\" y1=\"60\" x2=\"90\" y2=\"420\" stroke=\"#77736b\"/><line x1=\"90\" y1=\"420\" x2=\"850\" y2=\"420\" stroke=\"#77736b\"/>"@
        + bars_svg(bars, labels) + "</svg>"@
}

fn push_bar(out: &mut String, bar: &BarBox, label: &str)
    ensures
        final(out)@ == old(out)@ + bar_svg(*bar, label@),
{
    let mut text = concat5("<rect x=\"", &bar.x, "\" y=\"", &bar.y, "\" width=\"");
    text.append(&bar.width);
    text.append("\" height=\"");
    text.append(&bar.height);
    text.append("\" fill=\"#c45132\"/><text x=\"");
    text.append(&bar.middle);
    text.append("\" y=\"445\" font-size=\"11\" text-anchor=\"middle\">");
    text.append(&escape_html(label));
    text.append("</text>");
    out.append(&text);
}

/// A chart of bars as a drawing.
pub fn render_svg_chart(title: &str, labels: &Vec<String>, bars: &Vec<BarBox>) -> (r: String)
    ensures
        r@ == chart_svg(title@, deep(labels@), bars@),
{
    let mut drawn = String::new();
    let mut i: usize = 0;
    proof {
        assert(bars@.take(0) =~= Seq::<BarBox>::empty());
        assert(drawn@ =~= Seq::<char>::empty());
    }
    while i < bars.len()
        invariant
            i <= bars@.len(),
            drawn@ == bars_svg(bars@.take(i as int), deep(labels@)),
        decreases bars@.len() - i,
    {
        proof {
            assert(bars@.take(i + 1).drop_last() =~= bars@.take(i as int));
            assert(bars@.take(i + 1).last() == bars@[i as int]);
        }
        if i < labels.len() {
            proof {
                assert(deep(labels@)[i as int] == labels@[i as int]@);
            }
            push_bar(&mut drawn, &bars[i], &labels[i]);
        } else {
            let none = String::new();
            push_bar(&mut drawn, &bars[i], &none);
        }
        i += 1;
    }
    proof {
        assert(bars@.take(bars@.len() as int) =~= bars@);
    }
    concat5(
        "<svg xmlns=\"http://www.w3.org/2000/svg\" viewBox=\"0 0 900 500\"><rect width=\"100%\" height=\"100%\" fill=\"#fbfaf7\"/><text x=\"40\" y=\"42\" font-family=\"sans-serif\" font-size=\"22\" fill=\"#262522\">",
        &escape_html(title),
        "</text><line x1=\"90\" y1=\"60\" x2=\"90\" y2=\"420\" stroke=\"#77736b\"/><line x1=\"90\" y1=\"420\" x2=\"850\" y2=\"420\" stroke=\"#77736b\"/>",
        &drawn,
        "</svg>",
    )
}

// ---- pages ----

/// Cells of a table, each between the tags.
pub open spec fn cells_html(
    cells: Seq<Seq<char>>,
    open: Seq<char>,
    close: Seq<char>,
) -> Seq<char>
    decreases cells.len(),
{
    if cells.len() == 0 {
        Seq::empty()
    } else {
        cells_html(cells.drop_last(), open, close) + (open + escaped(cells.last()) + close)
    }
}

/// Rows of a table.
pub open spec fn rows_html(rows: Seq<Seq<Seq<char>>>) -> Seq<char>
    decreases rows.len(),
{
    if rows.len() == 0 {
        Seq::empty()
    } else {
        rows_html(rows.drop_last()) + ("<tr>"@ + cells_html(rows.last(), "<td>"@, "</td>"@)
            + "</tr>"@)
    }
}

/// How many rows a page shows.
pub const MAX_PAGE_ROWS: usize = 100;

/// A page with a drawing and the table that it shows.
pub open spec fn page_html(title: Seq<char>, table: TableModel, svg: Seq<char>) -> Seq<char> {
    "<!doctype html><meta charset=\"utf-8\"><title>"@ + escaped(title)
        + "</title><style>body{font-family:system-ui,sans-serif;background:#fbfaf7;color:#262522;margin:32px}table{border-collapse:collapse;margin-top:24px}td,th{border:1px solid #d5d1c8;padding:6px 9px;text-align:left}</style><h1>"@
        + escaped(title) + "</h1>"@ + svg + "<table><thead><tr>"@ + cells_html(
        table.headers,
        "<th>"@,
        "</th>"@,
    ) + "</tr></thead><tbody>"@ + rows_html(at_most(table.rows, MAX_PAGE_ROWS as nat))
        + "</tbody></table>"@
}

fn write_cells(cells: &Vec<String>, open: &str, close: &str) -> (r: String)
    ensures
        r@ == cells_html(deep(cells@), open@, close@),
{
    let ghost models = deep(cells@);
    let mut out = String::new();
    let mut i: usize = 0;
    proof {
        assert(models.take(0) =~= Seq::<Seq<char>>::empty());
        assert(out@ =~= Seq::<char>::empty());
    }
    while i < cells.len()
        invariant
            models == deep(cells@),
            i <= cells@.len(),
            out@ == cells_html(models.take(i as int), open@, close@),
        decreases cells@.len() - i,
    {
        proof {
            assert(models.take(i + 1).drop_last() =~= models.take(i as int));
            assert(models.take(i + 1).last() == cells@[i as int]@);
        }
        out.append(&concat3(open, &escape_html(&cells[i]), close));
        i += 1;
    }
    proof {
        assert(models.take(models.len() as int) =~= models);
    }
    out
}

/// A page with a drawing and the table that it shows.
pub fn chart_page(title: &str, table: &Table, svg: &str) -> (r: String)
    ensures
        r@ == page_html(title@, table.deep_view(), svg@),
{
    let ghost models = rows_of(table.rows@);
    let mut body = String::new();
    let mut i: usize = 0;
    proof {
        assert(models.take(0) =~= Seq::<Seq<Seq<char>>>::empty());
        assert(body@ =~= Seq::<char>::empty());
    }
    while i < table.rows.len() && i < MAX_PAGE_ROWS
        invariant
            models == rows_of(table.rows@),
            i <= table.rows@.len(),
            i <= MAX_PAGE_ROWS,
            body@ == rows_html(models.take(i as int)),
        decreases table.rows@.len() - i,
    {
        proof {
            assert(models.take(i + 1).drop_last() =~= models.take(i as int));
            assert(models.take(i + 1).last() == deep(table.rows@[i as int]@));
        }
        body.append(&concat3("<tr>", &write_cells(&table.rows[i], "<td>", "</td>"), "</tr>"));
        i += 1;
    }
    proof {
        assert(models.take(i as int) =~= at_most(models, MAX_PAGE_ROWS as nat));
    }
    let name = escape_html(title);
    let mut page = concat5(
        "<!doctype html><meta charset=\"utf-8\"><title>",
        &name,
        "</title><style>body{font-family:system-ui,sans-serif;background:#fbfaf7;color:#262522;margin:32px}table{border-collapse:collapse;margin-top:24px}td,th{border:1px solid #d5d1c8;padding:6px 9px;text-align:left}</style><h1>",
        &name,
        "</h1>",
    );
    page.append(svg);
    page.append("<table><thead><tr>");
    page.append(&write_cells(&table.headers, "<th>", "</th>"));
    page.append("</tr></thead><tbody>");
    page.append(&body);
    page.append("</tbody></table>");
    page
}

/// The insights that are noted for a chart. The mean of the numbers is given as text.
pub fn insight_text(title: &str, rows: usize, points: usize, mean: &str) -> (r: String)
    ensures
        r@ == "# "@ + title@ + "\n\n- Rows: "@ + decimal(rows as nat) + "\n- Numeric points: "@
            + decimal(points as nat) + "\n- Mean: "@ + mean@ + "\n"@,
{
    let mut r = concat5(
        "# ",
        title,
        "\n\n- Rows: ",
        &number_text(rows as u64),
        "\n- Numeric points: ",
    );
    r.append(&number_text(points as u64));
    r.append("\n- Mean: ");
    r.append(mean);
    r.append("\n");
    r
}

// ---- visualization ----

/// What a visualization asks for.
#[derive(Debug, PartialEq, Eq)]
pub struct ChartRequest {
    pub input_path: String,
    pub output_type: String,
    pub tool_type: String,
    pub title: String,
}

/// Whether the file that is to be drawn may be one that lists others.
pub fn may_list_files(path: &str) -> (r: bool)
    ensures
        r == finishes_with(lowercase(path@), ".json"@),
{
    ends_with(&to_lowercase(path), ".json")
}

/// The JSON in the file that is to be drawn, where the file may be one that lists others.
/// `contents` is what stands in it, where it could be read.
pub fn chart_list(path: &str, contents: &Option<String>) -> (r: Option<Json>)
    ensures
        r.deep_view() == match contents {
            Some(text) if finishes_with(lowercase(path@), ".json"@) => match parsed_json(text@) {
                Ok(json) => Some(json),
                Err(_) => None,
            },
            _ => None,
        },
{
    match contents {
        Some(text) => if may_list_files(path) {
            match Json::parse(text) {
                Ok(json) => Some(json),
                Err(_) => None,
            }
        } else {
            None
        },
        None => None,
    }
}

/// What a visualization asks for.
pub fn chart_request(arguments: &Json) -> (r: Result<ChartRequest, String>)
    ensures
        match data_file(arguments.deep_view()) {
            None => r is Err && r->Err_0@
                == "rust_data_visualization requires path or json_path"@,
            Some(path) => {
                &&& r is Ok
                &&& r->Ok_0.input_path@ == path
                &&& r->Ok_0.output_type@ == lowercase(
                    arguments.deep_view().text_or("output_type"@, "html"@),
                )
                &&& r->Ok_0.tool_type@ == lowercase(
                    arguments.deep_view().text_or("tool_type"@, "visualization"@),
                )
                &&& r->Ok_0.title@ == arguments.deep_view().text_or(
                    "title"@,
                    "RustPilot data report"@,
                )
            },
        },
{
    match data_path(arguments) {
        Some(input_path) => Ok(
            ChartRequest {
                input_path,
                output_type: to_lowercase(&arguments.text_or("output_type", "html")),
                tool_type: to_lowercase(&arguments.text_or("tool_type", "visualization")),
                title: arguments.text_or("title", "RustPilot data report"),
            },
        ),
        None => Err("rust_data_visualization requires path or json_path".to_owned()),
    }
}

/// The member that is there first.
pub open spec fn either(json: JsonModel, a: Seq<char>, b: Seq<char>) -> Option<JsonModel> {
    match json.get(a) {
        Some(value) => Some(value),
        None => json.get(b),
    }
}

/// The file of an item of a list of charts.
pub open spec fn item_path(item: JsonModel) -> Option<Seq<char>> {
    match either(item, "csvFilePath"@, "path"@) {
        Some(value) => value.as_str(),
        None => item.text("file"@),
    }
}

/// The title of an item of a list of charts.
pub open spec fn item_title(item: JsonModel) -> Seq<char> {
    match either(item, "chartTitle"@, "title"@) {
        Some(value) => match value.as_str() {
            Some(title) => title,
            None => "RustPilot data chart"@,
        },
        None => "RustPilot data chart"@,
    }
}

/// The files of a list of charts, each with its title.
pub open spec fn listed_sources(items: Seq<JsonModel>) -> Seq<(Seq<char>, Seq<char>)>
    decreases items.len(),
{
    if items.len() == 0 {
        Seq::empty()
    } else {
        let head = listed_sources(items.drop_last());
        match item_path(items.last()) {
            Some(path) => head.push((path, item_title(items.last()))),
            None => head,
        }
    }
}

/// How many charts are drawn in one go.
pub const MAX_CHARTS: usize = 16;

/// The files that are drawn: those of the list, or else the file itself.
pub open spec fn chart_sources(
    descriptor: Option<JsonModel>,
    path: Seq<char>,
    title: Seq<char>,
) -> Seq<(Seq<char>, Seq<char>)> {
    let listed = match descriptor {
        Some(JsonModel::Array(items)) => listed_sources(items),
        _ => Seq::empty(),
    };
    if listed.len() == 0 {
        seq![(path, title)]
    } else {
        at_most(listed, MAX_CHARTS as nat)
    }
}

fn get_either<'a>(json: &'a Json, a: &str, b: &str) -> (r: Option<&'a Json>)
    ensures
        match r {
            Some(value) => either(json.deep_view(), a@, b@) == Some(value.deep_view()),
            None => either(json.deep_view(), a@, b@) is None,
        },
{
    match json.get(a) {
        Some(value) => Some(value),
        None => json.get(b),
    }
}

fn source_of(item: &Json) -> (r: Option<(String, String)>)
    ensures
        match r {
            Some((path, title)) => item_path(item.deep_view()) == Some(path@) && title@
                == item_title(item.deep_view()),
            None => item_path(item.deep_view()) is None,
        },
{
    let found = match get_either(item, "csvFilePath", "path") {
        Some(value) => value.as_str(),
        None => item.text("file"),
    };
    match found {
        Some(path) => {
            let title = match get_either(item, "chartTitle", "title") {
                Some(value) => match value.as_str() {
                    Some(title) => title.clone(),
                    None => "RustPilot data chart".to_owned(),
                },
                None => "RustPilot data chart".to_owned(),
            };
            Some((path.clone(), title))
        },
        None => None,
    }
}

/// The files that are drawn. `descriptor` is the JSON in the file, where it holds any.
pub fn visualization_sources(descriptor: &Option<Json>, request: &ChartRequest) -> (r: Vec<
    (String, String),
>)
    ensures
        deep(r@) == chart_sources(descriptor.deep_view(), request.input_path@, request.title@),
{
    let mut sources: Vec<(String, String)> = Vec::new();
    proof {
        assert(deep(sources@) =~= Seq::<(Seq<char>, Seq<char>)>::empty());
    }
    if let Some(Json::Array(items)) = descriptor {
        let ghost models = deep(items@);
        let mut i: usize = 0;
        proof {
            assert(models.take(0) =~= Seq::<JsonModel>::empty());
        }
        while i < items.len()
            invariant
                models == deep(items@),
                i <= items@.len(),
                deep(sources@) == listed_sources(models.take(i as int)),
            decreases items@.len() - i,
        {
            proof {
                assert(models.take(i + 1).drop_last() =~= models.take(i as int));
                assert(models.take(i + 1).last() == items@[i as int].deep_view());
            }
            if let Some(source) = source_of(&items[i]) {
                sources.push(source);
            }
            i += 1;
        }
        proof {
            assert(models.take(models.len() as int) =~= models);
        }
    }
    let ghost listed = deep(sources@);
    proof {
        assert(listed.len() == sources@.len());
    }
    if sources.len() == 0 {
        let source = (request.input_path.clone(), request.title.clone());
        sources.push(source);
        proof {
            assert(deep(sources@) =~= seq![source.deep_view()]);
        }
    } else if sources.len() > MAX_CHARTS {
        sources.truncate(MAX_CHARTS);
        proof {
            assert(deep(sources@) =~= listed.take(MAX_CHARTS as int));
        }
    }
    sources
}

/// The title in the form in which it names a file.
pub open spec fn slug_chars(title: Seq<char>) -> Seq<char> {
    title.map_values(
        |c: char|
            if is_alnum(c) {
                lower(c)
            } else {
                '_'
            },
    )
}

/// The name of the files of a chart, without their ending.
pub open spec fn stem_of(title: Seq<char>, id: Seq<char>) -> Seq<char> {
    trim_set(slug_chars(title), |c: char| c == '_') + "_"@ + id
}

/// The name of the files of a chart, without their ending. The identifier makes it unique.
pub fn chart_stem(title: &str, id: &str) -> (r: String)
    ensures
        r@ == stem_of(title@, id@),
{
    let v = chars_of(title);
    let mut out: Vec<char> = Vec::new();
    let mut i: usize = 0;
    while i < v.len()
        invariant
            v@ == title@,
            i <= v@.len(),
            out@.len() == i,
            forall|k: int| 0 <= k < i ==> #[trigger] out@[k] == slug_chars(title@)[k],
        decreases v@.len() - i,
    {
        let c = v[i];
        if ascii_alnum(c) {
            out.push(ascii_lower(c));
        } else {
            out.push('_');
        }
        i += 1;
    }
    proof {
        assert(out@ =~= slug_chars(title@));
    }
    concat3(&trim_char(&string_of(&out), '_'), "_", id)
}

/// What is reported of a chart.
pub open spec fn chart_json(
    title: Seq<char>,
    chart_path: Seq<char>,
    output_type: Seq<char>,
    insight_path: Option<Seq<char>>,
    rows: nat,
) -> JsonModel {
    JsonModel::Object(
        seq![
            ("title"@, JsonModel::Str(title)),
            ("chart_path"@, JsonModel::Str(chart_path)),
            ("output_type"@, JsonModel::Str(output_type)),
            ("insight_path"@, optional(insight_path)),
            ("rows"@, num(rows)),
        ],
    )
}

/// What is reported of a chart.
pub fn chart_result(
    title: &str,
    chart_path: &str,
    output_type: &str,
    insight_path: &Option<String>,
    rows: usize,
) -> (r: Json)
    ensures
        r.deep_view() == chart_json(
            title@,
            chart_path@,
            output_type@,
            insight_path.deep_view(),
            rows as nat,
        ),
{
    let members = Members::new().with("title", Json::string(title)).with(
        "chart_path",
        Json::string(chart_path),
    ).with("output_type", Json::string(output_type)).with(
        "insight_path",
        Json::string_or_null(insight_path),
    ).with("rows", Json::number(rows as u64));
    proof {
        assert(members.model() =~= chart_json(
            title@,
            chart_path@,
            output_type@,
            insight_path.deep_view(),
            rows as nat,
        )->Object_0);
    }
    members.object()
}

/// The report on the charts.
pub open spec fn charts_json(results: Seq<JsonModel>) -> JsonModel {
    JsonModel::Object(
        seq![
            ("status"@, JsonModel::Str("success"@)),
            ("observation"@, JsonModel::Str("Chart Generated Successful!"@)),
            ("results"@, JsonModel::Array(results)),
        ],
    )
}

/// The report on the charts.
pub fn visualization_report(results: Vec<Json>) -> (r: String)
    ensures
        r@ == shown(pretty_json(charts_json(deep(results@)))),
{
    let ghost wanted = charts_json(deep(results@));
    let members = Members::new().with("status", Json::string("success")).with(
        "observation",
        Json::string("Chart Generated Successful!"),
    ).with("results", Json::Array(results));
    proof {
        assert(members.model() =~= wanted->Object_0);
    }
    truncate_output(&members.object().to_pretty_text())
}

/// The member, or an empty array where there is none.
pub open spec fn member_or_empty(arguments: JsonModel, key: Seq<char>) -> JsonModel {
    match arguments.get(key) {
        Some(value) => value,
        None => JsonModel::Array(Seq::empty()),
    }
}

/// The chart that a call describes.
pub open spec fn specification_json(arguments: JsonModel) -> JsonModel {
    JsonModel::Object(
        seq![
            ("type"@, JsonModel::Str(arguments.text_or("kind"@, "bar"@))),
            ("title"@, JsonModel::Str(arguments.text_or("title"@, "RustPilot chart"@))),
            ("labels"@, member_or_empty(arguments, "labels"@)),
            ("values"@, member_or_empty(arguments, "values"@)),
        ],
    )
}

fn copy_member(arguments: &Json, key: &str) -> (r: Json)
    ensures
        r.deep_view() == member_or_empty(arguments.deep_view(), key@),
{
    match arguments.get(key) {
        Some(value) => value.clone(),
        None => {
            let none: Vec<Json> = Vec::new();
            proof {
                assert(deep(none@) =~= Seq::<JsonModel>::empty());
            }
            Json::Array(none)
        },
    }
}

/// The chart that a call describes.
pub fn chart_specification(arguments: &Json) -> (r: Json)
    ensures
        r.deep_view() == specification_json(arguments.deep_view()),
{
    let members = Members::new().with(
        "type",
        Json::string(&arguments.text_or("kind", "bar")),
    ).with("title", Json::string(&arguments.text_or("title", "RustPilot chart"))).with(
        "labels",
        copy_member(arguments, "labels"),
    ).with("values", copy_member(arguments, "values"));
    proof {
        assert(members.model() =~= specification_json(arguments.deep_view())->Object_0);
    }
    members.object()
}

/// What is shown of a chart that was described.
pub open spec fn preparation_json(specification: JsonModel) -> JsonModel {
    JsonModel::Object(
        seq![
            ("specification"@, specification),
            ("renderer"@, JsonModel::Str("rustpilot_svg_png_html"@)),
        ],
    )
}

/// What is shown of a chart that was described.
pub fn preparation_report(specification: Json) -> (r: String)
    ensures
        r@ == pretty_json(preparation_json(specification.deep_view())),
{
    let ghost wanted = preparation_json(specification.deep_view());
    let members = Members::new().with("specification", specification).with(
        "renderer",
        Json::string("rustpilot_svg_png_html"),
    );
    proof {
        assert(members.model() =~= wanted->Object_0);
    }
    members.object().to_pretty_text()
}

} // verus!
