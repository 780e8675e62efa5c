//! Tables, read from lines of values with commas between them or from JSON.

use vstd::prelude::*;

use crate::deep::{deep, group_deep};
use crate::json::{group_json, Json, JsonModel, Number, NumberModel};
use crate::json_text::{compact_json, parsed_json};
use crate::number::{decimal, number_text, signed_decimal, signed_text};
use crate::text::{
    blank, chars_of, concat2, contains_text, ends_with, finishes_with, is_blank, lines, lines_of,
    lowercase, next_char, split_from, split_on, string_of, to_lowercase, trim, trimmed,
};

verus! {

broadcast use {group_deep, group_json};

// ---- lines ----

/// The values of a line from the place `i` on, behind those that were read. `current` is what
/// was read of the value that is being read.
pub open spec fn csv_from(
    line: Seq<char>,
    i: int,
    values: Seq<Seq<char>>,
    current: Seq<char>,
    quoted: bool,
) -> Seq<Seq<char>>
    decreases line.len() - i,
{
    if i < 0 || i >= line.len() {
        values.push(trimmed(current))
    } else if line[i] == '"' {
        if quoted && i + 1 < line.len() && line[i + 1] == '"' {
            csv_from(line, i + 2, values, current.push('"'), quoted)
        } else {
            csv_from(line, i + 1, values, current, !quoted)
        }
    } else if line[i] == ',' && !quoted {
        csv_from(line, i + 1, values.push(trimmed(current)), Seq::empty(), quoted)
    } else {
        csv_from(line, i + 1, values, current.push(line[i]), quoted)
    }
}

/// The values of a line: what stands between commas outside quotes, without the white space
/// around it. Two quotes inside quotes are one.
pub open spec fn csv_values(line: Seq<char>) -> Seq<Seq<char>> {
    csv_from(line, 0, Seq::empty(), Seq::empty(), false)
}

/// The values of a line.
pub fn parse_csv_line(line: &str) -> (r: Vec<String>)
    ensures
        deep(r@) == csv_values(line@),
{
    let v = chars_of(line);
    let n = v.len();
    let mut values: Vec<String> = Vec::new();
    let mut current: Vec<char> = Vec::new();
    let mut quoted = false;
    let mut i: usize = 0;
    proof {
        assert(deep(values@) =~= Seq::<Seq<char>>::empty());
    }
    while i < n
        invariant
            v@ == line@,
            n == v@.len(),
            i <= n,
            csv_from(line@, i as int, deep(values@), current@, quoted) == csv_values(line@),
        decreases n - i,
    {
        let c = v[i];
        if c == '"' && quoted && i < n - 1 && v[i + 1] == '"' {
            current.push('"');
            i += 2;
        } else if c == '"' {
            quoted = !quoted;
            i += 1;
        } else if c == ',' && !quoted {
            values.push(trim(&string_of(&current)));
            current = Vec::new();
            proof {
                assert(current@ =~= Seq::<char>::empty());
            }
            i += 1;
        } else {
            current.push(c);
            i += 1;
        }
    }
    values.push(trim(&string_of(&current)));
    values
}

/// The parts without the white space around each.
pub open spec fn all_trimmed(parts: Seq<Seq<char>>) -> Seq<Seq<char>> {
    parts.map_values(|part: Seq<char>| trimmed(part))
}

proof fn lemma_plain_csv(
    line: Seq<char>,
    start: int,
    i: int,
    values: Seq<Seq<char>>,
)
    requires
        forall|k: int| 0 <= k < line.len() ==> line[k] != '"',
        0 <= start <= i <= line.len(),
        forall|k: int| start <= k < i ==> line[k] != ',',
    ensures
        csv_from(line, i, values, line.subrange(start, i), false) == values + all_trimmed(
            split_from(line, ',', start),
        ),
    decreases line.len() - i,
{
    crate::text::lemma_next_char(line, ',', start);
    let end = next_char(line, ',', start);
    if i >= line.len() {
        assert(end == line.len());
        assert(values + all_trimmed(split_from(line, ',', start)) =~= values.push(
            trimmed(line.subrange(start, i)),
        ));
    } else if line[i] == ',' {
        assert(end == i);
        lemma_plain_csv(line, i + 1, i + 1, values.push(trimmed(line.subrange(start, i))));
        assert(line.subrange(i + 1, i + 1) =~= Seq::<char>::empty());
        assert(values + all_trimmed(split_from(line, ',', start)) =~= values.push(
            trimmed(line.subrange(start, i)),
        ) + all_trimmed(split_from(line, ',', i + 1)));
    } else {
        assert(line.subrange(start, i).push(line[i]) =~= line.subrange(start, i + 1));
        lemma_plain_csv(line, start, i + 1, values);
    }
}

/// The values of a line without quotes are its parts between commas, without the white space
/// around each.
pub proof fn law_plain_lines_are_split_at_commas(line: Seq<char>)
    requires
        !line.contains('"'),
    ensures
        csv_values(line) == all_trimmed(split_on(line, ',')),
{
    assert forall|k: int| 0 <= k < line.len() implies line[k] != '"' by {
        if line[k] == '"' {
            assert(line.contains('"'));
        }
    }
    lemma_plain_csv(line, 0, 0, Seq::empty());
    assert(line.subrange(0, 0) =~= Seq::<char>::empty());
    assert(Seq::<Seq<char>>::empty() + all_trimmed(split_from(line, ',', 0)) =~= all_trimmed(
        split_from(line, ',', 0),
    ));
}

// ---- cells ----

/// A JSON value as the text of a cell.
pub open spec fn cell_text(value: JsonModel) -> Seq<char> {
    match value {
        JsonModel::Null => Seq::empty(),
        JsonModel::Str(text) => text,
        JsonModel::Bool(b) => if b {
            "true"@
        } else {
            "false"@
        },
        JsonModel::Number(NumberModel::Unsigned(n)) => decimal(n as nat),
        JsonModel::Number(NumberModel::Negative(n)) => signed_decimal(n as int),
        _ => compact_json(value),
    }
}

/// A JSON value as the text of a cell.
pub fn value_to_cell(value: &Json) -> (r: String)
    ensures
        r@ == cell_text(value.deep_view()),
{
    match value {
        Json::Null => String::new(),
        Json::Str(text) => text.clone(),
        Json::Bool(b) => if *b {
            "true".to_owned()
        } else {
            "false".to_owned()
        },
        Json::Number(Number::Unsigned(n)) => number_text(*n),
        Json::Number(Number::Negative(n)) => signed_text(*n),
        _ => value.to_text(),
    }
}

// ---- tables ----

/// A table: the names of its columns, and its rows.
#[derive(Debug, PartialEq, Eq)]
pub struct Table {
    pub headers: Vec<String>,
    pub rows: Vec<Vec<String>>,
}

pub struct TableModel {
    pub headers: Seq<Seq<char>>,
    pub rows: Seq<Seq<Seq<char>>>,
}

impl DeepView for Table {
    type V = TableModel;

    open spec fn deep_view(&self) -> TableModel {
        TableModel { headers: deep(self.headers@), rows: rows_of(self.rows@) }
    }
}

/// What rows hold.
pub open spec fn rows_of(rows: Seq<Vec<String>>) -> Seq<Seq<Seq<char>>> {
    Seq::new(rows.len(), |i: int| deep(rows[i]@))
}

/// The rows of a JSON text: the items of its member `data`, or of itself.
pub open spec fn json_rows(value: JsonModel) -> Seq<JsonModel> {
    match value.items("data"@) {
        Some(items) => items,
        None => match value {
            JsonModel::Array(items) => items,
            _ => Seq::empty(),
        },
    }
}

/// The names with those of the members that are not among them yet.
pub open spec fn add_names(
    names: Seq<Seq<char>>,
    members: Seq<(Seq<char>, JsonModel)>,
) -> Seq<Seq<char>>
    decreases members.len(),
{
    if members.len() == 0 {
        names
    } else {
        let head = add_names(names, members.drop_last());
        if head.contains(members.last().0) {
            head
        } else {
            head.push(members.last().0)
        }
    }
}

/// The names of the members of the objects among the rows, each once, in the order in which
/// they come.
pub open spec fn member_names(rows: Seq<JsonModel>) -> Seq<Seq<char>>
    decreases rows.len(),
{
    if rows.len() == 0 {
        Seq::empty()
    } else {
        match rows.last() {
            JsonModel::Object(members) => add_names(member_names(rows.drop_last()), members),
            _ => member_names(rows.drop_last()),
        }
    }
}

/// The names of the columns. Rows without an object among them have one column.
pub open spec fn column_names(rows: Seq<JsonModel>) -> Seq<Seq<char>> {
    let names = member_names(rows);
    if names.len() == 0 && rows.len() > 0 {
        names.push("value"@)
    } else {
        names
    }
}

/// The cells of a row: one for each column, empty where the row has no such member.
pub open spec fn row_cells(row: JsonModel, names: Seq<Seq<char>>) -> Seq<Seq<char>> {
    match row {
        JsonModel::Object(_) => Seq::new(
            names.len(),
            |i: int|
                match row.get(names[i]) {
                    Some(value) => cell_text(value),
                    None => Seq::empty(),
                },
        ),
        _ => seq![cell_text(row)],
    }
}

/// The table that a JSON value holds.
pub open spec fn json_table(value: JsonModel) -> TableModel {
    let rows = json_rows(value);
    let names = column_names(rows);
    TableModel {
        headers: names,
        rows: Seq::new(rows.len(), |i: int| row_cells(rows[i], names)),
    }
}

/// The lines that are not blank.
pub open spec fn written_lines(all: Seq<Seq<char>>) -> Seq<Seq<char>>
    decreases all.len(),
{
    if all.len() == 0 {
        Seq::empty()
    } else if is_blank(all.last()) {
        written_lines(all.drop_last())
    } else {
        written_lines(all.drop_last()).push(all.last())
    }
}

/// The first line; an empty one where there is none.
pub open spec fn first_line(all: Seq<Seq<char>>) -> Seq<char> {
    if all.len() > 0 {
        all[0]
    } else {
        Seq::empty()
    }
}

/// Whether every text is empty.
pub open spec fn all_empty(texts: Seq<Seq<char>>) -> bool {
    forall|i: int| 0 <= i < texts.len() ==> (#[trigger] texts[i]).len() == 0
}

/// The table in lines of values; none where the first line names no column.
pub open spec fn csv_table(contents: Seq<char>) -> Option<TableModel> {
    let all = written_lines(lines_of(contents));
    let headers = csv_values(first_line(all));
    if all_empty(headers) {
        None
    } else {
        Some(
            TableModel {
                headers,
                rows: Seq::new((all.len() - 1) as nat, |i: int| csv_values(all[i + 1])),
            },
        )
    }
}

fn add_member_names(names: Vec<String>, members: &Vec<(String, Json)>) -> (r: Vec<String>)
    ensures
        deep(r@) == add_names(deep(names@), deep(members@)),
{
    let ghost models = deep(members@);
    let ghost first = deep(names@);
    let mut r = names;
    let mut i: usize = 0;
    proof {
        assert(models.take(0) =~= Seq::<(Seq<char>, JsonModel)>::empty());
    }
    while i < members.len()
        invariant
            models == deep(members@),
            i <= members@.len(),
            deep(r@) == add_names(first, models.take(i as int)),
        decreases members@.len() - i,
    {
        proof {
            assert(models.take(i + 1).drop_last() =~= models.take(i as int));
            assert(models.take(i + 1).last() == members@[i as int].deep_view());
        }
        if !contains_text(&r, &members[i].0) {
            r.push(members[i].0.clone());
        }
        i += 1;
    }
    proof {
        assert(models.take(models.len() as int) =~= models);
    }
    r
}

fn name_columns(rows: &Vec<Json>) -> (r: Vec<String>)
    ensures
        deep(r@) == column_names(deep(rows@)),
{
    let ghost models = deep(rows@);
    let mut names: Vec<String> = Vec::new();
    let mut i: usize = 0;
    proof {
        assert(models.take(0) =~= Seq::<JsonModel>::empty());
        assert(deep(names@) =~= Seq::<Seq<char>>::empty());
    }
    while i < rows.len()
        invariant
            models == deep(rows@),
            i <= rows@.len(),
            deep(names@) == member_names(models.take(i as int)),
        decreases rows@.len() - i,
    {
        proof {
            assert(models.take(i + 1).drop_last() =~= models.take(i as int));
            assert(models.take(i + 1).last() == rows@[i as int].deep_view());
        }
        if let Json::Object(members) = &rows[i] {
            names = add_member_names(names, members);
        }
        i += 1;
    }
    proof {
        assert(models.take(models.len() as int) =~= models);
        assert(deep(names@).len() == names@.len());
        assert(models.len() == rows@.len());
    }
    if names.len() == 0 && rows.len() > 0 {
        names.push("value".to_owned());
    }
    names
}

fn cells_of(row: &Json, names: &Vec<String>) -> (r: Vec<String>)
    ensures
        deep(r@) == row_cells(row.deep_view(), deep(names@)),
{
    let mut r: Vec<String> = Vec::new();
    let ghost wanted = row_cells(row.deep_view(), deep(names@));
    if let Json::Object(_) = row {
        let mut i: usize = 0;
        while i < names.len()
            invariant
                row is Object,
                wanted == row_cells(row.deep_view(), deep(names@)),
                i <= names@.len(),
                r@.len() == i,
                forall|k: int| 0 <= k < i ==> #[trigger] deep(r@)[k] == wanted[k],
            decreases names@.len() - i,
        {
            proof {
                assert(row.deep_view() is Object);
                assert(deep(names@)[i as int] == names@[i as int]@);
            }
            let cell = match row.get(&names[i]) {
                Some(value) => value_to_cell(value),
                None => String::new(),
            };
            let ghost before = deep(r@);
            r.push(cell);
            proof {
                assert(deep(r@) == before.push(cell@));
            }
            i += 1;
        }
        proof {
            assert(deep(r@) =~= wanted);
        }
    } else {
        r.push(value_to_cell(row));
        proof {
            assert(!(row.deep_view() is Object));
            assert(deep(r@) =~= wanted);
        }
    }
    r
}

/// The table that a JSON value holds.
pub fn table_from_json(value: &Json) -> (r: Table)
    ensures
        r.deep_view() == json_table(value.deep_view()),
{
    let none: Vec<Json> = Vec::new();
    let rows: &Vec<Json> = match value.items("data") {
        Some(items) => items,
        None => match value {
            Json::Array(items) => items,
            _ => &none,
        },
    };
    proof {
        assert(deep(none@) =~= Seq::<JsonModel>::empty());
        assert(deep(rows@) == json_rows(value.deep_view()));
    }
    let names = name_columns(rows);
    let ghost wanted = json_table(value.deep_view());
    let mut cells: Vec<Vec<String>> = Vec::new();
    let mut i: usize = 0;
    while i < rows.len()
        invariant
            deep(rows@) == json_rows(value.deep_view()),
            deep(names@) == column_names(deep(rows@)),
            wanted == json_table(value.deep_view()),
            i <= rows@.len(),
            cells@.len() == i,
            forall|k: int| 0 <= k < i ==> #[trigger] rows_of(cells@)[k] == wanted.rows[k],
        decreases rows@.len() - i,
    {
        proof {
            assert(deep(rows@)[i as int] == rows@[i as int].deep_view());
        }
        let row = cells_of(&rows[i], &names);
        let ghost before = rows_of(cells@);
        cells.push(row);
        proof {
            assert forall|k: int| 0 <= k < i + 1 implies #[trigger] rows_of(cells@)[k]
                == wanted.rows[k] by {
                if k < i {
                    assert(rows_of(cells@)[k] == before[k]);
                }
            }
        }
        i += 1;
    }
    proof {
        assert(rows_of(cells@) =~= wanted.rows);
    }
    Table { headers: names, rows: cells }
}

/// The table in lines of values.
pub fn table_from_csv(contents: &str) -> (r: Result<Table, String>)
    ensures
        match csv_table(contents@) {
            Some(table) => r is Ok && r->Ok_0.deep_view() == table,
            None => r is Err && r->Err_0@ == "CSV data has no header row."@,
        },
{
    let all = lines(contents);
    let ghost models = deep(all@);
    let mut written: Vec<String> = Vec::new();
    let mut i: usize = 0;
    proof {
        assert(models.take(0) =~= Seq::<Seq<char>>::empty());
        assert(deep(written@) =~= Seq::<Seq<char>>::empty());
    }
    while i < all.len()
        invariant
            models == deep(all@),
            i <= all@.len(),
            deep(written@) == written_lines(models.take(i as int)),
        decreases all@.len() - i,
    {
        proof {
            assert(models.take(i + 1).drop_last() =~= models.take(i as int));
            assert(models.take(i + 1).last() == all@[i as int]@);
        }
        if !blank(&all[i]) {
            written.push(all[i].clone());
        }
        i += 1;
    }
    proof {
        assert(models.take(models.len() as int) =~= models);
        assert(deep(written@).len() == written@.len());
    }
    let headers = if written.len() > 0 {
        proof {
            assert(deep(written@)[0] == written@[0]@);
        }
        parse_csv_line(&written[0])
    } else {
        let none = String::new();
        parse_csv_line(&none)
    };
    let ghost names = deep(headers@);
    let mut named = false;
    let mut k: usize = 0;
    while k < headers.len()
        invariant
            names == deep(headers@),
            k <= headers@.len(),
            named ==> exists|j: int| 0 <= j < names.len() && (#[trigger] names[j]).len() != 0,
            !named ==> forall|j: int| 0 <= j < k ==> (#[trigger] names[j]).len() == 0,
        decreases headers@.len() - k,
    {
        proof {
            assert(names[k as int] == headers@[k as int]@);
        }
        if !headers[k].as_str().is_empty() {
            named = true;
        }
        k += 1;
    }
    if !named {
        return Err("CSV data has no header row.".to_owned());
    }
    proof {
        if written@.len() == 0 {
            assert(trimmed(Seq::<char>::empty()) =~= Seq::<char>::empty());
            assert(names =~= seq![Seq::<char>::empty()]);
        }
    }
    proof {
        assert(!all_empty(names));
        assert(names == csv_values(first_line(written_lines(lines_of(contents@)))));
    }
    let ghost wanted = csv_table(contents@)->0;
    let mut rows: Vec<Vec<String>> = Vec::new();
    let mut i: usize = 1;
    while i < written.len()
        invariant
            1 <= i <= written@.len(),
            deep(written@) == written_lines(lines_of(contents@)),
            csv_table(contents@) == Some(wanted),
            rows@.len() == i - 1,
            forall|k: int| 0 <= k < i - 1 ==> #[trigger] rows_of(rows@)[k] == wanted.rows[k],
        decreases written@.len() - i,
    {
        proof {
            assert(deep(written@)[i as int] == written@[i as int]@);
        }
        let row = parse_csv_line(&written[i]);
        let ghost before = rows_of(rows@);
        rows.push(row);
        proof {
            assert forall|k: int| 0 <= k < i implies #[trigger] rows_of(rows@)[k]
                == wanted.rows[k] by {
                if k < i - 1 {
                    assert(rows_of(rows@)[k] == before[k]);
                }
            }
        }
        i += 1;
    }
    proof {
        assert(rows_of(rows@) =~= wanted.rows);
    }
    Ok(Table { headers, rows })
}

/// The table in the contents of a file; what they are is told by the name of the file.
pub open spec fn table_of(path: Seq<char>, contents: Seq<char>) -> Result<TableModel, Seq<char>> {
    if finishes_with(lowercase(path), ".json"@) {
        match parsed_json(contents) {
            Ok(value) => Ok(json_table(value)),
            Err(error) => Err("Unable to parse JSON data: "@ + error),
        }
    } else {
        match csv_table(contents) {
            Some(table) => Ok(table),
            None => Err("CSV data has no header row."@),
        }
    }
}

/// The table in the contents of a file.
pub fn table_from_contents(path: &str, contents: &str) -> (r: Result<Table, String>)
    ensures
        match table_of(path@, contents@) {
            Ok(table) => r is Ok && r->Ok_0.deep_view() == table,
            Err(error) => r is Err && r->Err_0@ == error,
        },
{
    if ends_with(&to_lowercase(path), ".json") {
        return match Json::parse(contents) {
            Ok(value) => Ok(table_from_json(&value)),
            Err(error) => Err(concat2("Unable to parse JSON data: ", &error)),
        };
    }
    table_from_csv(contents)
}

/// Every row of a table of JSON objects has a cell for each column.
pub proof fn law_rows_of_objects_are_complete(value: JsonModel, i: int)
    requires
        0 <= i < json_rows(value).len(),
        json_rows(value)[i] is Object,
    ensures
        json_table(value).rows[i].len() == json_table(value).headers.len(),
        json_table(value).rows.len() == json_rows(value).len(),
{
}

} // verus!
