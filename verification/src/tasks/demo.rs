//! Runs without a model: which tools a request needs, and how their results are told.

use vstd::prelude::*;

use crate::deep::{deep, group_deep};
use crate::json::{group_json, num, Json, JsonModel, Members};
use crate::number::{decimal, number_text};
use crate::tasks::records::{ResultModel, ToolResult};
use crate::text::{
    begins_with, chars_of, concat2, concat3, contains, has_part, join, joined, lines, lines_of,
    lowered, same, split_words, starts_with, substring, to_ascii_lower, trim_set, trim_set_end,
    trim_set_start, words,
};

verus! {

broadcast use {group_deep, group_json};

// ---- what a request needs ----

/// Whether a request asks what can be done.
pub open spec fn asks_for_capabilities(lower: Seq<char>) -> bool {
    has_part(lower, "what can you do"@) || has_part(lower, "what are you able to do"@) || has_part(
        lower,
        "capabilities"@,
    ) || has_part(lower, "help"@)
}

pub open spec fn asks_for_time(lower: Seq<char>) -> bool {
    has_part(lower, "time"@) || has_part(lower, "date"@) || has_part(lower, "clock"@)
}

pub open spec fn asks_for_files(lower: Seq<char>) -> bool {
    has_part(lower, "file"@) || has_part(lower, "files"@) || has_part(lower, "folder"@) || has_part(
        lower,
        "directory"@,
    ) || has_part(lower, "project"@) || has_part(lower, "repository"@) || has_part(lower, "repo"@)
        || has_part(lower, "code"@)
}

pub open spec fn asks_for_search(lower: Seq<char>) -> bool {
    has_part(lower, "find"@) || has_part(lower, "search"@) || has_part(lower, "research"@)
        || has_part(lower, "web"@) || has_part(lower, "lookup"@)
}

pub open spec fn asks_for_shell(lower: Seq<char>) -> bool {
    has_part(lower, "shell"@) || has_part(lower, "terminal"@) || has_part(lower, "command"@)
        || has_part(lower, "run command"@)
}

pub open spec fn asks_for_writing(lower: Seq<char>) -> bool {
    has_part(lower, "write"@) || has_part(lower, "create file"@) || has_part(lower, "save"@)
}

pub fn demo_capability_request(prompt: &str) -> (r: bool)
    ensures
        r == asks_for_capabilities(lowered(prompt@)),
{
    let lower = to_ascii_lower(prompt);
    contains(&lower, "what can you do") || contains(&lower, "what are you able to do")
        || contains(&lower, "capabilities") || contains(&lower, "help")
}

pub fn demo_requested_time(prompt: &str) -> (r: bool)
    ensures
        r == asks_for_time(lowered(prompt@)),
{
    let lower = to_ascii_lower(prompt);
    contains(&lower, "time") || contains(&lower, "date") || contains(&lower, "clock")
}

pub fn demo_requested_files(prompt: &str) -> (r: bool)
    ensures
        r == asks_for_files(lowered(prompt@)),
{
    let lower = to_ascii_lower(prompt);
    contains(&lower, "file") || contains(&lower, "files") || contains(&lower, "folder")
        || contains(&lower, "directory") || contains(&lower, "project") || contains(
        &lower,
        "repository",
    ) || contains(&lower, "repo") || contains(&lower, "code")
}

pub fn demo_requested_search(prompt: &str) -> (r: bool)
    ensures
        r == asks_for_search(lowered(prompt@)),
{
    let lower = to_ascii_lower(prompt);
    contains(&lower, "find") || contains(&lower, "search") || contains(&lower, "research")
        || contains(&lower, "web") || contains(&lower, "lookup")
}

pub fn demo_requested_shell(prompt: &str) -> (r: bool)
    ensures
        r == asks_for_shell(lowered(prompt@)),
{
    let lower = to_ascii_lower(prompt);
    contains(&lower, "shell") || contains(&lower, "terminal") || contains(&lower, "command")
        || contains(&lower, "run command")
}

pub fn demo_requested_write(prompt: &str) -> (r: bool)
    ensures
        r == asks_for_writing(lowered(prompt@)),
{
    let lower = to_ascii_lower(prompt);
    contains(&lower, "write") || contains(&lower, "create file") || contains(&lower, "save")
}

/// A sign that may stand behind an address and does not belong to it.
pub open spec fn is_sign(c: char) -> bool {
    c == ',' || c == '.' || c == ';' || c == '!' || c == '?'
}

/// Whether a word is an address.
pub open spec fn is_address(word: Seq<char>) -> bool {
    begins_with(word, "http://"@) || begins_with(word, "https://"@)
}

/// The first address among the words, without the signs around it.
pub open spec fn first_address(all: Seq<Seq<char>>) -> Option<Seq<char>>
    decreases all.len(),
{
    if all.len() == 0 {
        None
    } else if is_address(all.first()) {
        let url = trim_set(all.first(), |c: char| is_sign(c));
        if url.len() == 0 {
            None
        } else {
            Some(url)
        }
    } else {
        first_address(all.drop_first())
    }
}

fn sign(c: char) -> (r: bool)
    ensures
        r == is_sign(c),
{
    c == ',' || c == '.' || c == ';' || c == '!' || c == '?'
}

fn trim_signs(s: &str) -> (r: String)
    ensures
        r@ == trim_set(s@, |c: char| is_sign(c)),
{
    let v = chars_of(s);
    let ghost set = |c: char| is_sign(c);
    let mut a: usize = 0;
    proof {
        assert(v@.skip(0) =~= v@);
    }
    while a < v.len() && sign(v[a])
        invariant
            a <= v@.len(),
            set == (|c: char| is_sign(c)),
            trim_set_start(v@.skip(a as int), set) == trim_set_start(v@, set),
        decreases v@.len() - a,
    {
        proof {
            assert(v@.skip(a as int).drop_first() =~= v@.skip(a + 1));
            assert(v@.skip(a as int).first() == v@[a as int]);
        }
        a += 1;
    }
    proof {
        if a < v@.len() {
            assert(v@.skip(a as int).first() == v@[a as int]);
        }
        assert(trim_set_start(v@, set) == v@.skip(a as int));
        assert(v@.skip(a as int) =~= v@.subrange(a as int, v@.len() as int));
    }
    let mut b: usize = v.len();
    while b > a && sign(v[b - 1])
        invariant
            a <= b <= v@.len(),
            set == (|c: char| is_sign(c)),
            trim_set_end(v@.subrange(a as int, b as int), set) == trim_set(v@, set),
        decreases b,
    {
        proof {
            assert(v@.subrange(a as int, b as int).drop_last() =~= v@.subrange(a as int, b - 1));
            assert(v@.subrange(a as int, b as int).last() == v@[b - 1]);
        }
        b -= 1;
    }
    proof {
        if b > a {
            assert(v@.subrange(a as int, b as int).last() == v@[b - 1]);
        }
    }
    substring(&v, a, b)
}

/// The first address in a request.
pub fn demo_first_url(prompt: &str) -> (r: Option<String>)
    ensures
        r.deep_view() == first_address(words(prompt@)),
{
    let all = split_words(prompt);
    let ghost models = deep(all@);
    let mut i: usize = 0;
    proof {
        assert(models.skip(0) =~= models);
    }
    while i < all.len()
        invariant
            models == deep(all@),
            models == words(prompt@),
            i <= all@.len(),
            first_address(models) == first_address(models.skip(i as int)),
        decreases all@.len() - i,
    {
        proof {
            assert(models.skip(i as int).first() == all@[i as int]@);
            assert(models.skip(i as int).drop_first() =~= models.skip(i + 1));
        }
        if starts_with(&all[i], "http://") || starts_with(&all[i], "https://") {
            let url = trim_signs(&all[i]);
            if url.as_str().is_empty() {
                return None;
            }
            return Some(url);
        }
        i += 1;
    }
    None
}

/// A call that lists the directory.
pub open spec fn list_call() -> (Seq<char>, JsonModel) {
    (
        "rust_files"@,
        JsonModel::Object(
            seq![
                ("operation"@, JsonModel::Str("list"@)),
                ("path"@, JsonModel::Str("."@)),
            ],
        ),
    )
}

pub open spec fn search_call(prompt: Seq<char>) -> (Seq<char>, JsonModel) {
    (
        "rust_web_search"@,
        JsonModel::Object(
            seq![
                ("query"@, JsonModel::Str(prompt)),
                ("num_results"@, num(5)),
                ("fetch_content"@, JsonModel::Bool(false)),
            ],
        ),
    )
}

pub open spec fn write_call() -> (Seq<char>, JsonModel) {
    (
        "rust_files"@,
        JsonModel::Object(
            seq![
                ("operation"@, JsonModel::Str("write"@)),
                ("path"@, JsonModel::Str("rustpilot-demo.txt"@)),
                ("content"@, JsonModel::Str("Created by RustPilot Demo mode."@)),
            ],
        ),
    )
}

/// A call with one argument.
pub open spec fn simple_call(
    name: Seq<char>,
    key: Seq<char>,
    value: Seq<char>,
) -> (Seq<char>, JsonModel) {
    (name, JsonModel::Object(seq![(key, JsonModel::Str(value))]))
}

/// The calls with one more, where it is wanted.
pub open spec fn and_call(
    calls: Seq<(Seq<char>, JsonModel)>,
    wanted: bool,
    call: (Seq<char>, JsonModel),
) -> Seq<(Seq<char>, JsonModel)> {
    if wanted {
        calls.push(call)
    } else {
        calls
    }
}

/// The tools that a request needs, in the order in which they are called.
pub open spec fn needed_calls(prompt: Seq<char>) -> Seq<(Seq<char>, JsonModel)> {
    let lower = lowered(prompt);
    let url = first_address(words(prompt));
    let none: Seq<(Seq<char>, JsonModel)> = Seq::empty();
    if asks_for_capabilities(lower) {
        none
    } else {
        let time = and_call(
            none,
            asks_for_time(lower),
            simple_call("rust_clock"@, "format"@, "unix_millis"@),
        );
        let files = and_call(time, asks_for_files(lower), list_call());
        let page = match url {
            Some(url) => files.push(simple_call("rust_http"@, "url"@, url)),
            None => files,
        };
        let search = and_call(page, asks_for_search(lower), search_call(prompt));
        let shell = and_call(
            search,
            asks_for_shell(lower),
            simple_call("rust_shell"@, "command"@, "echo RustPilot demo shell request"@),
        );
        let all = and_call(shell, asks_for_writing(lower), write_call());
        if all.len() == 0 && has_part(lower, "inspect"@) {
            all.push(list_call())
        } else {
            all
        }
    }
}

fn make_list_call() -> (r: (String, Json))
    ensures
        r.deep_view() == list_call(),
{
    let members = Members::new().with("operation", Json::string("list")).with(
        "path",
        Json::string("."),
    );
    proof {
        assert(members.model() =~= list_call().1->Object_0);
    }
    ("rust_files".to_owned(), members.object())
}

fn make_search_call(prompt: &str) -> (r: (String, Json))
    ensures
        r.deep_view() == search_call(prompt@),
{
    let members = Members::new().with("query", Json::string(prompt)).with(
        "num_results",
        Json::number(5),
    ).with("fetch_content", Json::Bool(false));
    proof {
        assert(members.model() =~= search_call(prompt@).1->Object_0);
    }
    ("rust_web_search".to_owned(), members.object())
}

fn make_write_call() -> (r: (String, Json))
    ensures
        r.deep_view() == write_call(),
{
    let members = Members::new().with("operation", Json::string("write")).with(
        "path",
        Json::string("rustpilot-demo.txt"),
    ).with("content", Json::string("Created by RustPilot Demo mode."));
    proof {
        assert(members.model() =~= write_call().1->Object_0);
    }
    ("rust_files".to_owned(), members.object())
}

fn make_simple_call(name: &str, key: &str, value: &str) -> (r: (String, Json))
    ensures
        r.deep_view() == simple_call(name@, key@, value@),
{
    (name.to_owned(), Json::object1(key, Json::string(value)))
}

/// The tools that a request needs, in the order in which they are called.
pub fn demo_tool_calls(prompt: &str) -> (r: Vec<(String, Json)>)
    ensures
        deep(r@) == needed_calls(prompt@),
{
    let mut calls: Vec<(String, Json)> = Vec::new();
    proof {
        assert(deep(calls@) =~= Seq::<(Seq<char>, JsonModel)>::empty());
    }
    if demo_capability_request(prompt) {
        return calls;
    }
    if demo_requested_time(prompt) {
        calls.push(make_simple_call("rust_clock", "format", "unix_millis"));
    }
    if demo_requested_files(prompt) {
        calls.push(make_list_call());
    }
    if let Some(url) = demo_first_url(prompt) {
        calls.push(make_simple_call("rust_http", "url", &url));
    }
    if demo_requested_search(prompt) {
        calls.push(make_search_call(prompt));
    }
    if demo_requested_shell(prompt) {
        calls.push(
            make_simple_call("rust_shell", "command", "echo RustPilot demo shell request"),
        );
    }
    if demo_requested_write(prompt) {
        calls.push(make_write_call());
    }
    proof {
        assert(deep(calls@).len() == calls@.len());
    }
    if calls.len() == 0 && contains(&to_ascii_lower(prompt), "inspect") {
        calls.push(make_list_call());
    }
    calls
}

// ---- how results are told ----

/// The first line with the beginning.
pub open spec fn line_with(all: Seq<Seq<char>>, start: Seq<char>) -> Option<Seq<char>>
    decreases all.len(),
{
    if all.len() == 0 {
        None
    } else if begins_with(all.first(), start) {
        Some(all.first())
    } else {
        line_with(all.drop_first(), start)
    }
}

/// How many lines tell of a file or of a directory.
pub open spec fn listed_count(all: Seq<Seq<char>>) -> nat
    decreases all.len(),
{
    if all.len() == 0 {
        0
    } else {
        listed_count(all.drop_last()) + (if begins_with(all.last(), "file"@) || begins_with(
            all.last(),
            "dir "@,
        ) {
            1nat
        } else {
            0nat
        })
    }
}

/// What is told of the output of a tool.
pub open spec fn told(name: Seq<char>, output: Seq<char>) -> Seq<char> {
    let all = lines_of(output);
    if name == "rust_clock"@ {
        "Read the local time. The raw value is available in Rust Trace."@
    } else if name == "rust_files"@ && line_with(all, "Wrote file: "@) is Some {
        line_with(all, "Wrote file: "@)->0
    } else if name == "rust_files"@ {
        "Inspected the workspace and found "@ + decimal(listed_count(all))
            + " files and directories. The full list is in Rust Trace."@
    } else if name == "rust_shell"@ {
        "The command completed with exit code "@ + (match line_with(all, "exit_code: "@) {
            Some(line) => line.skip(11),
            None => "unknown"@,
        }) + "."@
    } else if name == "rust_http"@ {
        "Completed the network request ("@ + (if all.len() > 0 {
            all[0]
        } else {
            "HTTP response received"@
        }) + "). The response body is in Rust Trace."@
    } else if name == "rust_web_search"@ {
        "Completed the web search. Candidate sources are available in Rust Trace for verification."@
    } else {
        name + " returned a result and it passed the basic verification."@
    }
}

fn find_line(all: &Vec<String>, start: &str) -> (r: Option<String>)
    ensures
        r.deep_view() == line_with(deep(all@), start@),
{
    let ghost models = deep(all@);
    let mut i: usize = 0;
    proof {
        assert(models.skip(0) =~= models);
    }
    while i < all.len()
        invariant
            models == deep(all@),
            i <= all@.len(),
            line_with(models, start@) == line_with(models.skip(i as int), start@),
        decreases all@.len() - i,
    {
        proof {
            assert(models.skip(i as int).first() == all@[i as int]@);
            assert(models.skip(i as int).drop_first() =~= models.skip(i + 1));
        }
        if starts_with(&all[i], start) {
            return Some(all[i].clone());
        }
        i += 1;
    }
    None
}

proof fn lemma_line_begins(all: Seq<Seq<char>>, start: Seq<char>)
    ensures
        line_with(all, start) is Some ==> begins_with(line_with(all, start)->0, start),
    decreases all.len(),
{
    if all.len() > 0 && !begins_with(all.first(), start) {
        lemma_line_begins(all.drop_first(), start);
    }
}

fn count_listed(all: &Vec<String>) -> (r: usize)
    ensures
        r == listed_count(deep(all@)),
{
    let ghost models = deep(all@);
    let n = all.len();
    let mut count: usize = 0;
    let mut i: usize = 0;
    proof {
        assert(models.take(0) =~= Seq::<Seq<char>>::empty());
    }
    while i < n
        invariant
            models == deep(all@),
            n == all@.len(),
            i <= n,
            count <= i,
            count == listed_count(models.take(i as int)),
        decreases n - i,
    {
        proof {
            assert(models.take(i + 1).drop_last() =~= models.take(i as int));
            assert(models.take(i + 1).last() == all@[i as int]@);
        }
        if starts_with(&all[i], "file") || starts_with(&all[i], "dir ") {
            count += 1;
        }
        i += 1;
    }
    proof {
        assert(models.take(models.len() as int) =~= models);
    }
    count
}

/// What is told of the output of a tool.
pub fn demo_result_summary(name: &str, output: &str) -> (r: String)
    ensures
        r@ == told(name@, output@),
{
    let all = lines(output);
    if same(name, "rust_clock") {
        return "Read the local time. The raw value is available in Rust Trace.".to_owned();
    }
    if same(name, "rust_files") {
        if let Some(line) = find_line(&all, "Wrote file: ") {
            return line;
        }
        return concat3(
            "Inspected the workspace and found ",
            &number_text(count_listed(&all) as u64),
            " files and directories. The full list is in Rust Trace.",
        );
    }
    if same(name, "rust_shell") {
        proof {
            reveal_strlit("exit_code: ");
            lemma_line_begins(deep(all@), "exit_code: "@);
        }
        let code = match find_line(&all, "exit_code: ") {
            Some(line) => {
                let chars = chars_of(&line);
                let n = chars.len();
                let rest = substring(&chars, 11, n);
                proof {
                    assert(rest@ =~= line@.skip(11));
                }
                rest
            },
            None => "unknown".to_owned(),
        };
        return concat3("The command completed with exit code ", &code, ".");
    }
    if same(name, "rust_http") {
        proof {
            assert(deep(all@).len() == all@.len());
        }
        let status = if all.len() > 0 {
            proof {
                assert(deep(all@)[0] == all@[0]@);
            }
            all[0].clone()
        } else {
            "HTTP response received".to_owned()
        };
        return concat3(
            "Completed the network request (",
            &status,
            "). The response body is in Rust Trace.",
        );
    }
    if same(name, "rust_web_search") {
        return "Completed the web search. Candidate sources are available in Rust Trace for verification.".to_owned();
    }
    concat2(name, " returned a result and it passed the basic verification.")
}

/// What is told of a result.
pub open spec fn told_result(name: Seq<char>, result: ResultModel) -> Seq<char> {
    match result.error {
        Some(error) => name + " failed: "@ + error,
        None => match result.output {
            Some(output) => told(name, output),
            None => name + " returned no usable result."@,
        },
    }
}

/// The answer to a request: what is told of each result.
pub open spec fn told_answer(results: Seq<(Seq<char>, ResultModel)>) -> Seq<char> {
    if results.len() == 0 {
        "I understood the request. Demo mode only calls a local tool when it is actually needed, then returns a concise conclusion."@
    } else {
        "The task is complete.\n\n"@ + joined(
            results.map_values(|r: (Seq<char>, ResultModel)| told_result(r.0, r.1)),
            "\n"@,
        )
    }
}

fn tell_result(name: &str, result: &ToolResult) -> (r: String)
    ensures
        r@ == told_result(name@, result.deep_view()),
{
    match &result.error {
        Some(error) => concat3(name, " failed: ", error),
        None => match &result.output {
            Some(output) => demo_result_summary(name, output),
            None => concat2(name, " returned no usable result."),
        },
    }
}

/// The answer to a request.
pub fn demo_answer(prompt: &str, results: &Vec<(String, ToolResult)>) -> (r: String)
    ensures
        r@ == told_answer(deep(results@)),
{
    proof {
        assert(deep(results@).len() == results@.len());
    }
    if results.len() == 0 {
        return "I understood the request. Demo mode only calls a local tool when it is actually needed, then returns a concise conclusion.".to_owned();
    }
    let ghost wanted = deep(results@).map_values(
        |r: (Seq<char>, ResultModel)| told_result(r.0, r.1),
    );
    let mut parts: Vec<String> = Vec::new();
    let mut i: usize = 0;
    while i < results.len()
        invariant
            wanted == deep(results@).map_values(
                |r: (Seq<char>, ResultModel)| told_result(r.0, r.1),
            ),
            i <= results@.len(),
            parts@.len() == i,
            forall|k: int| 0 <= k < i ==> #[trigger] deep(parts@)[k] == wanted[k],
        decreases results@.len() - i,
    {
        proof {
            assert(deep(results@)[i as int] == results@[i as int].deep_view());
        }
        let part = tell_result(&results[i].0, &results[i].1);
        let ghost before = deep(parts@);
        parts.push(part);
        proof {
            assert(deep(parts@) == before.push(part@));
        }
        i += 1;
    }
    proof {
        assert(deep(parts@) =~= wanted);
    }
    concat2("The task is complete.\n\n", &join(&parts, "\n"))
}

/// A question about what can be done calls no tool.
pub proof fn law_questions_about_capabilities_call_nothing(prompt: Seq<char>)
    requires
        asks_for_capabilities(lowered(prompt)),
    ensures
        needed_calls(prompt).len() == 0,
{
}

} // verus!
