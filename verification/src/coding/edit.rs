//! Replacing and writing the text of a file.

use vstd::prelude::*;
use vstd::utf8::encode_utf8;

use super::arguments::{argument, argument_flag, argument_text, bool_argument};
use super::limits::MAX_EDIT_BYTES;
use crate::deep::group_deep;
use crate::json::{Json, JsonModel};
use crate::number::{decimal, number_text};
use crate::text::{
    byte_len, chars_of, find, find_from, lemma_find_from, occurs_at, push_text, string_of,
};

verus! {

broadcast use group_deep;

// ---- occurrences ----

/// How often `part` stands in `text` from the place `from` on, places that overlap not counted.
pub open spec fn occurrences(text: Seq<char>, part: Seq<char>, from: int) -> nat
    decreases text.len() - from,
{
    match find_from(text, part, from) {
        Some(i) => if part.len() > 0 && from <= i && i + part.len() <= text.len() {
            1 + occurrences(text, part, i + part.len())
        } else {
            0
        },
        None => 0,
    }
}

/// The text from the place `from` on, with the first `most` occurrences of `part` replaced.
pub open spec fn replaced(
    text: Seq<char>,
    part: Seq<char>,
    new: Seq<char>,
    from: int,
    most: nat,
) -> Seq<char>
    decreases text.len() - from,
{
    match find_from(text, part, from) {
        Some(i) => if most > 0 && part.len() > 0 && from <= i && i + part.len() <= text.len() {
            text.subrange(from, i) + new + replaced(
                text,
                part,
                new,
                i + part.len(),
                (most - 1) as nat,
            )
        } else {
            text.skip(from)
        },
        None => text.skip(from),
    }
}

/// How often `part` stands in `text`, places that overlap not counted.
pub fn count_occurrences(text: &str, part: &str) -> (r: usize)
    requires
        part@.len() > 0,
    ensures
        r == occurrences(text@, part@, 0),
{
    let t = chars_of(text);
    let p = chars_of(part);
    let n = t.len();
    let mut from: usize = 0;
    let mut count: usize = 0;
    let mut done = false;
    while !done
        invariant
            t@ == text@,
            p@ == part@,
            p@.len() > 0,
            n == t@.len(),
            from <= n,
            count <= from,
            !done ==> occurrences(text@, part@, 0) == count + occurrences(
                text@,
                part@,
                from as int,
            ),
            done ==> occurrences(text@, part@, 0) == count,
        decreases (if done { 0int } else { 1 + t@.len() - from }),
    {
        proof {
            lemma_find_from(text@, part@, from as int);
        }
        match find(&t, &p, from) {
            Some(i) => {
                from = i + p.len();
                count += 1;
            },
            None => {
                done = true;
            },
        }
    }
    count
}

/// The text with the first `most` occurrences of `part` replaced.
pub fn replace_occurrences(text: &str, part: &str, new: &str, most: usize) -> (r: String)
    requires
        part@.len() > 0,
    ensures
        r@ == replaced(text@, part@, new@, 0, most as nat),
{
    let t = chars_of(text);
    let p = chars_of(part);
    let n = t.len();
    let ghost wanted = replaced(text@, part@, new@, 0, most as nat);
    let mut out: Vec<char> = Vec::new();
    let mut from: usize = 0;
    let mut left: usize = most;
    proof {
        assert(out@ + wanted =~= wanted);
    }
    while left > 0
        invariant
            t@ == text@,
            p@ == part@,
            p@.len() > 0,
            n == t@.len(),
            from <= n,
            wanted == replaced(text@, part@, new@, 0, most as nat),
            out@ + replaced(text@, part@, new@, from as int, left as nat) == wanted,
        decreases left,
    {
        proof {
            lemma_find_from(text@, part@, from as int);
        }
        match find(&t, &p, from) {
            Some(i) => {
                let ghost before = out@;
                let ghost start = from as int;
                let ghost rest = replaced(
                    text@,
                    part@,
                    new@,
                    i + part@.len(),
                    (left - 1) as nat,
                );
                let mut k: usize = from;
                while k < i
                    invariant
                        from <= k <= i <= t@.len(),
                        t@ == text@,
                        start == from,
                        out@ == before + text@.subrange(start, k as int),
                    decreases i - k,
                {
                    out.push(t[k]);
                    k += 1;
                    proof {
                        assert(before + text@.subrange(start, k as int) =~= (before
                            + text@.subrange(start, k - 1)).push(text@[k - 1]));
                    }
                }
                push_text(&mut out, new);
                proof {
                    assert(before + (text@.subrange(start, i as int) + new@ + rest) =~= (before
                        + text@.subrange(start, i as int) + new@) + rest);
                }
                from = i + p.len();
                left -= 1;
            },
            None => {
                left = 0;
            },
        }
    }
    let ghost before = out@;
    let ghost start = from as int;
    while from < t.len()
        invariant
            0 <= start <= from <= t@.len(),
            t@ == text@,
            out@ == before + text@.subrange(start, from as int),
        decreases t@.len() - from,
    {
        out.push(t[from]);
        from += 1;
        proof {
            assert(before + text@.subrange(start, from as int) =~= (before + text@.subrange(
                start,
                from - 1,
            )).push(text@[from - 1]));
        }
    }
    proof {
        assert(out@ =~= before + text@.skip(start));
    }
    string_of(&out)
}

// ---- the replace operation ----

/// What is to be replaced in which file.
#[derive(Debug, PartialEq, Eq)]
pub struct ReplaceRequest {
    pub path: String,
    pub old_text: String,
    pub new_text: String,
    pub replace_all: bool,
}

/// What is wrong with a call that replaces text.
pub open spec fn replace_error(arguments: JsonModel) -> Option<Seq<char>> {
    if argument_text(arguments, "path"@) is None {
        Some("rust_code replace requires path"@)
    } else if arguments.text("old_text"@) is None {
        Some("rust_code replace requires old_text"@)
    } else if arguments.text("new_text"@) is None {
        Some("rust_code replace requires new_text"@)
    } else if arguments.text("old_text"@)->0.len() == 0 {
        Some(
            "rust_code replace refuses an empty old_text; use write for a full-file replacement"@,
        )
    } else {
        None
    }
}

/// What is to be replaced in which file.
pub fn replace_request(arguments: &Json) -> (r: Result<ReplaceRequest, String>)
    ensures
        match replace_error(arguments.deep_view()) {
            Some(error) => r is Err && r->Err_0@ == error,
            None => {
                &&& r is Ok
                &&& r->Ok_0.path@ == argument_text(arguments.deep_view(), "path"@)->0
                &&& r->Ok_0.old_text@ == arguments.deep_view().text("old_text"@)->0
                &&& r->Ok_0.new_text@ == arguments.deep_view().text("new_text"@)->0
                &&& r->Ok_0.replace_all == argument_flag(
                    arguments.deep_view(),
                    "replace_all"@,
                    false,
                )
                &&& r->Ok_0.old_text@.len() > 0
            },
        },
{
    let path = match argument(arguments, "path") {
        Some(path) => path,
        None => {
            return Err("rust_code replace requires path".to_owned());
        },
    };
    let old_text = match arguments.text("old_text") {
        Some(text) => text.clone(),
        None => {
            return Err("rust_code replace requires old_text".to_owned());
        },
    };
    let new_text = match arguments.text("new_text") {
        Some(text) => text.clone(),
        None => {
            return Err("rust_code replace requires new_text".to_owned());
        },
    };
    if old_text.as_str().is_empty() {
        return Err(
            "rust_code replace refuses an empty old_text; use write for a full-file replacement".to_owned(),
        );
    }
    Ok(
        ReplaceRequest {
            path,
            old_text,
            new_text,
            replace_all: bool_argument(arguments, "replace_all"),
        },
    )
}

/// The new text of a file, and how often something was replaced in it. A text that is to be
/// replaced once must stand in the file exactly once.
pub open spec fn replacement(
    original: Seq<char>,
    path: Seq<char>,
    old_text: Seq<char>,
    new_text: Seq<char>,
    replace_all: bool,
) -> Result<(Seq<char>, nat), Seq<char>> {
    let count = occurrences(original, old_text, 0);
    if count == 0 || (!replace_all && count != 1) {
        Err(
            "Expected "@ + (if replace_all {
                "at least one"@
            } else {
                "exactly one"@
            }) + " replacement in "@ + path + ", found "@ + decimal(count),
        )
    } else {
        Ok((replaced(original, old_text, new_text, 0, count), count))
    }
}

/// The new text of a file, and how often something was replaced in it.
pub fn replace_in(request: &ReplaceRequest, original: &str) -> (r: Result<(String, usize), String>)
    requires
        request.old_text@.len() > 0,
    ensures
        match r {
            Ok((text, count)) => replacement(
                original@,
                request.path@,
                request.old_text@,
                request.new_text@,
                request.replace_all,
            ) == Ok::<(Seq<char>, nat), Seq<char>>((text@, count as nat)),
            Err(error) => replacement(
                original@,
                request.path@,
                request.old_text@,
                request.new_text@,
                request.replace_all,
            ) == Err::<(Seq<char>, nat), Seq<char>>(error@),
        },
{
    let count = count_occurrences(original, &request.old_text);
    if count == 0 || (!request.replace_all && count != 1) {
        let mut error = "Expected ".to_owned();
        if request.replace_all {
            error.append("at least one");
        } else {
            error.append("exactly one");
        }
        error.append(" replacement in ");
        error.append(&request.path);
        error.append(", found ");
        error.append(&number_text(count as u64));
        return Err(error);
    }
    let text = replace_occurrences(original, &request.old_text, &request.new_text, count);
    Ok((text, count))
}

/// The report of a replacement.
pub fn replace_report(count: usize, relative: &str) -> (r: String)
    ensures
        r@ == "Replaced "@ + decimal(count as nat) + (if count == 1 {
            " occurrence in "@
        } else {
            " occurrences in "@
        }) + relative@,
{
    let mut report = "Replaced ".to_owned();
    report.append(&number_text(count as u64));
    if count == 1 {
        report.append(" occurrence in ");
    } else {
        report.append(" occurrences in ");
    }
    report.append(relative);
    report
}

// ---- the write operation ----

/// The path and the content of a file that is to be written.
pub fn write_request(arguments: &Json) -> (r: Result<(String, String), String>)
    ensures
        ({
            let path = argument_text(arguments.deep_view(), "path"@);
            let content = arguments.deep_view().text("content"@);
            if path is None {
                r is Err && r->Err_0@ == "rust_code write requires path"@
            } else if content is None {
                r is Err && r->Err_0@ == "rust_code write requires content"@
            } else if encode_utf8(content->0).len() > MAX_EDIT_BYTES {
                r is Err && r->Err_0@ == "Content exceeds the 16 MiB write limit"@
            } else {
                r is Ok && r->Ok_0.0@ == path->0 && r->Ok_0.1@ == content->0
            }
        }),
{
    let path = match argument(arguments, "path") {
        Some(path) => path,
        None => {
            return Err("rust_code write requires path".to_owned());
        },
    };
    let content = match arguments.text("content") {
        Some(text) => text.clone(),
        None => {
            return Err("rust_code write requires content".to_owned());
        },
    };
    if byte_len(&content) > MAX_EDIT_BYTES {
        return Err("Content exceeds the 16 MiB write limit".to_owned());
    }
    Ok((path, content))
}

/// The report of a file that was written.
pub fn write_report(relative: &str, content: &str) -> (r: String)
    ensures
        r@ == "Wrote "@ + relative@ + " ("@ + decimal(encode_utf8(content@).len()) + " bytes)"@,
{
    let mut report = "Wrote ".to_owned();
    report.append(relative);
    report.append(" (");
    report.append(&number_text(byte_len(content) as u64));
    report.append(" bytes)");
    report
}

// ---- laws ----

/// Replacing a text by itself changes nothing.
pub proof fn law_replacing_by_itself_changes_nothing(
    text: Seq<char>,
    part: Seq<char>,
    from: int,
    most: nat,
)
    requires
        0 <= from <= text.len(),
        part.len() > 0,
    ensures
        replaced(text, part, part, from, most) == text.skip(from),
    decreases text.len() - from,
{
    lemma_find_from(text, part, from);
    if let Some(i) = find_from(text, part, from) {
        if most > 0 {
            law_replacing_by_itself_changes_nothing(
                text,
                part,
                i + part.len(),
                (most - 1) as nat,
            );
            assert(occurs_at(text, part, i));
            assert(text.subrange(from, i) + part + text.skip(i + part.len()) =~= text.skip(from));
        }
    }
}

/// Each replacement makes the text longer by the difference of the two lengths.
pub proof fn law_replacing_changes_the_length(
    text: Seq<char>,
    part: Seq<char>,
    new: Seq<char>,
    from: int,
)
    requires
        0 <= from <= text.len(),
        part.len() > 0,
    ensures
        replaced(text, part, new, from, occurrences(text, part, from)).len() == text.len() - from
            + occurrences(text, part, from) * (new.len() - part.len()),
    decreases text.len() - from,
{
    lemma_find_from(text, part, from);
    assert(0 * (new.len() - part.len()) == 0);
    if let Some(i) = find_from(text, part, from) {
        law_replacing_changes_the_length(text, part, new, i + part.len());
        let n = occurrences(text, part, i + part.len());
        let d = new.len() - part.len();
        assert((1 + n) * d == d + n * d) by (nonlinear_arith);
        assert(occurrences(text, part, from) == 1 + n);
        assert(replaced(text, part, new, from, 1 + n) == text.subrange(from, i) + new + replaced(
            text,
            part,
            new,
            i + part.len(),
            n,
        ));
    }
}

} // verus!
