//! Files that are attached to messages.
//!
//! A task keeps of a file only its name, its type, its size and the key under which its bytes are
//! stored. The bytes are read and written outside the library.

use vstd::prelude::*;

use crate::base64::{decode_base64, decoded, MAX_ATTACHMENT_BYTES};
use crate::deep::{deep, group_deep};
use crate::ids::{is_hex, is_simple_uuid, new_simple_id};
use crate::models::{AttachmentModel, AttachmentRef};
use crate::text::{
    ascii_alnum, begins_with, blank, chars_of, concat2, concat3, concat4, concat5, contains_text,
    first_chars, index_of, is_alnum, is_blank, is_space, lowered, next_char, same, split, split_from,
    split_on,
    starts_with, string_of, substring, take_chars, to_ascii_lower, trim, trim_end, trim_start,
    trimmed,
};

verus! {

broadcast use group_deep;

pub const MAX_ATTACHMENTS: usize = 8;

pub const MAX_TOTAL_ATTACHMENT_BYTES: usize = 52428800;

pub const MAX_TEXT_CONTEXT_BYTES: usize = 245760;

pub const MAX_NAME_CHARS: usize = 160;

/// A file whose bytes came with the message, as text.
#[derive(Debug, PartialEq, Eq)]
pub struct AttachmentInput {
    pub name: String,
    pub mime: String,
    pub data: String,
}

/// A file that is on the disk.
#[derive(Debug, PartialEq, Eq)]
pub struct AttachmentPathInput {
    pub path: String,
    pub name: String,
    pub mime: String,
}

// ---- names ----

/// Whether the character does something instead of being shown.
pub open spec fn is_control(c: char) -> bool {
    c <= '\u{1f}' || ('\u{7f}' <= c && c <= '\u{9f}')
}

/// The character as it may stand in the name of a file.
pub open spec fn safe_char(c: char) -> char {
    if is_control(c) || c == '<' || c == '>' || c == ':' || c == '"' || c == '|' || c == '?' || c
        == '*' {
        '_'
    } else {
        c
    }
}

/// The place behind the last separator of the first `n` characters.
pub open spec fn leaf_start(s: Seq<char>, n: int) -> int
    decreases n,
{
    if n <= 0 {
        0
    } else if s[n - 1] == '/' || s[n - 1] == '\\' {
        n
    } else {
        leaf_start(s, n - 1)
    }
}

/// Whether there is nothing but dots and spaces.
pub open spec fn only_dots(s: Seq<char>) -> bool {
    forall|i: int| 0 <= i < s.len() ==> (#[trigger] s[i]) == '.' || s[i] == ' '
}

/// The name under which a file is kept: the last part of its path, without characters that a
/// file system could not take, and not too long.
pub open spec fn safe_name(input: Seq<char>) -> Seq<char> {
    let leaf = trimmed(input.skip(leaf_start(input, input.len() as int)));
    let name = first_chars(leaf.map_values(|c: char| safe_char(c)), MAX_NAME_CHARS as nat);
    if only_dots(name) {
        "attachment"@
    } else {
        name
    }
}

fn safe(c: char) -> (r: char)
    ensures
        r == safe_char(c),
{
    if c <= '\u{1f}' || ('\u{7f}' <= c && c <= '\u{9f}') || c == '<' || c == '>' || c == ':' || c
        == '"' || c == '|' || c == '?' || c == '*' {
        '_'
    } else {
        c
    }
}

/// The name under which a file is kept.
pub fn sanitize_name(input: &str) -> (r: String)
    ensures
        r@ == safe_name(input@),
{
    let v = chars_of(input);
    let n = v.len();
    let mut start: usize = n;
    while start > 0 && v[start - 1] != '/' && v[start - 1] != '\\'
        invariant
            start <= n,
            n == v@.len(),
            v@ == input@,
            leaf_start(input@, n as int) == leaf_start(input@, start as int),
        decreases start,
    {
        start -= 1;
    }
    let last = substring(&v, start, n);
    proof {
        assert(last@ =~= input@.skip(start as int));
    }
    let leaf = trim(&last);
    let chars = chars_of(&leaf);
    let mut out: Vec<char> = Vec::new();
    let mut i: usize = 0;
    let ghost wanted = leaf@.map_values(|c: char| safe_char(c));
    while i < chars.len()
        invariant
            chars@ == leaf@,
            wanted == leaf@.map_values(|c: char| safe_char(c)),
            i <= chars@.len(),
            out@.len() == i,
            forall|k: int| 0 <= k < i ==> #[trigger] out@[k] == wanted[k],
        decreases chars@.len() - i,
    {
        out.push(safe(chars[i]));
        i += 1;
    }
    proof {
        assert(out@ =~= wanted);
    }
    let name = take_chars(&string_of(&out), MAX_NAME_CHARS);
    let shown = chars_of(&name);
    let mut k: usize = 0;
    while k < shown.len()
        invariant
            shown@ == name@,
            name@ == first_chars(wanted, MAX_NAME_CHARS as nat),
            wanted == trimmed(input@.skip(leaf_start(input@, input@.len() as int))).map_values(
                |c: char| safe_char(c),
            ),
            k <= shown@.len(),
            forall|j: int| 0 <= j < k ==> (#[trigger] shown@[j]) == '.' || shown@[j] == ' ',
        decreases shown@.len() - k,
    {
        if shown[k] != '.' && shown[k] != ' ' {
            return name;
        }
        k += 1;
    }
    "attachment".to_owned()
}

/// The name under which a file is kept is not empty, not too long, and holds no character that a
/// file system could not take.
pub proof fn law_kept_names_are_safe(input: Seq<char>, i: int)
    ensures
        0 < safe_name(input).len() <= MAX_NAME_CHARS,
        0 <= i < safe_name(input).len() ==> {
            let c = safe_name(input)[i];
            !is_control(c) && c != '/' && c != '\\' && c != ':' && c != '*' && c != '?' && c != '"'
                && c != '<' && c != '>' && c != '|'
        },
{
    reveal_strlit("attachment");
    let start = leaf_start(input, input.len() as int);
    lemma_leaf_start(input, input.len() as int);
    let last = input.skip(start);
    let leaf = trimmed(last);
    let wanted = leaf.map_values(|c: char| safe_char(c));
    let name = first_chars(wanted, MAX_NAME_CHARS as nat);
    let k = lemma_trimmed_part(last);
    if !only_dots(name) && 0 <= i < name.len() {
        assert(name[i] == safe_char(leaf[i]));
        assert(leaf[i] == last[k + i]);
        assert(last[k + i] == input[start + k + i]);
    }
}

proof fn lemma_leaf_start(s: Seq<char>, n: int)
    requires
        0 <= n <= s.len(),
    ensures
        0 <= leaf_start(s, n) <= n,
        forall|k: int| leaf_start(s, n) <= k < n ==> (#[trigger] s[k]) != '/' && s[k] != '\\',
    decreases n,
{
    if n > 0 && s[n - 1] != '/' && s[n - 1] != '\\' {
        lemma_leaf_start(s, n - 1);
    }
}

/// What is left of a text without white space around it is a part of it.
proof fn lemma_trimmed_part(s: Seq<char>) -> (k: int)
    ensures
        0 <= k,
        k + trimmed(s).len() <= s.len(),
        trimmed(s) == s.subrange(k, k + trimmed(s).len()),
{
    let k = lemma_trim_start_part(s);
    lemma_trim_end_part(trim_start(s));
    assert(trimmed(s) =~= s.subrange(k, k + trimmed(s).len()));
    k
}

proof fn lemma_trim_start_part(s: Seq<char>) -> (k: int)
    ensures
        0 <= k <= s.len(),
        trim_start(s) == s.skip(k),
    decreases s.len(),
{
    if s.len() > 0 && is_space(s.first()) {
        let k = lemma_trim_start_part(s.drop_first());
        assert(s.drop_first().skip(k) =~= s.skip(k + 1));
        k + 1
    } else {
        assert(s.skip(0) =~= s);
        0
    }
}

proof fn lemma_trim_end_part(s: Seq<char>)
    ensures
        trim_end(s).len() <= s.len(),
        trim_end(s) == s.take(trim_end(s).len() as int),
    decreases s.len(),
{
    if s.len() > 0 && is_space(s.last()) {
        lemma_trim_end_part(s.drop_last());
        let n = trim_end(s).len();
        assert(s.drop_last().take(n as int) =~= s.take(n as int));
    } else {
        assert(s.take(s.len() as int) =~= s);
    }
}

/// The place of the last part of a path that is a name, among its first `n` parts; -1 where there
/// is none.
pub open spec fn last_name(parts: Seq<Seq<char>>, n: int) -> int
    decreases n,
{
    if n <= 0 {
        -1
    } else if parts[n - 1].len() == 0 || parts[n - 1] == "."@ {
        last_name(parts, n - 1)
    } else {
        n - 1
    }
}

/// The place of the last dot among the first `n` characters; -1 where there is none.
pub open spec fn last_dot(s: Seq<char>, n: int) -> int
    decreases n,
{
    if n <= 0 {
        -1
    } else if s[n - 1] == '.' {
        n - 1
    } else {
        last_dot(s, n - 1)
    }
}

/// The ending of the name of a file, in lower case: what stands behind the last dot. A name that
/// begins with its only dot has none.
pub open spec fn extension_of(path: Seq<char>) -> Seq<char> {
    let parts = split_on(path, '/');
    let i = last_name(parts, parts.len() as int);
    if i < 0 || parts[i] == ".."@ {
        Seq::empty()
    } else {
        let dot = last_dot(parts[i], parts[i].len() as int);
        if dot <= 0 {
            Seq::empty()
        } else {
            lowered(parts[i].skip(dot + 1))
        }
    }
}

/// The ending of the name of a file, in lower case.
pub fn extension(path: &str) -> (r: String)
    ensures
        r@ == extension_of(path@),
{
    let parts = split(path, '/');
    let ghost models = deep(parts@);
    let mut n: usize = parts.len();
    proof {
        assert(models.len() == parts@.len());
    }
    while n > 0 && (parts[n - 1].as_str().is_empty() || same(&parts[n - 1], "."))
        invariant
            models == deep(parts@),
            n <= parts@.len(),
            last_name(models, models.len() as int) == last_name(models, n as int),
        decreases n,
    {
        proof {
            assert(models[n - 1] == parts@[n - 1]@);
        }
        n -= 1;
    }
    if n == 0 {
        return String::new();
    }
    proof {
        assert(models[n - 1] == parts@[n - 1]@);
    }
    if same(&parts[n - 1], "..") {
        return String::new();
    }
    let v = chars_of(&parts[n - 1]);
    let total = v.len();
    let mut dot: usize = total;
    while dot > 0 && v[dot - 1] != '.'
        invariant
            dot <= total,
            total == v@.len(),
            last_dot(v@, total as int) == last_dot(v@, dot as int),
        decreases dot,
    {
        dot -= 1;
    }
    if dot <= 1 {
        return String::new();
    }
    let ending = substring(&v, dot, total);
    proof {
        assert(ending@ =~= v@.skip(dot as int));
    }
    to_ascii_lower(&ending)
}

// ---- types ----

/// The types of pictures that are accepted.
pub open spec fn is_image_type(mime: Seq<char>) -> bool {
    mime == "image/jpeg"@ || mime == "image/png"@ || mime == "image/gif"@ || mime == "image/webp"@
}

/// Whether the type is one of the pictures that are accepted.
pub fn is_image(mime: &str) -> (r: bool)
    ensures
        r == is_image_type(mime@),
{
    same(mime, "image/jpeg") || same(mime, "image/png") || same(mime, "image/gif") || same(
        mime,
        "image/webp",
    )
}

/// The types of text beside those that begin with `text/`.
pub open spec fn is_text_type(mime: Seq<char>) -> bool {
    begins_with(mime, "text/"@) || mime == "application/json"@ || mime == "application/xml"@ || mime
        == "application/yaml"@ || mime == "application/x-yaml"@ || mime
        == "application/javascript"@ || mime == "application/x-javascript"@ || mime
        == "application/x-sh"@
}

/// The endings of the names of files that hold text.
pub open spec fn is_text_ending(e: Seq<char>) -> bool {
    e == "c"@ || e == "cc"@ || e == "cpp"@ || e == "css"@ || e == "csv"@ || e == "go"@ || e == "h"@
        || e == "hpp"@ || e == "html"@ || e == "ini"@ || e == "java"@ || e == "js"@ || e == "jsx"@
        || e == "json"@ || e == "md"@ || e == "py"@ || e == "rs"@ || e == "sql"@ || e == "toml"@
        || e == "ts"@ || e == "tsx"@ || e == "txt"@ || e == "vue"@ || e == "xml"@ || e == "yaml"@
        || e == "yml"@
}

/// Whether a file holds text, by its type or else by its name.
pub fn is_text(mime: &str, name: &str) -> (r: bool)
    ensures
        r == (is_text_type(mime@) || is_text_ending(extension_of(name@))),
{
    if starts_with(mime, "text/") || same(mime, "application/json") || same(
        mime,
        "application/xml",
    ) || same(mime, "application/yaml") || same(mime, "application/x-yaml") || same(
        mime,
        "application/javascript",
    ) || same(mime, "application/x-javascript") || same(mime, "application/x-sh") {
        return true;
    }
    let e = extension(name);
    same(&e, "c") || same(&e, "cc") || same(&e, "cpp") || same(&e, "css") || same(&e, "csv")
        || same(&e, "go") || same(&e, "h") || same(&e, "hpp") || same(&e, "html") || same(
        &e,
        "ini",
    ) || same(&e, "java") || same(&e, "js") || same(&e, "jsx") || same(&e, "json") || same(
        &e,
        "md",
    ) || same(&e, "py") || same(&e, "rs") || same(&e, "sql") || same(&e, "toml") || same(&e, "ts")
        || same(&e, "tsx") || same(&e, "txt") || same(&e, "vue") || same(&e, "xml") || same(
        &e,
        "yaml",
    ) || same(&e, "yml")
}

/// Whether the bytes hold the characters, one for one, from the place `at` on.
pub open spec fn bytes_at(bytes: Seq<u8>, at: int, s: Seq<char>) -> bool {
    &&& at + s.len() <= bytes.len()
    &&& forall|i: int| 0 <= i < s.len() ==> bytes[at + i] as char == #[trigger] s[i]
}

/// The type that the first bytes of a file tell.
pub open spec fn told_type(bytes: Seq<u8>) -> Option<Seq<char>> {
    if bytes_at(bytes, 0, "\u{89}PNG\r\n\u{1a}\n"@) {
        Some("image/png"@)
    } else if bytes_at(bytes, 0, "\u{ff}\u{d8}\u{ff}"@) {
        Some("image/jpeg"@)
    } else if bytes_at(bytes, 0, "GIF87a"@) || bytes_at(bytes, 0, "GIF89a"@) {
        Some("image/gif"@)
    } else if bytes_at(bytes, 0, "RIFF"@) && bytes_at(bytes, 8, "WEBP"@) {
        Some("image/webp"@)
    } else if bytes_at(bytes, 0, "%PDF-"@) {
        Some("application/pdf"@)
    } else if bytes_at(bytes, 0, "PK\u{3}\u{4}"@) {
        Some("application/zip"@)
    } else {
        None
    }
}

fn holds_at(bytes: &[u8], at: usize, s: &str) -> (r: bool)
    requires
        at <= 8,
    ensures
        r == bytes_at(bytes@, at as int, s@),
{
    let v = chars_of(s);
    let n = v.len();
    let total = bytes.len();
    if total < at || total - at < n {
        return false;
    }
    let mut i: usize = 0;
    while i < n
        invariant
            v@ == s@,
            n == v@.len(),
            i <= n,
            at + n <= bytes@.len() <= usize::MAX,
            forall|k: int| 0 <= k < i ==> bytes@[at + k] as char == #[trigger] s@[k],
        decreases n - i,
    {
        if bytes[at + i] as char != v[i] {
            return false;
        }
        i += 1;
    }
    true
}

/// The type that the first bytes of a file tell.
pub fn sniff_mime(bytes: &[u8]) -> (r: Option<String>)
    ensures
        r.deep_view() == told_type(bytes@),
{
    if holds_at(bytes, 0, "\u{89}PNG\r\n\u{1a}\n") {
        Some("image/png".to_owned())
    } else if holds_at(bytes, 0, "\u{ff}\u{d8}\u{ff}") {
        Some("image/jpeg".to_owned())
    } else if holds_at(bytes, 0, "GIF87a") || holds_at(bytes, 0, "GIF89a") {
        Some("image/gif".to_owned())
    } else if holds_at(bytes, 0, "RIFF") && holds_at(bytes, 8, "WEBP") {
        Some("image/webp".to_owned())
    } else if holds_at(bytes, 0, "%PDF-") {
        Some("application/pdf".to_owned())
    } else if holds_at(bytes, 0, "PK\u{3}\u{4}") {
        Some("application/zip".to_owned())
    } else {
        None
    }
}

/// The type that the ending of a name tells.
pub open spec fn ending_type(e: Seq<char>) -> Option<Seq<char>> {
    if e == "bmp"@ {
        Some("image/bmp"@)
    } else if e == "csv"@ {
        Some("text/csv"@)
    } else if e == "gif"@ {
        Some("image/gif"@)
    } else if e == "htm"@ || e == "html"@ {
        Some("text/html"@)
    } else if e == "jpeg"@ || e == "jpg"@ {
        Some("image/jpeg"@)
    } else if e == "json"@ {
        Some("application/json"@)
    } else if e == "md"@ {
        Some("text/markdown"@)
    } else if e == "pdf"@ {
        Some("application/pdf"@)
    } else if e == "png"@ {
        Some("image/png"@)
    } else if e == "svg"@ {
        Some("image/svg+xml"@)
    } else if e == "toml"@ {
        Some("application/toml"@)
    } else if e == "txt"@ {
        Some("text/plain"@)
    } else if e == "webp"@ {
        Some("image/webp"@)
    } else if e == "xml"@ {
        Some("application/xml"@)
    } else if e == "yaml"@ || e == "yml"@ {
        Some("application/yaml"@)
    } else {
        None
    }
}

/// The type that the ending of a name tells.
pub fn mime_from_extension(extension: &str) -> (r: Option<String>)
    ensures
        r.deep_view() == ending_type(extension@),
{
    let mime = if same(extension, "bmp") {
        "image/bmp"
    } else if same(extension, "csv") {
        "text/csv"
    } else if same(extension, "gif") {
        "image/gif"
    } else if same(extension, "htm") || same(extension, "html") {
        "text/html"
    } else if same(extension, "jpeg") || same(extension, "jpg") {
        "image/jpeg"
    } else if same(extension, "json") {
        "application/json"
    } else if same(extension, "md") {
        "text/markdown"
    } else if same(extension, "pdf") {
        "application/pdf"
    } else if same(extension, "png") {
        "image/png"
    } else if same(extension, "svg") {
        "image/svg+xml"
    } else if same(extension, "toml") {
        "application/toml"
    } else if same(extension, "txt") {
        "text/plain"
    } else if same(extension, "webp") {
        "image/webp"
    } else if same(extension, "xml") {
        "application/xml"
    } else if same(extension, "yaml") || same(extension, "yml") {
        "application/yaml"
    } else {
        return None;
    };
    Some(mime.to_owned())
}

/// The type that is declared, without its parameters.
pub open spec fn plain_type(declared: Seq<char>) -> Seq<char> {
    lowered(trimmed(declared.take(next_char(declared, ';', 0))))
}

/// The type of a file before it is checked: the declared one, or else what its bytes or its name
/// tell.
pub open spec fn taken_type(declared: Seq<char>, name: Seq<char>, bytes: Seq<u8>) -> Seq<char> {
    let plain = plain_type(declared);
    if plain.len() == 0 || plain == "application/octet-stream"@ {
        match told_type(bytes) {
            Some(mime) => mime,
            None => match ending_type(extension_of(name)) {
                Some(mime) => mime,
                None => "application/octet-stream"@,
            },
        }
    } else {
        plain
    }
}

/// The type of a file, or why it is not accepted.
pub open spec fn detected(
    declared: Seq<char>,
    name: Seq<char>,
    bytes: Seq<u8>,
) -> Result<Seq<char>, Seq<char>> {
    let mime = taken_type(declared, name, bytes);
    let told = told_type(bytes);
    if mime == "image/svg+xml"@ {
        Err(name + " is an SVG image, which is not accepted for safety."@)
    } else if begins_with(mime, "image/"@) && !is_image_type(mime) {
        Err("Image type "@ + mime + " is not supported. Use PNG, JPEG, GIF, or WebP."@)
    } else if begins_with(mime, "image/"@) && told != Some(mime) {
        Err(name + " does not match its declared image type."@)
    } else {
        match told {
            Some(told) => if is_image_type(told) && mime != told {
                Err(name + " does not match its detected image type."@)
            } else if mime == "application/pdf"@ && told != "application/pdf"@ {
                Err(name + " does not match its declared PDF type."@)
            } else if told == "application/pdf"@ && mime != "application/pdf"@ {
                Err(name + " does not match its detected PDF type."@)
            } else {
                Ok(mime)
            },
            None => Ok(mime),
        }
    }
}

/// The type of a file, or why it is not accepted.
pub fn detect_mime(declared: &str, name: &str, bytes: &[u8]) -> (r: Result<String, String>)
    ensures
        match detected(declared@, name@, bytes@) {
            Ok(mime) => r is Ok && r->Ok_0@ == mime,
            Err(error) => r is Err && r->Err_0@ == error,
        },
{
    let chars = chars_of(declared);
    let end = index_of(&chars, ';', 0);
    let first = substring(&chars, 0, end);
    proof {
        assert(first@ =~= declared@.take(end as int));
    }
    let plain = to_ascii_lower(&trim(&first));
    let sniffed = sniff_mime(bytes);
    let mime = if plain.as_str().is_empty() || same(&plain, "application/octet-stream") {
        match &sniffed {
            Some(mime) => mime.clone(),
            None => match mime_from_extension(&extension(name)) {
                Some(mime) => mime,
                None => "application/octet-stream".to_owned(),
            },
        }
    } else {
        plain
    };
    proof {
        assert(mime@ == taken_type(declared@, name@, bytes@));
    }
    if same(&mime, "image/svg+xml") {
        return Err(concat2(name, " is an SVG image, which is not accepted for safety."));
    }
    let image = starts_with(&mime, "image/");
    if image && !is_image(&mime) {
        return Err(
            concat3("Image type ", &mime, " is not supported. Use PNG, JPEG, GIF, or WebP."),
        );
    }
    let agrees = match &sniffed {
        Some(told) => same(told, &mime),
        None => false,
    };
    if image && !agrees {
        return Err(concat2(name, " does not match its declared image type."));
    }
    if let Some(told) = &sniffed {
        if is_image(told) && !agrees {
            return Err(concat2(name, " does not match its detected image type."));
        }
        if same(&mime, "application/pdf") && !same(told, "application/pdf") {
            return Err(concat2(name, " does not match its declared PDF type."));
        }
        if same(told, "application/pdf") && !same(&mime, "application/pdf") {
            return Err(concat2(name, " does not match its detected PDF type."));
        }
    }
    Ok(mime)
}

/// A file that is accepted as a picture is one: its bytes tell the same type.
pub proof fn law_accepted_pictures_are_pictures(
    declared: Seq<char>,
    name: Seq<char>,
    bytes: Seq<u8>,
)
    requires
        detected(declared, name, bytes) is Ok,
        begins_with(detected(declared, name, bytes)->Ok_0, "image/"@),
    ensures
        told_type(bytes) == Some(detected(declared, name, bytes)->Ok_0),
        is_image_type(detected(declared, name, bytes)->Ok_0),
{
}

// ---- limits ----

/// A text that can name the directory of a task.
pub open spec fn is_task_id(id: Seq<char>) -> bool {
    &&& 0 < id.len() <= 100
    &&& forall|i: int| 0 <= i < id.len() ==> is_task_char(#[trigger] id[i])
}

pub open spec fn is_task_char(c: char) -> bool {
    is_alnum(c) || c == '-' || c == '_'
}

pub fn validate_task_id(task_id: &str) -> (r: Result<(), String>)
    ensures
        r is Ok <==> is_task_id(task_id@),
        r is Err ==> r->Err_0@ == "Invalid task attachment scope."@,
{
    let v = chars_of(task_id);
    if v.len() == 0 || v.len() > 100 {
        return Err("Invalid task attachment scope.".to_owned());
    }
    let mut i: usize = 0;
    while i < v.len()
        invariant
            v@ == task_id@,
            i <= v@.len(),
            forall|k: int| 0 <= k < i ==> is_task_char(#[trigger] v@[k]),
        decreases v@.len() - i,
    {
        if !(ascii_alnum(v[i]) || v[i] == '-' || v[i] == '_') {
            return Err("Invalid task attachment scope.".to_owned());
        }
        i += 1;
    }
    Ok(())
}

/// Whether so many files may be attached to a message of the task.
pub fn validate_count(task_id: &str, count: usize) -> (r: Result<(), String>)
    ensures
        r is Ok <==> is_task_id(task_id@) && count <= MAX_ATTACHMENTS,
        r is Err ==> r->Err_0@ == if !is_task_id(task_id@) {
            "Invalid task attachment scope."@
        } else {
            "You can attach at most 8 files to one message."@
        },
{
    match validate_task_id(task_id) {
        Ok(()) => {
            if count > MAX_ATTACHMENTS {
                return Err("You can attach at most 8 files to one message.".to_owned());
            }
            Ok(())
        },
        Err(error) => Err(error),
    }
}

/// The bytes of a file, with the name and the type that it came with.
#[derive(Debug, PartialEq, Eq)]
pub struct FileBytes {
    pub name: String,
    pub mime: String,
    pub bytes: Vec<u8>,
}

pub struct FileModel {
    pub name: Seq<char>,
    pub mime: Seq<char>,
    pub bytes: Seq<u8>,
}

impl DeepView for FileBytes {
    type V = FileModel;

    open spec fn deep_view(&self) -> FileModel {
        FileModel { name: self.name@, mime: self.mime@, bytes: self.bytes@ }
    }
}

impl Clone for FileBytes {
    fn clone(&self) -> (r: Self)
        ensures
            r.deep_view() == self.deep_view(),
    {
        FileBytes { name: self.name.clone(), mime: self.mime.clone(), bytes: copy_bytes(&self.bytes) }
    }
}

fn copy_bytes(bytes: &Vec<u8>) -> (r: Vec<u8>)
    ensures
        r@ == bytes@,
{
    let r = bytes.clone();
    proof {
        assert(r@ =~= bytes@);
    }
    r
}

/// How many bytes the files have together.
pub open spec fn total_bytes(files: Seq<FileModel>) -> nat
    decreases files.len(),
{
    if files.len() == 0 {
        0
    } else {
        total_bytes(files.drop_last()) + files.last().bytes.len()
    }
}

/// Why a file cannot be added to those that are there, if it cannot.
pub open spec fn file_fault(total: nat, name: Seq<char>, size: nat) -> Option<Seq<char>> {
    if size == 0 {
        Some(name + " is empty."@)
    } else if size > MAX_ATTACHMENT_BYTES {
        Some(name + " is too large. The per-file limit is 25 MB."@)
    } else if total + size > MAX_TOTAL_ATTACHMENT_BYTES {
        Some("The combined attachment limit is 50 MB."@)
    } else {
        None
    }
}

/// Files that are to be attached, within the limits.
#[derive(Debug, PartialEq, Eq)]
pub struct FileBatch {
    pub files: Vec<FileBytes>,
    pub total: usize,
}

impl FileBatch {
    pub open spec fn wf(&self) -> bool {
        &&& self.total == total_bytes(deep(self.files@))
        &&& self.total <= MAX_TOTAL_ATTACHMENT_BYTES
    }

    pub fn new() -> (r: Self)
        ensures
            r.wf(),
            deep(r.files@) == Seq::<FileModel>::empty(),
    {
        let files: Vec<FileBytes> = Vec::new();
        proof {
            assert(deep(files@) =~= Seq::<FileModel>::empty());
        }
        FileBatch { files, total: 0 }
    }

    /// Adds a file, where it is not empty and the limits allow it.
    pub fn push_decoded(&mut self, name: String, mime: String, bytes: Vec<u8>) -> (r: Result<
        (),
        String,
    >)
        requires
            old(self).wf(),
        ensures
            final(self).wf(),
            match file_fault(total_bytes(deep(old(self).files@)), name@, bytes@.len()) {
                Some(error) => r is Err && r->Err_0@ == error && *final(self) == *old(self),
                None => r is Ok && deep(final(self).files@) == deep(old(self).files@).push(
                    FileModel { name: name@, mime: mime@, bytes: bytes@ },
                ),
            },
    {
        let size = bytes.len();
        if size == 0 {
            return Err(concat2(&name, " is empty."));
        }
        if size > MAX_ATTACHMENT_BYTES {
            return Err(concat2(&name, " is too large. The per-file limit is 25 MB."));
        }
        if self.total + size > MAX_TOTAL_ATTACHMENT_BYTES {
            return Err("The combined attachment limit is 50 MB.".to_owned());
        }
        let ghost before = deep(self.files@);
        let file = FileBytes { name, mime, bytes };
        self.files.push(file);
        self.total = self.total + size;
        proof {
            assert(deep(self.files@) == before.push(file.deep_view()));
            assert(before.push(file.deep_view()).drop_last() =~= before);
        }
        Ok(())
    }

    /// Adds a file whose bytes came as text.
    pub fn push_encoded(&mut self, input: &AttachmentInput) -> (r: Result<(), String>)
        requires
            old(self).wf(),
        ensures
            final(self).wf(),
            match decoded(input.data@) {
                Err(error) => r is Err && r->Err_0@ == "Unable to decode "@ + input.name@ + ": "@
                    + error && *final(self) == *old(self),
                Ok(bytes) => match file_fault(
                    total_bytes(deep(old(self).files@)),
                    input.name@,
                    bytes.len(),
                ) {
                    Some(error) => r is Err && r->Err_0@ == error && *final(self) == *old(self),
                    None => r is Ok && deep(final(self).files@) == deep(old(self).files@).push(
                        FileModel { name: input.name@, mime: input.mime@, bytes },
                    ),
                },
            },
    {
        match decode_base64(&input.data) {
            Ok(bytes) => self.push_decoded(input.name.clone(), input.mime.clone(), bytes),
            Err(error) => Err(concat4("Unable to decode ", &input.name, ": ", &error)),
        }
    }

    /// Whether a file on the disk may be read: it is a file, and the limits allow it. `file_name`
    /// is the last part of its path.
    pub fn check_path(
        &self,
        input: &AttachmentPathInput,
        file_name: &Option<String>,
        is_file: bool,
        size: u64,
    ) -> (r: Result<(), String>)
        requires
            self.wf(),
        ensures
            match path_fault(
                *input,
                file_name.deep_view(),
                is_file,
                size as nat,
                self.total as nat,
            ) {
                Some(error) => r is Err && r->Err_0@ == error,
                None => r is Ok,
            },
    {
        if !is_file {
            return Err(concat2(&input.path, " is not a file."));
        }
        if size > MAX_ATTACHMENT_BYTES as u64 {
            return Err(
                concat2(
                    &display_path_name(input, file_name),
                    " is too large. The per-file limit is 25 MB.",
                ),
            );
        }
        if self.total as u64 + size > MAX_TOTAL_ATTACHMENT_BYTES as u64 {
            return Err("The combined attachment limit is 50 MB.".to_owned());
        }
        Ok(())
    }
}

/// Why a path is not taken, if it is not: it has to be absolute.
pub fn check_absolute(input: &AttachmentPathInput, absolute: bool) -> (r: Result<(), String>)
    ensures
        r is Ok <==> absolute,
        r is Err ==> r->Err_0@ == "Dropped file path must be absolute: "@ + input.path@,
{
    if absolute {
        Ok(())
    } else {
        Err(concat2("Dropped file path must be absolute: ", &input.path))
    }
}

/// Why a file on the disk may not be read, if it may not.
pub open spec fn path_fault(
    input: AttachmentPathInput,
    file_name: Option<Seq<char>>,
    is_file: bool,
    size: nat,
    total: nat,
) -> Option<Seq<char>> {
    if !is_file {
        Some(input.path@ + " is not a file."@)
    } else if size > MAX_ATTACHMENT_BYTES {
        Some(
            shown_name(input, file_name) + " is too large. The per-file limit is 25 MB."@,
        )
    } else if total + size > MAX_TOTAL_ATTACHMENT_BYTES {
        Some("The combined attachment limit is 50 MB."@)
    } else {
        None
    }
}

/// The name of a file on the disk: the one that was given, or else the last part of its path.
pub open spec fn shown_name(input: AttachmentPathInput, file_name: Option<Seq<char>>) -> Seq<char> {
    if !is_blank(input.name@) {
        input.name@
    } else {
        match file_name {
            Some(name) => name,
            None => "attachment"@,
        }
    }
}

/// The name of a file on the disk.
pub fn display_path_name(input: &AttachmentPathInput, file_name: &Option<String>) -> (r: String)
    ensures
        r@ == shown_name(*input, file_name.deep_view()),
{
    if !blank(&input.name) {
        return input.name.clone();
    }
    match file_name {
        Some(name) => name.clone(),
        None => "attachment".to_owned(),
    }
}

// ---- references ----

/// The key under which the bytes of a file are stored.
pub open spec fn key_of(task_id: Seq<char>, id: Seq<char>) -> Seq<char> {
    "attachments/"@ + task_id + "/"@ + id + ".bin"@
}

/// What is kept of a file.
pub open spec fn reference_of(
    task_id: Seq<char>,
    file: FileModel,
    mime: Seq<char>,
    id: Seq<char>,
) -> AttachmentModel {
    AttachmentModel {
        id,
        name: safe_name(file.name),
        mime,
        size: file.bytes.len() as u64,
        storage_key: key_of(task_id, id),
    }
}

/// What is kept of a file, or why it is not accepted.
pub fn attachment_ref(task_id: &str, file: &FileBytes, id: &str) -> (r: Result<
    AttachmentRef,
    String,
>)
    ensures
        match detected(file.mime@, file.name@, file.bytes@) {
            Ok(mime) => r is Ok && r->Ok_0.deep_view() == reference_of(
                task_id@,
                file.deep_view(),
                mime,
                id@,
            ),
            Err(error) => r is Err && r->Err_0@ == error,
        },
{
    match detect_mime(&file.mime, &file.name, &file.bytes) {
        Ok(mime) => Ok(
            AttachmentRef {
                id: id.to_owned(),
                name: sanitize_name(&file.name),
                mime,
                size: file.bytes.len() as u64,
                storage_key: concat5("attachments/", task_id, "/", id, ".bin"),
            },
        ),
        Err(error) => Err(error),
    }
}

/// The place of the first file that is not accepted; the count of the files where all are.
pub open spec fn first_refused(files: Seq<FileModel>, from: int) -> int
    decreases files.len() - from,
{
    if from < 0 || from >= files.len() {
        files.len() as int
    } else if detected(files[from].mime, files[from].name, files[from].bytes) is Err {
        from
    } else {
        first_refused(files, from + 1)
    }
}

/// Whether an identifier is one of an attachment.
pub open spec fn is_attachment_id(id: Seq<char>) -> bool {
    &&& id.len() == 36
    &&& begins_with(id, "att_"@)
    &&& is_simple_uuid(id.skip(4))
}

/// Whether this is what is kept of an accepted file.
pub open spec fn is_reference(
    reference: AttachmentModel,
    task_id: Seq<char>,
    file: FileModel,
) -> bool {
    &&& is_attachment_id(reference.id)
    &&& reference == reference_of(
        task_id,
        file,
        detected(file.mime, file.name, file.bytes)->Ok_0,
        reference.id,
    )
}

/// Whether these are what is kept of accepted files.
pub open spec fn are_references(
    references: Seq<AttachmentModel>,
    task_id: Seq<char>,
    files: Seq<FileModel>,
) -> bool {
    &&& references.len() == files.len()
    &&& forall|i: int|
        0 <= i < files.len() ==> is_reference(#[trigger] references[i], task_id, files[i])
}

fn new_attachment_id() -> (r: String)
    ensures
        is_attachment_id(r@),
{
    let simple = new_simple_id();
    let id = concat2("att_", &simple);
    proof {
        reveal_strlit("att_");
        assert(id@.take(4) =~= "att_"@);
        assert(id@.skip(4) =~= simple@);
    }
    id
}

/// What is kept of the files. Where one is not accepted, nothing is.
pub fn attachment_refs(task_id: &str, files: &Vec<FileBytes>) -> (r: Result<
    Vec<AttachmentRef>,
    String,
>)
    ensures
        ({
            let models = deep(files@);
            let bad = first_refused(models, 0);
            if bad < models.len() {
                r is Err && r->Err_0@ == detected(
                    models[bad].mime,
                    models[bad].name,
                    models[bad].bytes,
                )->Err_0
            } else {
                r is Ok && are_references(deep(r->Ok_0@), task_id@, models)
            }
        }),
{
    let ghost models = deep(files@);
    let mut r: Vec<AttachmentRef> = Vec::new();
    let mut i: usize = 0;
    while i < files.len()
        invariant
            models == deep(files@),
            i <= files@.len(),
            r@.len() == i,
            first_refused(models, 0) == first_refused(models, i as int),
            forall|k: int|
                0 <= k < i ==> is_reference(#[trigger] deep(r@)[k], task_id@, models[k]),
        decreases files@.len() - i,
    {
        proof {
            assert(models[i as int] == files@[i as int].deep_view());
        }
        let id = new_attachment_id();
        match attachment_ref(task_id, &files[i], &id) {
            Ok(reference) => {
                let ghost before = deep(r@);
                r.push(reference);
                proof {
                    assert(deep(r@) == before.push(reference.deep_view()));
                }
            },
            Err(error) => {
                return Err(error);
            },
        }
        i += 1;
    }
    Ok(r)
}

// ---- files that come with a message ----

/// What an encoded file is.
pub struct InputModel {
    pub name: Seq<char>,
    pub mime: Seq<char>,
    pub data: Seq<char>,
}

impl DeepView for AttachmentInput {
    type V = InputModel;

    open spec fn deep_view(&self) -> InputModel {
        InputModel { name: self.name@, mime: self.mime@, data: self.data@ }
    }
}

/// The files that the inputs hold, or why the first that is not taken is not.
pub open spec fn collected(inputs: Seq<InputModel>) -> Result<Seq<FileModel>, Seq<char>>
    decreases inputs.len(),
{
    if inputs.len() == 0 {
        Ok(Seq::empty())
    } else {
        match collected(inputs.drop_last()) {
            Err(error) => Err(error),
            Ok(files) => {
                let input = inputs.last();
                match decoded(input.data) {
                    Err(error) => Err("Unable to decode "@ + input.name + ": "@ + error),
                    Ok(bytes) => match file_fault(total_bytes(files), input.name, bytes.len()) {
                        Some(error) => Err(error),
                        None => Ok(
                            files.push(FileModel { name: input.name, mime: input.mime, bytes }),
                        ),
                    },
                }
            },
        }
    }
}

proof fn lemma_collected_fault(inputs: Seq<InputModel>, n: int)
    requires
        0 <= n <= inputs.len(),
        collected(inputs.take(n)) is Err,
    ensures
        collected(inputs) == collected(inputs.take(n)),
    decreases inputs.len(),
{
    if n < inputs.len() {
        assert(inputs.drop_last().take(n) =~= inputs.take(n));
        lemma_collected_fault(inputs.drop_last(), n);
    } else {
        assert(inputs.take(n) =~= inputs);
    }
}

/// The files that come with a message of the task, or why they are not taken. `paths` is how many
/// files are to be read from the disk beside them.
pub fn collect_inputs(task_id: &str, inputs: &Vec<AttachmentInput>, paths: usize) -> (r: Result<
    FileBatch,
    String,
>)
    ensures
        if !is_task_id(task_id@) {
            r is Err && r->Err_0@ == "Invalid task attachment scope."@
        } else if inputs@.len() + paths > MAX_ATTACHMENTS {
            r is Err && r->Err_0@ == "You can attach at most 8 files to one message."@
        } else {
            match collected(deep(inputs@)) {
                Ok(files) => r is Ok && r->Ok_0.wf() && deep(r->Ok_0.files@) == files,
                Err(error) => r is Err && r->Err_0@ == error,
            }
        },
{
    let count = if inputs.len() > MAX_ATTACHMENTS || paths > MAX_ATTACHMENTS {
        MAX_ATTACHMENTS + 1
    } else {
        inputs.len() + paths
    };
    match validate_count(task_id, count) {
        Ok(()) => {},
        Err(error) => {
            return Err(error);
        },
    }
    let ghost models = deep(inputs@);
    let mut batch = FileBatch::new();
    let mut i: usize = 0;
    proof {
        assert(models.take(0) =~= Seq::<InputModel>::empty());
    }
    while i < inputs.len()
        invariant
            is_task_id(task_id@),
            inputs@.len() + paths <= MAX_ATTACHMENTS,
            models == deep(inputs@),
            i <= inputs@.len(),
            batch.wf(),
            collected(models.take(i as int)) == Ok::<Seq<FileModel>, Seq<char>>(
                deep(batch.files@),
            ),
        decreases inputs@.len() - i,
    {
        proof {
            assert(models.take(i + 1).drop_last() =~= models.take(i as int));
            assert(models.take(i + 1).last() == inputs@[i as int].deep_view());
        }
        match batch.push_encoded(&inputs[i]) {
            Ok(()) => {},
            Err(error) => {
                proof {
                    lemma_collected_fault(models, i + 1);
                }
                return Err(error);
            },
        }
        i += 1;
    }
    proof {
        assert(models.take(models.len() as int) =~= models);
    }
    Ok(batch)
}

/// Files that come with a message are never more than the limits allow: each has bytes, and no
/// more than one file may have, and together they have no more than all files may have.
pub proof fn law_collected_files_are_within_the_limits(inputs: Seq<InputModel>, i: int)
    requires
        collected(inputs) is Ok,
    ensures
        ({
            let files = collected(inputs)->Ok_0;
            &&& files.len() == inputs.len()
            &&& total_bytes(files) <= MAX_TOTAL_ATTACHMENT_BYTES
            &&& 0 <= i < files.len() ==> 0 < files[i].bytes.len() <= MAX_ATTACHMENT_BYTES
        }),
    decreases inputs.len(),
{
    if inputs.len() > 0 {
        law_collected_files_are_within_the_limits(inputs.drop_last(), i);
        let before = collected(inputs.drop_last())->Ok_0;
        let files = collected(inputs)->Ok_0;
        assert(files.drop_last() =~= before);
    }
}

/// The files with more of them, read from the disk, or why the first that is not taken is not.
pub open spec fn with_files(files: Seq<FileModel>, more: Seq<FileModel>) -> Result<
    Seq<FileModel>,
    Seq<char>,
>
    decreases more.len(),
{
    if more.len() == 0 {
        Ok(files)
    } else {
        match with_files(files, more.drop_last()) {
            Err(error) => Err(error),
            Ok(all) => match file_fault(
                total_bytes(all),
                more.last().name,
                more.last().bytes.len(),
            ) {
                Some(error) => Err(error),
                None => Ok(all.push(more.last())),
            },
        }
    }
}

proof fn lemma_files_fault(files: Seq<FileModel>, more: Seq<FileModel>, n: int)
    requires
        0 <= n <= more.len(),
        with_files(files, more.take(n)) is Err,
    ensures
        with_files(files, more) == with_files(files, more.take(n)),
    decreases more.len(),
{
    if n < more.len() {
        assert(more.drop_last().take(n) =~= more.take(n));
        lemma_files_fault(files, more.drop_last(), n);
    } else {
        assert(more.take(n) =~= more);
    }
}

/// What becomes of files that come with a message of the task: those that are kept, or why none
/// is.
pub open spec fn taken_files(
    task_id: Seq<char>,
    inputs: Seq<InputModel>,
    more: Seq<FileModel>,
) -> Result<Seq<FileModel>, Seq<char>> {
    if !is_task_id(task_id) {
        Err("Invalid task attachment scope."@)
    } else if inputs.len() + more.len() > MAX_ATTACHMENTS {
        Err("You can attach at most 8 files to one message."@)
    } else {
        match collected(inputs) {
            Err(error) => Err(error),
            Ok(first) => match with_files(first, more) {
                Err(error) => Err(error),
                Ok(files) => {
                    let bad = first_refused(files, 0);
                    if bad < files.len() {
                        Err(detected(files[bad].mime, files[bad].name, files[bad].bytes)->Err_0)
                    } else {
                        Ok(files)
                    }
                },
            },
        }
    }
}

/// Whether the result is what is kept of the files, with the files themselves, or why nothing is.
pub open spec fn stored_as(
    r: Result<(Vec<AttachmentRef>, FileBatch), String>,
    task_id: Seq<char>,
    taken: Result<Seq<FileModel>, Seq<char>>,
) -> bool {
    match taken {
        Ok(files) => r is Ok && deep(r->Ok_0.1.files@) == files && are_references(
            deep(r->Ok_0.0@),
            task_id,
            files,
        ),
        Err(error) => r is Err && r->Err_0@ == error,
    }
}

/// What is kept of the files that come with a message, and the files themselves, whose bytes are
/// then to be stored under the keys. `files` are those that were read from the disk, each under
/// the name that it is shown with.
pub fn store_inputs_and_paths(
    task_id: &str,
    inputs: &Vec<AttachmentInput>,
    files: Vec<FileBytes>,
) -> (r: Result<(Vec<AttachmentRef>, FileBatch), String>)
    ensures
        stored_as(r, task_id@, taken_files(task_id@, deep(inputs@), deep(files@))),
{
    let ghost models = deep(files@);
    proof {
        assert(deep(inputs@).len() == inputs@.len());
        assert(models.len() == files@.len());
    }
    let mut batch = match collect_inputs(task_id, inputs, files.len()) {
        Ok(batch) => batch,
        Err(error) => {
            return Err(error);
        },
    };
    let ghost first = deep(batch.files@);
    let mut i: usize = 0;
    proof {
        assert(models.take(0) =~= Seq::<FileModel>::empty());
    }
    while i < files.len()
        invariant
            models == deep(files@),
            i <= files@.len(),
            batch.wf(),
            is_task_id(task_id@),
            deep(inputs@).len() + models.len() <= MAX_ATTACHMENTS,
            collected(deep(inputs@)) == Ok::<Seq<FileModel>, Seq<char>>(first),
            with_files(first, models.take(i as int)) == Ok::<Seq<FileModel>, Seq<char>>(
                deep(batch.files@),
            ),
        decreases files@.len() - i,
    {
        proof {
            assert(models.take(i + 1).drop_last() =~= models.take(i as int));
            assert(models.take(i + 1).last() == files@[i as int].deep_view());
        }
        let file = files[i].clone();
        match batch.push_decoded(file.name, file.mime, file.bytes) {
            Ok(()) => {},
            Err(error) => {
                proof {
                    lemma_files_fault(first, models, i + 1);
                }
                return Err(error);
            },
        }
        i += 1;
    }
    proof {
        assert(models.take(models.len() as int) =~= models);
    }
    match attachment_refs(task_id, &batch.files) {
        Ok(references) => Ok((references, batch)),
        Err(error) => Err(error),
    }
}

/// What is kept of the files that come with a message as text.
pub fn store_inputs(task_id: &str, inputs: &Vec<AttachmentInput>) -> (r: Result<
    (Vec<AttachmentRef>, FileBatch),
    String,
>)
    ensures
        stored_as(r, task_id@, taken_files(task_id@, deep(inputs@), Seq::empty())),
{
    let none: Vec<FileBytes> = Vec::new();
    proof {
        assert(deep(none@) =~= Seq::<FileModel>::empty());
    }
    store_inputs_and_paths(task_id, inputs, none)
}

/// What is kept of the files that were read from the disk.
pub fn store_paths(task_id: &str, files: Vec<FileBytes>) -> (r: Result<
    (Vec<AttachmentRef>, FileBatch),
    String,
>)
    ensures
        stored_as(r, task_id@, taken_files(task_id@, Seq::empty(), deep(files@))),
{
    let none: Vec<AttachmentInput> = Vec::new();
    proof {
        assert(deep(none@) =~= Seq::<InputModel>::empty());
    }
    store_inputs_and_paths(task_id, &none, files)
}

// ---- stored files ----

/// Why the stored bytes of a file are not used, if they are not.
pub open spec fn stored_fault(attachment: AttachmentModel, size: u64) -> Option<Seq<char>> {
    if size != attachment.size {
        Some(
            "Attachment "@ + attachment.name + " changed on disk and cannot be used safely."@,
        )
    } else if size > MAX_ATTACHMENT_BYTES {
        Some("Attachment "@ + attachment.name + " exceeds the file size limit."@)
    } else {
        None
    }
}

/// Whether the stored bytes of a file may be used; `size` is how many there are.
pub fn check_stored(attachment: &AttachmentRef, size: u64) -> (r: Result<(), String>)
    ensures
        match stored_fault(attachment.deep_view(), size) {
            Some(error) => r is Err && r->Err_0@ == error,
            None => r is Ok,
        },
{
    if size != attachment.size {
        return Err(
            concat3(
                "Attachment ",
                &attachment.name,
                " changed on disk and cannot be used safely.",
            ),
        );
    }
    if size > MAX_ATTACHMENT_BYTES as u64 {
        return Err(concat3("Attachment ", &attachment.name, " exceeds the file size limit."));
    }
    Ok(())
}

/// The names on a path, without empty parts and those that stay where they are.
pub open spec fn path_names(parts: Seq<Seq<char>>) -> Seq<Seq<char>>
    decreases parts.len(),
{
    if parts.len() == 0 {
        Seq::empty()
    } else if parts.last().len() == 0 || parts.last() == "."@ {
        path_names(parts.drop_last())
    } else {
        path_names(parts.drop_last()).push(parts.last())
    }
}

/// Where a stored file lies below the directory of the data, or why the key is not one.
pub open spec fn stored_path(key: Seq<char>) -> Result<Seq<Seq<char>>, Seq<char>> {
    let parts = split_on(key, '/');
    if begins_with(key, "/"@) || parts.contains(".."@) {
        Err("Attachment storage reference is invalid."@)
    } else if !begins_with(key, "attachments/"@) {
        Err("Attachment storage reference is outside the attachment directory."@)
    } else {
        Ok(path_names(parts))
    }
}

/// The next separator is the one that is seen first.
proof fn lemma_next_slash(s: Seq<char>, from: int, to: int)
    requires
        0 <= from <= to <= s.len(),
        forall|k: int| from <= k < to ==> (#[trigger] s[k]) != '/',
        to < s.len() ==> s[to] == '/',
    ensures
        next_char(s, '/', from) == to,
    decreases to - from,
{
    if from < to {
        lemma_next_slash(s, from + 1, to);
    }
}

/// The key of an attachment leads to a file of its own in the directory of the task, and nowhere
/// else.
pub proof fn law_keys_lead_into_the_directory_of_the_task(task_id: Seq<char>, id: Seq<char>)
    requires
        is_task_id(task_id),
        is_attachment_id(id),
    ensures
        stored_path(key_of(task_id, id)) == Ok::<Seq<Seq<char>>, Seq<char>>(
            seq!["attachments"@, task_id, id + ".bin"@],
        ),
{
    reveal_strlit("attachments");
    reveal_strlit("attachments/");
    reveal_strlit("/");
    reveal_strlit(".bin");
    reveal_strlit("att_");
    reveal_strlit("..");
    reveal_strlit(".");
    let key = key_of(task_id, id);
    let n = task_id.len() as int;
    let file = id + ".bin"@;
    assert(key.len() == 12 + n + 1 + 40);
    assert forall|k: int| 0 <= k < 4 implies (#[trigger] id[k]) != '/' by {
        assert(id[k] == id.take(4)[k]);
    }
    assert forall|k: int| 0 <= k < 11 implies (#[trigger] key[k]) != '/' by {
        assert(key[k] == "attachments/"@[k]);
    }
    assert forall|k: int| 12 <= k < 12 + n implies (#[trigger] key[k]) != '/' by {
        assert(key[k] == task_id[k - 12]);
        assert(is_task_char(task_id[k - 12]));
    }
    assert forall|k: int| 13 + n <= k < key.len() implies (#[trigger] key[k]) != '/' by {
        assert(key[k] == file[k - 13 - n]);
        if k - 13 - n < 36 {
            assert(file[k - 13 - n] == id[k - 13 - n]);
            if k - 13 - n >= 4 {
                assert(is_hex(id.skip(4)[k - 17 - n]));
            }
        }
    }
    assert(key[11] == '/');
    assert(key[12 + n] == '/');
    lemma_next_slash(key, 0, 11);
    lemma_next_slash(key, 12, 12 + n);
    lemma_next_slash(key, 13 + n, key.len() as int);
    let third = split_from(key, '/', 13 + n);
    assert(third =~= seq![file]) by {
        assert(key.skip(13 + n) =~= file);
    }
    let second = split_from(key, '/', 12);
    assert(second =~= seq![task_id, file]) by {
        assert(key.subrange(12, 12 + n) =~= task_id);
    }
    let parts = split_on(key, '/');
    assert(parts =~= seq!["attachments"@, task_id, file]) by {
        assert(key.subrange(0, 11) =~= "attachments"@);
    }
    assert(is_task_char(task_id[0]));
    assert(file[0] == 'a') by {
        assert(file[0] == id.take(4)[0]);
    }
    assert(task_id[0] != '.');
    assert(".."@[0] == '.' && "."@[0] == '.');
    assert(!parts.contains(".."@)) by {
        if parts.contains(".."@) {
            let k = choose|k: int| 0 <= k < parts.len() && parts[k] == ".."@;
            assert(parts[k][0] == '.');
        }
    }
    assert(!begins_with(key, "/"@)) by {
        assert(key[0] == 'a');
        if begins_with(key, "/"@) {
            assert(key.take(1)[0] == '/');
        }
    }
    assert(begins_with(key, "attachments/"@)) by {
        assert(key.take(12) =~= "attachments/"@);
    }
    let p2 = parts.drop_last();
    let p1 = p2.drop_last();
    let p0 = p1.drop_last();
    assert(p0 =~= Seq::<Seq<char>>::empty());
    assert(p1.last() == "attachments"@ && p2.last() == task_id && parts.last() == file);
    assert("attachments"@[0] == 'a');
    assert(path_names(p0) =~= Seq::<Seq<char>>::empty());
    assert(path_names(p1) =~= seq!["attachments"@]);
    assert(path_names(p2) =~= seq!["attachments"@, task_id]);
    assert(path_names(parts) =~= seq!["attachments"@, task_id, file]);
}

/// Where a stored file lies below the directory of the data: the names on the way to it.
pub fn storage_path(storage_key: &str) -> (r: Result<Vec<String>, String>)
    ensures
        match stored_path(storage_key@) {
            Ok(names) => r is Ok && deep(r->Ok_0@) == names,
            Err(error) => r is Err && r->Err_0@ == error,
        },
{
    let parts = split(storage_key, '/');
    if starts_with(storage_key, "/") || contains_text(&parts, "..") {
        return Err("Attachment storage reference is invalid.".to_owned());
    }
    if !starts_with(storage_key, "attachments/") {
        return Err("Attachment storage reference is outside the attachment directory.".to_owned());
    }
    let ghost models = deep(parts@);
    let mut names: Vec<String> = Vec::new();
    let mut i: usize = 0;
    proof {
        assert(models.take(0) =~= Seq::<Seq<char>>::empty());
        assert(deep(names@) =~= Seq::<Seq<char>>::empty());
    }
    while i < parts.len()
        invariant
            models == deep(parts@),
            i <= parts@.len(),
            deep(names@) == path_names(models.take(i as int)),
        decreases parts@.len() - i,
    {
        proof {
            assert(models.take(i + 1).drop_last() =~= models.take(i as int));
            assert(models.take(i + 1).last() == parts@[i as int]@);
        }
        if !parts[i].as_str().is_empty() && !same(&parts[i], ".") {
            names.push(parts[i].clone());
        }
        i += 1;
    }
    proof {
        assert(models.take(models.len() as int) =~= models);
    }
    Ok(names)
}

} // verus!
