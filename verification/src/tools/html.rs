//! What can be read off a page of HTML without a browser: its text, its title and its links.
//!
//! Tags and attributes are looked for in the lower case of a page. The page itself is cut as many
//! bytes from its beginning, which is another place where lower case takes other bytes.

use vstd::prelude::*;
use vstd::utf8::encode_utf8;

use crate::coding::edit::{count_occurrences, occurrences, replace_occurrences, replaced};
use crate::deep::{deep, group_deep};
use crate::json::{group_json, num, Json, JsonModel, Members};
use crate::offsets::{
    carried, carried_slice, lemma_carried_in_order, lemma_encoded_length, offset, Lowered,
};
use crate::text::{
    begins_with, chars_of, concat3, find, find_from, index_of, lemma_find_from, lemma_next_char,
    lowercase, next_char, split_words, squeeze, squeezed, starts_with, string_of, substring,
    to_lowercase, trim, trim_front, trim_start, trim_tail, trimmed, without_tail, words,
};

verus! {

broadcast use {group_deep, group_json};

// ---- text ----

/// The page without the elements of one kind: what stands from `<tag` up to `</tag>`, or to the
/// end of the page, is replaced by a space. Both are looked for in the lower case of the page, and
/// the page is cut as many bytes from its beginning; where it cannot be cut there it stays.
pub open spec fn without_block(html: Seq<char>, tag: Seq<char>) -> Seq<char>
    decreases encode_utf8(html).len(),
{
    let low = lowercase(html);
    match find_from(low, "<"@ + tag, 0) {
        None => html,
        Some(start) => match find_from(low, "</"@ + tag + ">"@, start) {
            None => match carried(html, start) {
                Some(a) => html.take(a) + " "@,
                None => html,
            },
            Some(end) => match (carried(html, start), carried(html, end + tag.len() + 3)) {
                (Some(a), Some(b)) => {
                    let rest = html.take(a) + " "@ + html.skip(b);
                    if encode_utf8(rest).len() < encode_utf8(html).len() {
                        without_block(rest, tag)
                    } else {
                        html
                    }
                },
                _ => html,
            },
        },
    }
}

/// The page without the elements of one kind.
pub fn remove_html_block(html: &str, tag: &str) -> (r: String)
    ensures
        r@ == without_block(html@, lowercase(tag@)),
{
    remove_block(html, &to_lowercase(tag))
}

/// A page gets shorter when a part of it is replaced by a space.
proof fn lemma_shorter(html: Seq<char>, a: int, b: int)
    requires
        0 <= a <= b <= html.len(),
        offset(html, b) - offset(html, a) >= 2,
    ensures
        encode_utf8(html.take(a) + " "@ + html.skip(b)).len() < encode_utf8(html).len(),
{
    reveal_strlit(" ");
    let space = " "@;
    assert(space =~= seq![' ']);
    lemma_encoded_length(html.take(a), space);
    lemma_encoded_length(html.take(a) + space, html.skip(b));
    lemma_encoded_length(html.take(b), html.skip(b));
    assert(html.take(b) + html.skip(b) =~= html);
    vstd::utf8::is_ascii_chars_encode_utf8(space);
}

/// The page without the elements of one kind. The name of the tag is in lower case.
fn remove_block(html: &str, tag: &str) -> (r: String)
    ensures
        r@ == without_block(html@, tag@),
{
    let mut opening = "<".to_owned();
    opening.append(tag);
    let open = chars_of(&opening);
    let closing = concat3("</", tag, ">");
    let close = chars_of(&closing);
    let mut page = html.to_owned();
    let mut done = false;
    proof {
        reveal_strlit("<");
        reveal_strlit("</");
        reveal_strlit(">");
    }
    while !done
        invariant
            open@ == "<"@ + tag@,
            close@ == "</"@ + tag@ + ">"@,
            close@.len() == tag@.len() + 3,
            !done ==> without_block(page@, tag@) == without_block(html@, tag@),
            done ==> page@ == without_block(html@, tag@),
        decreases (if done { 0int } else { 1 + encode_utf8(page@).len() as int }),
    {
        let both = Lowered::new(&page);
        let n = both.chars.len();
        let lower_len = both.low.len();
        proof {
            lemma_find_from(both.low@, open@, 0);
        }
        match find(&both.low, &open, 0) {
            None => {
                done = true;
            },
            Some(start) => {
                proof {
                    lemma_find_from(both.low@, close@, start as int);
                }
                match find(&both.low, &close, start) {
                    None => {
                        if let Some(a) = both.carry(start) {
                            let mut head = substring(&both.chars, 0, a);
                            proof {
                                assert(head@ =~= page@.take(a as int));
                            }
                            head.append(" ");
                            page = head;
                        }
                        done = true;
                    },
                    Some(end) => {
                        match (both.carry(start), both.carry(end + close.len())) {
                            (Some(a), Some(b)) => {
                                let mut head = substring(&both.chars, 0, a);
                                let tail = substring(&both.chars, b, n);
                                proof {
                                    assert(head@ =~= page@.take(a as int));
                                    assert(tail@ =~= page@.skip(b as int));
                                    lemma_carried_in_order(
                                        page@,
                                        start as int,
                                        end + close@.len(),
                                    );
                                    lemma_shorter(page@, a as int, b as int);
                                }
                                head.append(" ");
                                head.append(&tail);
                                page = head;
                            },
                            _ => {
                                done = true;
                            },
                        }
                    },
                }
            },
        }
    }
    page
}

/// The text outside tags, each tag replaced by a space; and whether the text ends in a tag.
pub open spec fn untagged(s: Seq<char>) -> (Seq<char>, bool)
    decreases s.len(),
{
    if s.len() == 0 {
        (Seq::empty(), false)
    } else {
        let (text, in_tag) = untagged(s.drop_last());
        if s.last() == '<' {
            (text, true)
        } else if s.last() == '>' && in_tag {
            (text.push(' '), false)
        } else if in_tag {
            (text, true)
        } else {
            (text.push(s.last()), false)
        }
    }
}

/// The text outside tags.
pub fn strip_tags(s: &str) -> (r: String)
    ensures
        r@ == untagged(s@).0,
{
    let v = chars_of(s);
    let mut out: Vec<char> = Vec::new();
    let mut in_tag = false;
    let mut i: usize = 0;
    proof {
        assert(s@.take(0) =~= Seq::<char>::empty());
    }
    while i < v.len()
        invariant
            v@ == s@,
            i <= v@.len(),
            untagged(s@.take(i as int)) == (out@, in_tag),
        decreases v@.len() - i,
    {
        let c = v[i];
        proof {
            assert(s@.take(i + 1).drop_last() =~= s@.take(i as int));
            assert(s@.take(i + 1).last() == c);
        }
        if c == '<' {
            in_tag = true;
        } else if c == '>' && in_tag {
            in_tag = false;
            out.push(' ');
        } else if !in_tag {
            out.push(c);
        }
        i += 1;
    }
    proof {
        assert(s@.take(s@.len() as int) =~= s@);
    }
    string_of(&out)
}

/// The text with each `part` replaced.
pub open spec fn replaced_all(s: Seq<char>, part: Seq<char>, new: Seq<char>) -> Seq<char> {
    replaced(s, part, new, 0, occurrences(s, part, 0))
}

/// The text with each `part` replaced.
pub fn replace_all(s: &str, part: &str, new: &str) -> (r: String)
    requires
        part@.len() > 0,
    ensures
        r@ == replaced_all(s@, part@, new@),
{
    let count = count_occurrences(s, part);
    replace_occurrences(s, part, new, count)
}

/// The text with the usual character references resolved, one kind after the other.
pub open spec fn unescaped(s: Seq<char>) -> Seq<char> {
    replaced_all(
        replaced_all(
            replaced_all(replaced_all(s, "&nbsp;"@, " "@), "&amp;"@, "&"@),
            "&quot;"@,
            "\""@,
        ),
        "&#39;"@,
        "'"@,
    )
}

fn unescape(s: &str) -> (r: String)
    ensures
        r@ == unescaped(s@),
{
    proof {
        reveal_strlit("&nbsp;");
        reveal_strlit("&amp;");
        reveal_strlit("&quot;");
        reveal_strlit("&#39;");
    }
    let a = replace_all(s, "&nbsp;", " ");
    let b = replace_all(&a, "&amp;", "&");
    let c = replace_all(&b, "&quot;", "\"");
    replace_all(&c, "&#39;", "'")
}

/// The page without the elements whose text is not read.
pub open spec fn readable_part(html: Seq<char>) -> Seq<char> {
    let a = without_block(html, lowercase("script"@));
    let b = without_block(a, lowercase("style"@));
    let c = without_block(b, lowercase("nav"@));
    let d = without_block(c, lowercase("header"@));
    without_block(d, lowercase("footer"@))
}

/// The text of a page, its words with one space between each two.
#[verifier::opaque]
pub open spec fn page_text(html: Seq<char>) -> Seq<char> {
    squeezed(unescaped(untagged(readable_part(html)).0))
}

/// The text of a page.
pub fn html_text(html: &str) -> (r: String)
    ensures
        r@ == page_text(html@),
{
    proof {
        reveal(page_text);
    }
    let a = remove_html_block(html, "script");
    let b = remove_html_block(&a, "style");
    let c = remove_html_block(&b, "nav");
    let d = remove_html_block(&c, "header");
    let e = remove_html_block(&d, "footer");
    squeeze(&unescape(&strip_tags(&e)))
}

// ---- title ----

/// The title of a page.
#[verifier::opaque]
pub open spec fn page_title(html: Seq<char>) -> Seq<char> {
    let low = lowercase(html);
    match find_from(low, "<title"@, 0) {
        None => Seq::empty(),
        Some(start) => {
            let open = next_char(low, '>', start);
            if open >= low.len() {
                Seq::empty()
            } else {
                match find_from(low, "</title>"@, open + 1) {
                    None => Seq::empty(),
                    Some(close) => match carried_slice(html, open + 1, close) {
                        Some(inner) => page_text(inner),
                        None => Seq::empty(),
                    },
                }
            }
        },
    }
}

/// The title of a page.
pub fn html_title(html: &str) -> (r: String)
    ensures
        r@ == page_title(html@),
{
    proof {
        reveal(page_title);
    }
    let page = Lowered::new(html);
    proof {
        lemma_find_from(page.low@, "<title"@, 0);
    }
    let start = match find(&page.low, &chars_of("<title"), 0) {
        Some(start) => start,
        None => {
            return String::new();
        },
    };
    let open = index_of(&page.low, '>', start);
    if open >= page.low.len() {
        return String::new();
    }
    proof {
        lemma_find_from(page.low@, "</title>"@, open + 1);
    }
    match find(&page.low, &chars_of("</title>"), open + 1) {
        Some(close) => match page.slice(open + 1, close) {
            Some(inner) => html_text(&inner),
            None => String::new(),
        },
        None => String::new(),
    }
}

// ---- attributes ----

/// The value of an attribute: what stands between quotes, or up to the next white space.
pub open spec fn attribute_value(rest: Seq<char>) -> Option<Seq<char>> {
    if rest.len() == 0 {
        None
    } else if rest[0] == '\'' || rest[0] == '"' {
        let end = next_char(rest, rest[0], 1);
        if end < rest.len() {
            Some(rest.subrange(1, end))
        } else {
            None
        }
    } else {
        Some(
            without_tail(
                if words(rest).len() > 0 {
                    words(rest)[0]
                } else {
                    Seq::empty()
                },
                '>',
            ),
        )
    }
}

/// The value of an attribute of a tag.
pub open spec fn tag_attribute(fragment: Seq<char>, attribute: Seq<char>) -> Option<Seq<char>> {
    let marker = attribute + "="@;
    match find_from(lowercase(fragment), marker, 0) {
        None => None,
        Some(i) => match carried(fragment, i + marker.len()) {
            Some(k) => attribute_value(trim_start(fragment.skip(k))),
            None => None,
        },
    }
}

/// The value of an attribute of a tag. The name of the attribute is in lower case.
pub fn html_attribute(fragment: &str, attribute: &str) -> (r: Option<String>)
    ensures
        r.deep_view() == tag_attribute(fragment@, attribute@),
{
    let mut marker = attribute.to_owned();
    marker.append("=");
    let mark = chars_of(&marker);
    let both = Lowered::new(fragment);
    let n = both.chars.len();
    let lower_len = both.low.len();
    proof {
        lemma_find_from(both.low@, mark@, 0);
    }
    let at = match find(&both.low, &mark, 0) {
        Some(i) => i + mark.len(),
        None => {
            return None;
        },
    };
    let start = match both.carry(at) {
        Some(start) => start,
        None => {
            return None;
        },
    };
    let behind = substring(&both.chars, start, n);
    proof {
        assert(behind@ =~= fragment@.skip(start as int));
    }
    let rest = trim_front(&behind);
    let v = chars_of(&rest);
    if v.len() == 0 {
        return None;
    }
    if v[0] == '\'' || v[0] == '"' {
        let end = index_of(&v, v[0], 1);
        if end < v.len() {
            return Some(substring(&v, 1, end));
        }
        return None;
    }
    let parts = split_words(&rest);
    if parts.len() > 0 {
        proof {
            assert(deep(parts@)[0] == parts@[0]@);
        }
        Some(trim_tail(&parts[0], '>'))
    } else {
        let none = String::new();
        Some(trim_tail(&none, '>'))
    }
}

// ---- links ----

/// The place of the last `c` among the first `n` characters; -1 where there is none.
pub open spec fn last_char(s: Seq<char>, c: char, n: int) -> int
    decreases n,
{
    if n <= 0 {
        -1
    } else if s[n - 1] == c {
        n - 1
    } else {
        last_char(s, c, n - 1)
    }
}

/// Where the name of the host ends in a URL.
pub open spec fn host_end(base: Seq<char>) -> int {
    match find_from(base, "//"@, 0) {
        Some(i) => next_char(base, '/', i + 2),
        None => base.len() as int,
    }
}

/// A link that is relative to a page: to its scheme, its host or its directory.
pub open spec fn resolved_url(base: Seq<char>, link: Seq<char>) -> Seq<char> {
    let href = trimmed(link);
    if begins_with(href, "http://"@) || begins_with(href, "https://"@) {
        href
    } else if begins_with(href, "//"@) && find_from(base, "://"@, 0) is Some {
        base.take(find_from(base, "://"@, 0)->0) + ":"@ + href
    } else if begins_with(href, "/"@) {
        base.take(host_end(base)) + href
    } else {
        let slash = last_char(base, '/', base.len() as int);
        (if slash >= 0 {
            base.take(slash)
        } else {
            base
        }) + "/"@ + href
    }
}

/// A link that is relative to a page.
pub fn absolute_url(base: &str, link: &str) -> (r: String)
    ensures
        r@ == resolved_url(base@, link@),
{
    let href = trim(link);
    if starts_with(&href, "http://") || starts_with(&href, "https://") {
        return href;
    }
    let chars = chars_of(base);
    let n = chars.len();
    if starts_with(&href, "//") {
        proof {
            lemma_find_from(base@, "://"@, 0);
        }
        if let Some(scheme) = find(&chars, &chars_of("://"), 0) {
            let mut r = substring(&chars, 0, scheme);
            proof {
                assert(r@ =~= base@.take(scheme as int));
            }
            r.append(":");
            r.append(&href);
            return r;
        }
    }
    if starts_with(&href, "/") {
        proof {
            reveal_strlit("//");
            lemma_find_from(base@, "//"@, 0);
        }
        let end: usize = match find(&chars, &chars_of("//"), 0) {
            Some(i) => index_of(&chars, '/', i + 2),
            None => n,
        };
        let mut r = substring(&chars, 0, end);
        proof {
            assert(r@ =~= base@.take(end as int));
            assert(end == host_end(base@));
        }
        r.append(&href);
        return r;
    }
    let mut end: usize = n;
    while end > 0 && chars[end - 1] != '/'
        invariant
            end <= chars@.len(),
            chars@ == base@,
            last_char(base@, '/', base@.len() as int) == last_char(base@, '/', end as int),
        decreases end,
    {
        end -= 1;
    }
    let mut r = if end > 0 {
        substring(&chars, 0, end - 1)
    } else {
        base.to_owned()
    };
    proof {
        if end > 0 {
            assert(r@ =~= base@.take(end - 1));
        }
    }
    r.append("/");
    r.append(&href);
    r
}

/// How many links of a page are read.
pub const MAX_LINKS: usize = 80;

/// The links of a page from the place `from` in its lower case on, behind those that were found.
/// Where the page cannot be cut around a link no more are read.
pub open spec fn links_from(
    html: Seq<char>,
    base: Seq<char>,
    from: int,
    found: Seq<(Seq<char>, Seq<char>)>,
) -> Seq<(Seq<char>, Seq<char>)>
    decreases lowercase(html).len() - from,
{
    let low = lowercase(html);
    match find_from(low, "<a"@, from) {
        None => found,
        Some(start) => {
            let open = next_char(low, '>', start);
            if open >= low.len() {
                found
            } else {
                match find_from(low, "</a>"@, open + 1) {
                    None => found,
                    Some(close) => match with_link(html, base, start, open, close, found) {
                        None => found,
                        Some(next) => if next.len() >= MAX_LINKS || !(0 <= from <= start <= open
                            < close && close + 4 <= low.len()) {
                            next
                        } else {
                            links_from(html, base, close + 4, next)
                        },
                    },
                }
            }
        },
    }
}

/// The links with the one whose tag stands from `start` to `open`, if it leads somewhere; nothing
/// where the page cannot be cut around it.
pub open spec fn with_link(
    html: Seq<char>,
    base: Seq<char>,
    start: int,
    open: int,
    close: int,
    found: Seq<(Seq<char>, Seq<char>)>,
) -> Option<Seq<(Seq<char>, Seq<char>)>> {
    match carried_slice(html, start, open + 1) {
        None => None,
        Some(fragment) => match tag_attribute(fragment, "href"@) {
            None => Some(found),
            Some(href) => match carried_slice(html, open + 1, close) {
                None => None,
                Some(inner) => if begins_with(href, "#"@) || begins_with(href, "javascript:"@) {
                    Some(found)
                } else {
                    Some(found.push((page_text(inner), resolved_url(base, href))))
                },
            },
        },
    }
}

/// The links of a page, each with its text.
#[verifier::opaque]
pub open spec fn page_links(html: Seq<char>, base: Seq<char>) -> Seq<(Seq<char>, Seq<char>)> {
    links_from(html, base, 0, Seq::empty())
}

/// The links of a page, each with its text.
pub fn html_links(html: &str, base: &str) -> (r: Vec<(String, String)>)
    ensures
        deep(r@) == page_links(html@, base@),
{
    let page = Lowered::new(html);
    let n = page.low.len();
    let anchor = chars_of("<a");
    let closing = chars_of("</a>");
    let mut links: Vec<(String, String)> = Vec::new();
    let mut cursor: usize = 0;
    proof {
        reveal_strlit("<a");
        reveal_strlit("</a>");
        assert(deep(links@) =~= Seq::<(Seq<char>, Seq<char>)>::empty());
    }
    let ghost wanted = page_links(html@, base@);
    proof {
        reveal(page_links);
    }
    let mut done = false;
    while !done
        invariant
            page.wf(),
            page.chars@ == html@,
            n == page.low@.len(),
            anchor@ == "<a"@,
            closing@ == "</a>"@,
            closing@.len() == 4,
            anchor@.len() == 2,
            cursor <= n,
            !done ==> links_from(html@, base@, cursor as int, deep(links@)) == wanted,
            done ==> deep(links@) == wanted,
        decreases (if done { 0int } else { 1 + n - cursor }),
    {
        proof {
            lemma_find_from(page.low@, anchor@, cursor as int);
        }
        let start = match find(&page.low, &anchor, cursor) {
            Some(start) => start,
            None => {
                done = true;
                continue;
            },
        };
        let open = index_of(&page.low, '>', start);
        proof {
            lemma_next_char(page.low@, '>', start as int);
        }
        if open >= n {
            done = true;
            continue;
        }
        proof {
            lemma_find_from(page.low@, closing@, open + 1);
        }
        let close = match find(&page.low, &closing, open + 1) {
            Some(close) => close,
            None => {
                done = true;
                continue;
            },
        };
        let fragment = match page.slice(start, open + 1) {
            Some(fragment) => fragment,
            None => {
                done = true;
                continue;
            },
        };
        let ghost before = deep(links@);
        if let Some(href) = html_attribute(&fragment, "href") {
            let inner = match page.slice(open + 1, close) {
                Some(inner) => inner,
                None => {
                    done = true;
                    continue;
                },
            };
            if !starts_with(&href, "#") && !starts_with(&href, "javascript:") {
                let link = (html_text(&inner), absolute_url(base, &href));
                links.push(link);
                proof {
                    assert(deep(links@) == before.push(link.deep_view()));
                }
            }
        }
        proof {
            assert(with_link(html@, base@, start as int, open as int, close as int, before)
                == Some(deep(links@)));
            assert(deep(links@).len() == links@.len());
        }
        if links.len() >= MAX_LINKS {
            done = true;
        } else {
            cursor = close + 4;
        }
    }
    links
}

// ---- options ----

/// How many options of a page are read.
pub const MAX_OPTIONS: usize = 100;

/// An option of a list on a page.
pub open spec fn option_json(text: Seq<char>, value: Seq<char>, index: nat) -> JsonModel {
    JsonModel::Object(
        seq![
            ("text"@, JsonModel::Str(text)),
            ("value"@, JsonModel::Str(value)),
            ("index"@, num(index)),
        ],
    )
}

/// The options of a page from the place `from` in its lower case on, behind those that were found.
/// Where the page cannot be cut around an option no more are read.
pub open spec fn options_from(html: Seq<char>, from: int, found: Seq<JsonModel>) -> Seq<JsonModel>
    decreases lowercase(html).len() - from,
{
    let low = lowercase(html);
    match find_from(low, "<option"@, from) {
        None => found,
        Some(start) => {
            let open = next_char(low, '>', start);
            if open >= low.len() {
                found
            } else {
                match find_from(low, "</option>"@, open + 1) {
                    None => found,
                    Some(close) => match (
                        carried_slice(html, start, open + 1),
                        carried_slice(html, open + 1, close),
                    ) {
                        (Some(fragment), Some(inner)) => {
                            let value = match tag_attribute(fragment, "value"@) {
                                Some(value) => value,
                                None => Seq::empty(),
                            };
                            let next = found.push(
                                option_json(page_text(inner), value, found.len()),
                            );
                            if next.len() >= MAX_OPTIONS || !(0 <= from <= start <= open < close
                                && close + 9 <= low.len()) {
                                next
                            } else {
                                options_from(html, close + 9, next)
                            }
                        },
                        _ => found,
                    },
                }
            }
        },
    }
}

/// The options of the lists on a page.
#[verifier::opaque]
pub open spec fn page_options(html: Seq<char>) -> Seq<JsonModel> {
    options_from(html, 0, Seq::empty())
}

/// The options of the lists on a page.
pub fn html_select_options(html: &str) -> (r: Vec<Json>)
    ensures
        deep(r@) == page_options(html@),
{
    let page = Lowered::new(html);
    let n = page.low.len();
    let opening = chars_of("<option");
    let closing = chars_of("</option>");
    let mut options: Vec<Json> = Vec::new();
    let mut cursor: usize = 0;
    proof {
        reveal_strlit("<option");
        reveal_strlit("</option>");
        assert(deep(options@) =~= Seq::<JsonModel>::empty());
    }
    let ghost wanted = page_options(html@);
    proof {
        reveal(page_options);
    }
    let mut done = false;
    while !done
        invariant
            page.wf(),
            page.chars@ == html@,
            n == page.low@.len(),
            opening@ == "<option"@,
            closing@ == "</option>"@,
            closing@.len() == 9,
            opening@.len() == 7,
            cursor <= n,
            !done ==> options_from(html@, cursor as int, deep(options@)) == wanted,
            done ==> deep(options@) == wanted,
        decreases (if done { 0int } else { 1 + n - cursor }),
    {
        proof {
            lemma_find_from(page.low@, opening@, cursor as int);
        }
        let start = match find(&page.low, &opening, cursor) {
            Some(start) => start,
            None => {
                done = true;
                continue;
            },
        };
        let open = index_of(&page.low, '>', start);
        proof {
            lemma_next_char(page.low@, '>', start as int);
        }
        if open >= n {
            done = true;
            continue;
        }
        proof {
            lemma_find_from(page.low@, closing@, open + 1);
        }
        let close = match find(&page.low, &closing, open + 1) {
            Some(close) => close,
            None => {
                done = true;
                continue;
            },
        };
        let fragment = match page.slice(start, open + 1) {
            Some(fragment) => fragment,
            None => {
                done = true;
                continue;
            },
        };
        let inner = match page.slice(open + 1, close) {
            Some(inner) => inner,
            None => {
                done = true;
                continue;
            },
        };
        let value = match html_attribute(&fragment, "value") {
            Some(value) => value,
            None => String::new(),
        };
        let text = html_text(&inner);
        let index: u64 = options.len() as u64;
        let ghost before = deep(options@);
        proof {
            assert(before.len() == options@.len());
        }
        let members = Members::new().with("text", Json::string(&text)).with(
            "value",
            Json::string(&value),
        ).with("index", Json::number(index));
        proof {
            assert(members.model() =~= option_json(text@, value@, index as nat)->Object_0);
        }
        let option = members.object();
        options.push(option);
        proof {
            assert(deep(options@) == before.push(option.deep_view()));
            assert(deep(options@).len() == options@.len());
        }
        if options.len() >= MAX_OPTIONS {
            done = true;
        } else {
            cursor = close + 9;
        }
    }
    options
}

// ---- URLs ----

/// Whether a byte stands for itself in a URL.
pub open spec fn is_unreserved(b: u8) -> bool {
    (65 <= b && b <= 90) || (97 <= b && b <= 122) || (48 <= b && b <= 57) || b == 45 || b == 95 || b
        == 46 || b == 126
}

/// The character of a hexadecimal digit in upper case.
pub open spec fn upper_hex(d: nat) -> char {
    if d < 10 {
        (48 + d) as u8 as char
    } else {
        (55 + d) as u8 as char
    }
}

/// Bytes as they are written in a URL.
pub open spec fn percent_encoded(bytes: Seq<u8>) -> Seq<char>
    decreases bytes.len(),
{
    if bytes.len() == 0 {
        Seq::empty()
    } else {
        let head = percent_encoded(bytes.drop_last());
        let b = bytes.last();
        if is_unreserved(b) {
            head.push(b as char)
        } else {
            head + seq!['%', upper_hex((b / 16) as nat), upper_hex((b % 16) as nat)]
        }
    }
}

fn hex_char(d: u8) -> (r: char)
    requires
        d < 16,
    ensures
        r == upper_hex(d as nat),
{
    if d < 10 {
        (48 + d) as char
    } else {
        (55 + d) as char
    }
}

/// A text as it is written in a URL.
pub fn percent_encode(value: &str) -> (r: String)
    ensures
        r@ == percent_encoded(vstd::utf8::encode_utf8(value@)),
{
    let bytes = value.as_bytes();
    let mut out: Vec<char> = Vec::new();
    let mut i: usize = 0;
    proof {
        assert(bytes@.take(0) =~= Seq::<u8>::empty());
    }
    while i < bytes.len()
        invariant
            i <= bytes@.len(),
            out@ == percent_encoded(bytes@.take(i as int)),
        decreases bytes@.len() - i,
    {
        let b = bytes[i];
        let ghost before = out@;
        proof {
            assert(bytes@.take(i + 1).drop_last() =~= bytes@.take(i as int));
            assert(bytes@.take(i + 1).last() == b);
        }
        if (65 <= b && b <= 90) || (97 <= b && b <= 122) || (48 <= b && b <= 57) || b == 45 || b
            == 95 || b == 46 || b == 126 {
            out.push(b as char);
        } else {
            out.push('%');
            out.push(hex_char(b / 16));
            out.push(hex_char(b % 16));
            proof {
                assert(out@ =~= before + seq![
                    '%',
                    upper_hex((b / 16) as nat),
                    upper_hex((b % 16) as nat),
                ]);
            }
        }
        i += 1;
    }
    proof {
        assert(bytes@.take(bytes@.len() as int) =~= bytes@);
    }
    string_of(&out)
}

} // verus!
