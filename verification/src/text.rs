//! Text as a sequence of characters.
//!
//! The functions of this library are specified over `Seq<char>`. This module holds the few
//! operations on text that they share, each with a direct description of its result.

use vstd::prelude::*;
use vstd::utf8::{decode_utf8, encode_utf8, is_ascii_chars, valid_utf8};

use crate::deep::{deep, group_deep};

verus! {

broadcast use group_deep;

/// Appending a character to a `String`: `String::push` adds it behind the last one.
pub assume_specification[ String::push ](s: &mut String, c: char)
    ensures
        final(s)@ == old(s)@.push(c),
;

/// What can be handed over as owned text.
pub trait Text: Sized {
    /// The characters of the text.
    spec fn chars(&self) -> Seq<char>;

    /// The text as an owned string.
    fn into_text(self) -> (s: String)
        ensures
            s@ == self.chars(),
    ;
}

impl Text for String {
    open spec fn chars(&self) -> Seq<char> {
        self@
    }

    fn into_text(self) -> (s: String) {
        self
    }
}

impl Text for &str {
    open spec fn chars(&self) -> Seq<char> {
        self@
    }

    fn into_text(self) -> (s: String) {
        self.to_owned()
    }
}

/// Whether two texts hold the same characters.
pub fn same(a: &str, b: &str) -> (r: bool)
    ensures
        r == (a@ == b@),
{
    a.to_owned() == b.to_owned()
}

/// Whether an optional text is present and holds the characters of `b`.
pub fn is_some_text(a: &Option<String>, b: &str) -> (r: bool)
    ensures
        r == (a.deep_view() == Some(b@)),
{
    match a {
        Some(text) => same(text, b),
        None => false,
    }
}

/// A copy of an optional string.
pub fn copy_option(a: &Option<String>) -> (r: Option<String>)
    ensures
        r == *a,
{
    match a {
        Some(text) => Some(text.clone()),
        None => None,
    }
}

/// Whether two optional texts are the same.
pub fn same_option(a: &Option<String>, b: &Option<String>) -> (r: bool)
    ensures
        r == (a.deep_view() == b.deep_view()),
{
    match (a, b) {
        (Some(x), Some(y)) => same(x, y),
        (None, None) => true,
        _ => false,
    }
}

/// Whether two lists of texts are the same.
pub fn same_strings(a: &Vec<String>, b: &Vec<String>) -> (r: bool)
    ensures
        r == (deep(a@) == deep(b@)),
{
    if a.len() != b.len() {
        proof {
            assert(deep(a@).len() != deep(b@).len());
        }
        return false;
    }
    let mut i: usize = 0;
    while i < a.len()
        invariant
            i <= a@.len(),
            a@.len() == b@.len(),
            forall|j: int| 0 <= j < i ==> deep(a@)[j] == deep(b@)[j],
        decreases a@.len() - i,
    {
        if !same(&a[i], &b[i]) {
            proof {
                assert(deep(a@)[i as int] != deep(b@)[i as int]);
            }
            return false;
        }
        i += 1;
    }
    proof {
        assert(deep(a@) =~= deep(b@));
    }
    true
}

/// Whether `items` holds the text `x`.
pub fn contains_text(items: &[String], x: &str) -> (r: bool)
    ensures
        r == deep(items@).contains(x@),
{
    let mut i: usize = 0;
    while i < items.len()
        invariant
            i <= items@.len(),
            forall|j: int| 0 <= j < i ==> deep(items@)[j] != x@,
        decreases items@.len() - i,
    {
        if same(&items[i], x) {
            proof {
                assert(deep(items@)[i as int] == x@);
            }
            return true;
        }
        i += 1;
    }
    false
}

/// The characters of a text, as a vector.
pub fn chars_of(s: &str) -> (v: Vec<char>)
    ensures
        v@ == s@,
{
    let mut v: Vec<char> = Vec::new();
    for c in it: s.chars()
        invariant
            v@ == s@.take(it.index() as int),
            it.seq() == s@,
    {
        v.push(c);
        proof {
            assert(s@.take(it.index() + 1) =~= s@.take(it.index() as int).push(
                s@[it.index() as int],
            ));
        }
    }
    proof {
        assert(s@.take(s@.len() as int) =~= s@);
    }
    v
}

/// The text made of the characters from `from` up to, but not including, `to`.
pub fn substring(chars: &[char], from: usize, to: usize) -> (s: String)
    requires
        from <= to <= chars@.len(),
    ensures
        s@ == chars@.subrange(from as int, to as int),
{
    let mut s = String::new();
    let mut i: usize = from;
    while i < to
        invariant
            from <= i <= to <= chars@.len(),
            s@ == chars@.subrange(from as int, i as int),
        decreases to - i,
    {
        s.push(chars[i]);
        i += 1;
        proof {
            assert(chars@.subrange(from as int, i as int) =~= chars@.subrange(
                from as int,
                i - 1,
            ).push(chars@[i - 1]));
        }
    }
    s
}

/// The text made of `chars`.
pub fn string_of(chars: &[char]) -> (s: String)
    ensures
        s@ == chars@,
{
    let s = substring(chars, 0, chars.len());
    proof {
        assert(chars@.subrange(0, chars@.len() as int) =~= chars@);
    }
    s
}

/// Adds the characters of `tail` to `v`.
pub fn push_text(v: &mut Vec<char>, tail: &str)
    ensures
        final(v)@ == old(v)@ + tail@,
{
    let ghost start = v@;
    for c in it: tail.chars()
        invariant
            v@ == start + tail@.take(it.index() as int),
            it.seq() == tail@,
    {
        v.push(c);
        proof {
            assert(start + tail@.take(it.index() + 1) =~= (start + tail@.take(
                it.index() as int,
            )).push(tail@[it.index() as int]));
        }
    }
    proof {
        assert(tail@.take(tail@.len() as int) =~= tail@);
    }
}

// ---- white space ----

/// The characters with the Unicode property `White_Space`.
pub open spec fn is_space(c: char) -> bool {
    let n = c as u32;
    ||| 0x09 <= n <= 0x0d
    ||| n == 0x20
    ||| n == 0x85
    ||| n == 0xa0
    ||| n == 0x1680
    ||| 0x2000 <= n <= 0x200a
    ||| n == 0x2028
    ||| n == 0x2029
    ||| n == 0x202f
    ||| n == 0x205f
    ||| n == 0x3000
}

/// Whether `c` is white space.
pub fn is_whitespace(c: char) -> (r: bool)
    ensures
        r == is_space(c),
{
    let n: u32 = c as u32;
    (0x09 <= n && n <= 0x0d) || n == 0x20 || n == 0x85 || n == 0xa0 || n == 0x1680 || (0x2000 <= n
        && n <= 0x200a) || n == 0x2028 || n == 0x2029 || n == 0x202f || n == 0x205f || n == 0x3000
}

/// The text without the white space in front of it.
pub open spec fn trim_start(s: Seq<char>) -> Seq<char>
    decreases s.len(),
{
    if s.len() > 0 && is_space(s.first()) {
        trim_start(s.drop_first())
    } else {
        s
    }
}

/// The text without the white space behind it.
pub open spec fn trim_end(s: Seq<char>) -> Seq<char>
    decreases s.len(),
{
    if s.len() > 0 && is_space(s.last()) {
        trim_end(s.drop_last())
    } else {
        s
    }
}

/// The text without the white space around it.
pub open spec fn trimmed(s: Seq<char>) -> Seq<char> {
    trim_end(trim_start(s))
}

/// Whether there is nothing but white space.
pub open spec fn is_blank(s: Seq<char>) -> bool {
    forall|i: int| 0 <= i < s.len() ==> is_space(#[trigger] s[i])
}

pub proof fn lemma_blank_trim(s: Seq<char>)
    ensures
        (trimmed(s).len() == 0) == is_blank(s),
{
    lemma_trim_start_len(s);
    lemma_trim_end_len(trim_start(s));
    if trim_start(s).len() > 0 {
        lemma_trim_start_first(s);
        let t = trim_start(s);
        if trim_end(t).len() == 0 {
            lemma_trim_end_empty(t);
            assert(is_space(t[0]));
        }
    }
}

proof fn lemma_trim_start_len(s: Seq<char>)
    ensures
        (trim_start(s).len() == 0) == is_blank(s),
    decreases s.len(),
{
    if s.len() > 0 && is_space(s.first()) {
        lemma_trim_start_len(s.drop_first());
        assert forall|i: int| 0 <= i < s.len() && is_blank(s.drop_first()) implies is_space(
            #[trigger] s[i],
        ) by {
            if i > 0 {
                assert(s[i] == s.drop_first()[i - 1]);
            }
        }
        if is_blank(s) {
            assert forall|i: int| 0 <= i < s.drop_first().len() implies is_space(
                #[trigger] s.drop_first()[i],
            ) by {
                assert(s.drop_first()[i] == s[i + 1]);
            }
        }
    } else if s.len() > 0 {
        assert(!is_space(s[0]));
    }
}

proof fn lemma_trim_start_first(s: Seq<char>)
    ensures
        trim_start(s).len() > 0 ==> !is_space(trim_start(s)[0]),
    decreases s.len(),
{
    if s.len() > 0 && is_space(s.first()) {
        lemma_trim_start_first(s.drop_first());
    }
}

proof fn lemma_trim_end_len(s: Seq<char>)
    ensures
        trim_end(s).len() <= s.len(),
    decreases s.len(),
{
    if s.len() > 0 && is_space(s.last()) {
        lemma_trim_end_len(s.drop_last());
    }
}

proof fn lemma_trim_end_empty(s: Seq<char>)
    requires
        trim_end(s).len() == 0,
    ensures
        is_blank(s),
    decreases s.len(),
{
    if s.len() > 0 {
        lemma_trim_end_empty(s.drop_last());
        assert forall|i: int| 0 <= i < s.len() implies is_space(#[trigger] s[i]) by {
            if i < s.len() - 1 {
                assert(s[i] == s.drop_last()[i]);
            }
        }
    }
}

/// Where the text that `trim` keeps begins and ends.
pub fn trim_bounds(v: &[char]) -> (r: (usize, usize))
    ensures
        r.0 <= r.1 <= v@.len(),
        v@.subrange(r.0 as int, r.1 as int) == trimmed(v@),
{
    let mut a: usize = 0;
    proof {
        assert(v@.skip(0) =~= v@);
    }
    while a < v.len() && is_whitespace(v[a])
        invariant
            a <= v@.len(),
            trim_start(v@.skip(a as int)) == trim_start(v@),
        decreases v@.len() - a,
    {
        proof {
            assert(v@.skip(a as int).drop_first() =~= v@.skip(a + 1));
            assert(v@.skip(a as int).first() == v@[a as int]);
        }
        a += 1;
    }
    proof {
        if a < v@.len() {
            assert(v@.skip(a as int).first() == v@[a as int]);
        }
        assert(trim_start(v@) == v@.skip(a as int));
        assert(v@.skip(a as int) =~= v@.subrange(a as int, v@.len() as int));
    }
    let mut b: usize = v.len();
    while b > a && is_whitespace(v[b - 1])
        invariant
            a <= b <= v@.len(),
            trim_end(v@.subrange(a as int, b as int)) == trimmed(v@),
        decreases b,
    {
        proof {
            assert(v@.subrange(a as int, b as int).drop_last() =~= v@.subrange(a as int, b - 1));
            assert(v@.subrange(a as int, b as int).last() == v@[b - 1]);
        }
        b -= 1;
    }
    proof {
        if b > a {
            assert(v@.subrange(a as int, b as int).last() == v@[b - 1]);
        }
    }
    (a, b)
}

/// The text without the white space around it.
pub fn trim(s: &str) -> (r: String)
    ensures
        r@ == trimmed(s@),
{
    let v = chars_of(s);
    let (a, b) = trim_bounds(&v);
    substring(&v, a, b)
}

/// Whether a text holds nothing but white space.
pub fn blank(s: &str) -> (r: bool)
    ensures
        r == is_blank(s@),
        r == (trimmed(s@).len() == 0),
{
    proof {
        lemma_blank_trim(s@);
    }
    let v = chars_of(s);
    let ghost empty = trimmed(s@).len() == 0;
    let mut i: usize = 0;
    while i < v.len()
        invariant
            i <= v@.len(),
            v@ == s@,
            empty == (trimmed(s@).len() == 0),
            empty == is_blank(s@),
            forall|j: int| 0 <= j < i ==> is_space(#[trigger] v@[j]),
        decreases v@.len() - i,
    {
        if !is_whitespace(v[i]) {
            proof {
                assert(!is_space(s@[i as int]));
            }
            return false;
        }
        i += 1;
    }
    true
}

// ---- letters ----

/// The lower case of an ASCII letter; any other character stays.
pub open spec fn lower(c: char) -> char {
    if 'A' <= c && c <= 'Z' {
        (c as u8 + 32) as u8 as char
    } else {
        c
    }
}

/// The text with its ASCII letters in lower case.
pub open spec fn lowered(s: Seq<char>) -> Seq<char> {
    s.map_values(|c: char| lower(c))
}

pub fn ascii_lower(c: char) -> (r: char)
    ensures
        r == lower(c),
{
    if 'A' <= c && c <= 'Z' {
        (c as u8 + 32) as char
    } else {
        c
    }
}

/// The text with its ASCII letters in lower case.
pub fn to_ascii_lower(s: &str) -> (r: String)
    ensures
        r@ == lowered(s@),
{
    let v = chars_of(s);
    let mut r = String::new();
    let mut i: usize = 0;
    while i < v.len()
        invariant
            i <= v@.len(),
            v@ == s@,
            r@.len() == i,
            forall|j: int| 0 <= j < i ==> #[trigger] r@[j] == lower(s@[j]),
        decreases v@.len() - i,
    {
        r.push(ascii_lower(v[i]));
        i += 1;
    }
    proof {
        assert(r@ =~= lowered(s@));
    }
    r
}

/// Whether two texts differ at most in the case of ASCII letters.
pub fn same_ignoring_case(a: &str, b: &str) -> (r: bool)
    ensures
        r == (lowered(a@) == lowered(b@)),
{
    let x = to_ascii_lower(a);
    let y = to_ascii_lower(b);
    same(&x, &y)
}

/// Whether `c` is an ASCII letter or digit.
pub open spec fn is_alnum(c: char) -> bool {
    ('0' <= c && c <= '9') || ('a' <= c && c <= 'z') || ('A' <= c && c <= 'Z')
}

pub fn ascii_alnum(c: char) -> (r: bool)
    ensures
        r == is_alnum(c),
{
    ('0' <= c && c <= '9') || ('a' <= c && c <= 'z') || ('A' <= c && c <= 'Z')
}

/// The text in lower case, as `str::to_lowercase` gives it. It depends on the text alone.
pub uninterp spec fn unicode_lowercase(s: Seq<char>) -> Seq<char>;

/// `str::to_lowercase`: the lower case of a text by the rules of Unicode. Of a text that holds
/// ASCII characters alone it puts the letters in lower case, and leaves the others.
#[verifier::external_body]
fn unicode_lower(s: &str) -> (r: String)
    ensures
        r@ == unicode_lowercase(s@),
        is_ascii_chars(s@) ==> r@ == lowered(s@),
{
    s.to_lowercase()
}

/// The text in lower case.
pub open spec fn lowercase(s: Seq<char>) -> Seq<char> {
    if is_ascii_chars(s) {
        lowered(s)
    } else {
        unicode_lowercase(s)
    }
}

/// The text in lower case.
pub(crate) fn to_lowercase(s: &str) -> (r: String)
    ensures
        r@ == lowercase(s@),
{
    unicode_lower(s)
}

/// What `String::from_utf8_lossy` reads from bytes.
pub uninterp spec fn lossy_text(bytes: Seq<u8>) -> Seq<char>;

/// `String::from_utf8_lossy`: the text depends on the bytes alone, and where the bytes are UTF-8
/// it is the text that they encode. How other bytes are shown is not said.
#[verifier::external_body]
pub(crate) fn read_lossy(bytes: &[u8]) -> (r: String)
    ensures
        r@ == lossy_text(bytes@),
        valid_utf8(bytes@) ==> r@ == decode_utf8(bytes@),
{
    String::from_utf8_lossy(bytes).into_owned()
}

// ---- parts of a text ----

/// Whether `s` begins with `p`.
pub open spec fn begins_with(s: Seq<char>, p: Seq<char>) -> bool {
    p.len() <= s.len() && s.take(p.len() as int) == p
}

/// Whether `s` ends with `p`.
pub open spec fn finishes_with(s: Seq<char>, p: Seq<char>) -> bool {
    p.len() <= s.len() && s.skip(s.len() - p.len()) == p
}

/// Whether `p` stands in `s` at `i`.
pub open spec fn occurs_at(s: Seq<char>, p: Seq<char>, i: int) -> bool {
    0 <= i && i + p.len() <= s.len() && s.subrange(i, i + p.len()) == p
}

/// The first place at or behind `from` where `p` stands in `s`.
pub open spec fn find_from(s: Seq<char>, p: Seq<char>, from: int) -> Option<int>
    decreases s.len() + 1 - from,
{
    if from + p.len() > s.len() {
        None
    } else if occurs_at(s, p, from) {
        Some(from)
    } else {
        find_from(s, p, from + 1)
    }
}

/// Whether `p` stands somewhere in `s`.
pub open spec fn has_part(s: Seq<char>, p: Seq<char>) -> bool {
    exists|i: int| occurs_at(s, p, i)
}

/// The first place is a place, and there is none before it.
pub proof fn lemma_find_from(s: Seq<char>, p: Seq<char>, from: int)
    requires
        0 <= from,
    ensures
        match find_from(s, p, from) {
            Some(i) => from <= i && occurs_at(s, p, i) && forall|j: int|
                from <= j < i ==> !occurs_at(s, p, j),
            None => forall|j: int| from <= j ==> !occurs_at(s, p, j),
        },
    decreases s.len() + 1 - from,
{
    if from + p.len() <= s.len() && !occurs_at(s, p, from) {
        lemma_find_from(s, p, from + 1);
    }
}

/// Whether `p` stands in `s` at `i`.
pub fn part_at(s: &[char], p: &[char], i: usize) -> (r: bool)
    requires
        i <= s@.len(),
    ensures
        r == occurs_at(s@, p@, i as int),
{
    if p.len() > s.len() - i {
        return false;
    }
    let mut k: usize = 0;
    while k < p.len()
        invariant
            k <= p@.len(),
            i + p@.len() <= s@.len() <= usize::MAX,
            forall|j: int| 0 <= j < k ==> s@[i + j] == #[trigger] p@[j],
        decreases p@.len() - k,
    {
        if s[i + k] != p[k] {
            proof {
                assert(s@.subrange(i as int, i + p@.len())[k as int] != p@[k as int]);
            }
            return false;
        }
        k += 1;
    }
    proof {
        assert(s@.subrange(i as int, i + p@.len()) =~= p@);
    }
    true
}

/// The first place at or behind `from` where `p` stands in `s`.
pub fn find(s: &[char], p: &[char], from: usize) -> (r: Option<usize>)
    requires
        from <= s@.len(),
    ensures
        match r {
            Some(i) => find_from(s@, p@, from as int) == Some(i as int) && i + p@.len() <= s@.len(),
            None => find_from(s@, p@, from as int) is None,
        },
{
    let mut i: usize = from;
    while p.len() <= s.len() - i
        invariant
            from <= i <= s@.len(),
            find_from(s@, p@, from as int) == find_from(s@, p@, i as int),
        decreases s@.len() - i,
    {
        if part_at(s, p, i) {
            return Some(i);
        }
        if i == s.len() {
            proof {
                assert(s@.subrange(i as int, i as int) =~= p@);
            }
            return None;
        }
        i += 1;
    }
    None
}

/// Whether `p` stands somewhere in `s`.
pub fn contains(s: &str, p: &str) -> (r: bool)
    ensures
        r == has_part(s@, p@),
{
    let a = chars_of(s);
    let b = chars_of(p);
    proof {
        lemma_find_from(s@, p@, 0);
    }
    find(&a, &b, 0).is_some()
}

/// Whether `s` begins with `p`.
pub fn starts_with(s: &str, p: &str) -> (r: bool)
    ensures
        r == begins_with(s@, p@),
{
    let a = chars_of(s);
    let b = chars_of(p);
    proof {
        assert(s@.subrange(0, p@.len() as int) =~= s@.take(p@.len() as int));
    }
    part_at(&a, &b, 0)
}

/// Whether `s` ends with `p`.
pub fn ends_with(s: &str, p: &str) -> (r: bool)
    ensures
        r == finishes_with(s@, p@),
{
    let a = chars_of(s);
    let b = chars_of(p);
    if b.len() > a.len() {
        return false;
    }
    proof {
        let n = s@.len() - p@.len();
        assert(s@.subrange(n, n + p@.len()) =~= s@.skip(n));
    }
    part_at(&a, &b, a.len() - b.len())
}

/// What follows `p` at the beginning of `s`, if `s` begins with `p`.
pub fn after_prefix(s: &str, p: &str) -> (r: Option<String>)
    ensures
        match r {
            Some(rest) => begins_with(s@, p@) && rest@ == s@.skip(p@.len() as int),
            None => !begins_with(s@, p@),
        },
{
    if !starts_with(s, p) {
        return None;
    }
    let a = chars_of(s);
    let b = chars_of(p);
    let rest = substring(&a, b.len(), a.len());
    proof {
        assert(rest@ =~= s@.skip(p@.len() as int));
    }
    Some(rest)
}

/// At most the first `limit` characters.
pub open spec fn first_chars(s: Seq<char>, limit: nat) -> Seq<char> {
    if s.len() <= limit {
        s
    } else {
        s.take(limit as int)
    }
}

/// At most the first `limit` characters.
pub fn take_chars(s: &str, limit: usize) -> (r: String)
    ensures
        r@ == first_chars(s@, limit as nat),
{
    let v = chars_of(s);
    if v.len() <= limit {
        return string_of(&v);
    }
    let r = substring(&v, 0, limit);
    proof {
        assert(r@ =~= s@.take(limit as int));
    }
    r
}

/// The text, or its first `limit` characters and a note where there are more.
pub open spec fn noted(s: Seq<char>, limit: nat, note: Seq<char>) -> Seq<char> {
    if s.len() <= limit {
        s
    } else {
        s.take(limit as int) + note
    }
}

/// The text, or its first `limit` characters and a note where there are more.
pub fn take_noted(s: &str, limit: usize, note: &str) -> (r: String)
    ensures
        r@ == noted(s@, limit as nat, note@),
{
    let v = chars_of(s);
    if v.len() <= limit {
        return string_of(&v);
    }
    let mut r = substring(&v, 0, limit);
    r.append(note);
    proof {
        assert(r@ =~= s@.take(limit as int) + note@);
    }
    r
}

// ---- lines ----

/// The place of the first `c` at or behind `from`; the length where there is none.
pub open spec fn next_char(s: Seq<char>, c: char, from: int) -> int
    decreases s.len() - from,
{
    if from >= s.len() {
        s.len() as int
    } else if s[from] == c {
        from
    } else {
        next_char(s, c, from + 1)
    }
}

pub proof fn lemma_next_char(s: Seq<char>, c: char, from: int)
    requires
        0 <= from <= s.len(),
    ensures
        from <= next_char(s, c, from) <= s.len(),
        next_char(s, c, from) < s.len() ==> s[next_char(s, c, from)] == c,
        forall|j: int| from <= j < next_char(s, c, from) ==> s[j] != c,
    decreases s.len() - from,
{
    if from < s.len() && s[from] != c {
        lemma_next_char(s, c, from + 1);
    }
}

/// The place of the first `c` at or behind `from`; the length where there is none.
pub fn index_of(v: &[char], c: char, from: usize) -> (r: usize)
    requires
        from <= v@.len(),
    ensures
        r == next_char(v@, c, from as int),
        from <= r <= v@.len(),
{
    let mut i: usize = from;
    while i < v.len() && v[i] != c
        invariant
            from <= i <= v@.len(),
            next_char(v@, c, from as int) == next_char(v@, c, i as int),
        decreases v@.len() - i,
    {
        i += 1;
    }
    i
}

/// A line without the carriage return that belongs to its line ending.
pub open spec fn without_return(line: Seq<char>) -> Seq<char> {
    if line.len() > 0 && line.last() == '\r' {
        line.drop_last()
    } else {
        line
    }
}

/// The lines of `s` from the place `from` on. A line ends with a line feed or with a carriage
/// return and a line feed; the last line may lack its ending.
pub open spec fn lines_from(s: Seq<char>, from: int) -> Seq<Seq<char>>
    decreases s.len() - from,
{
    if from < 0 || from >= s.len() {
        Seq::empty()
    } else {
        let end = next_char(s, '\n', from);
        if end >= s.len() {
            seq![s.skip(from)]
        } else if end < from {
            Seq::empty()
        } else {
            seq![without_return(s.subrange(from, end))] + lines_from(s, end + 1)
        }
    }
}

/// The lines of a text.
pub open spec fn lines_of(s: Seq<char>) -> Seq<Seq<char>> {
    lines_from(s, 0)
}

/// The lines of a text, without their endings.
pub fn lines(s: &str) -> (r: Vec<String>)
    ensures
        deep(r@) == lines_of(s@),
{
    let v = chars_of(s);
    let mut r: Vec<String> = Vec::new();
    let mut from: usize = 0;
    while from < v.len()
        invariant
            v@ == s@,
            from <= v@.len(),
            deep(r@) + lines_from(s@, from as int) == lines_of(s@),
        decreases v@.len() - from,
    {
        let end = index_of(&v, '\n', from);
        if end >= v.len() {
            let line = substring(&v, from, v.len());
            let ghost before = deep(r@);
            r.push(line);
            proof {
                assert(line@ =~= s@.skip(from as int));
                assert(before + seq![s@.skip(from as int)] =~= before.push(line@));
            }
            return r;
        }
        let stop: usize = if end > from && v[end - 1] == '\r' {
            end - 1
        } else {
            end
        };
        let line = substring(&v, from, stop);
        let ghost before = deep(r@);
        let ghost start = from as int;
        r.push(line);
        proof {
            assert(line@ =~= without_return(s@.subrange(start, end as int)));
            assert(before + (seq![line@] + lines_from(s@, end + 1)) =~= before.push(line@)
                + lines_from(s@, end + 1));
        }
        from = end + 1;
    }
    proof {
        assert(deep(r@) + Seq::<Seq<char>>::empty() =~= deep(r@));
    }
    r
}

/// The parts with `sep` between each two.
pub open spec fn joined(parts: Seq<Seq<char>>, sep: Seq<char>) -> Seq<char>
    decreases parts.len(),
{
    if parts.len() == 0 {
        Seq::empty()
    } else if parts.len() == 1 {
        parts[0]
    } else {
        joined(parts.drop_last(), sep) + sep + parts.last()
    }
}

/// The parts with `sep` between each two.
pub fn join(parts: &[String], sep: &str) -> (r: String)
    ensures
        r@ == joined(deep(parts@), sep@),
{
    let mut r = String::new();
    let mut i: usize = 0;
    while i < parts.len()
        invariant
            i <= parts@.len(),
            r@ == joined(deep(parts@).take(i as int), sep@),
        decreases parts@.len() - i,
    {
        if i > 0 {
            r.append(sep);
        }
        r.append(&parts[i]);
        i += 1;
        proof {
            assert(deep(parts@).take(i as int).drop_last() =~= deep(parts@).take(i - 1));
            if i == 1 {
                assert(Seq::<char>::empty() + parts@[0]@ =~= parts@[0]@);
            }
        }
    }
    proof {
        assert(deep(parts@).take(parts@.len() as int) =~= deep(parts@));
    }
    r
}

// ---- splitting ----

/// The parts of `s` between the characters `c`, from the place `from` on. There is always one
/// part more than there are such characters.
pub open spec fn split_from(s: Seq<char>, c: char, from: int) -> Seq<Seq<char>>
    decreases s.len() - from,
{
    let end = next_char(s, c, from);
    if from < 0 || end < from || end >= s.len() {
        seq![s.skip(from)]
    } else {
        seq![s.subrange(from, end)] + split_from(s, c, end + 1)
    }
}

/// The parts of `s` between the characters `c`.
pub open spec fn split_on(s: Seq<char>, c: char) -> Seq<Seq<char>> {
    split_from(s, c, 0)
}

/// The parts of `s` between the characters `c`.
pub fn split(s: &str, c: char) -> (r: Vec<String>)
    ensures
        deep(r@) == split_on(s@, c),
        r@.len() > 0,
{
    let v = chars_of(s);
    let mut r: Vec<String> = Vec::new();
    let mut from: usize = 0;
    let mut end = index_of(&v, c, 0);
    while end < v.len()
        invariant
            v@ == s@,
            from <= end <= v@.len(),
            end == next_char(v@, c, from as int),
            deep(r@) + split_from(s@, c, from as int) == split_on(s@, c),
        decreases v@.len() - from,
    {
        let part = substring(&v, from, end);
        let ghost before = deep(r@);
        let ghost rest = split_from(s@, c, end + 1);
        r.push(part);
        proof {
            assert(before + (seq![part@] + rest) =~= before.push(part@) + rest);
        }
        from = end + 1;
        end = index_of(&v, c, from);
    }
    let part = substring(&v, from, v.len());
    let ghost before = deep(r@);
    r.push(part);
    proof {
        assert(part@ =~= s@.skip(from as int));
        assert(before + seq![part@] =~= before.push(part@));
    }
    r
}

/// A character may be replaced by another one.
pub open spec fn replaced_char(s: Seq<char>, a: char, b: char) -> Seq<char> {
    s.map_values(|c: char| if c == a { b } else { c })
}

/// The text with each `a` replaced by `b`.
pub fn replace_char(s: &str, a: char, b: char) -> (r: String)
    ensures
        r@ == replaced_char(s@, a, b),
{
    let v = chars_of(s);
    let mut r = String::new();
    let mut i: usize = 0;
    while i < v.len()
        invariant
            i <= v@.len(),
            v@ == s@,
            r@.len() == i,
            forall|j: int| 0 <= j < i ==> #[trigger] r@[j] == if s@[j] == a { b } else { s@[j] },
        decreases v@.len() - i,
    {
        r.push(
            if v[i] == a {
                b
            } else {
                v[i]
            },
        );
        i += 1;
    }
    proof {
        assert(r@ =~= replaced_char(s@, a, b));
    }
    r
}

/// The text without the characters of `set` around it.
pub open spec fn trim_set(s: Seq<char>, set: spec_fn(char) -> bool) -> Seq<char> {
    trim_set_end(trim_set_start(s, set), set)
}

pub open spec fn trim_set_start(s: Seq<char>, set: spec_fn(char) -> bool) -> Seq<char>
    decreases s.len(),
{
    if s.len() > 0 && set(s.first()) {
        trim_set_start(s.drop_first(), set)
    } else {
        s
    }
}

pub open spec fn trim_set_end(s: Seq<char>, set: spec_fn(char) -> bool) -> Seq<char>
    decreases s.len(),
{
    if s.len() > 0 && set(s.last()) {
        trim_set_end(s.drop_last(), set)
    } else {
        s
    }
}

/// The text without the characters `c` around it.
pub fn trim_char(s: &str, c: char) -> (r: String)
    ensures
        r@ == trim_set(s@, |x: char| x == c),
{
    let v = chars_of(s);
    let ghost set = |x: char| x == c;
    let mut a: usize = 0;
    proof {
        assert(v@.skip(0) =~= v@);
    }
    while a < v.len() && v[a] == c
        invariant
            a <= v@.len(),
            set == (|x: char| x == c),
            trim_set_start(v@.skip(a as int), set) == trim_set_start(v@, set),
        decreases v@.len() - a,
    {
        proof {
            assert(v@.skip(a as int).drop_first() =~= v@.skip(a + 1));
            assert(v@.skip(a as int).first() == v@[a as int]);
        }
        a += 1;
    }
    proof {
        if a < v@.len() {
            assert(v@.skip(a as int).first() == v@[a as int]);
        }
        assert(trim_set_start(v@, set) == v@.skip(a as int));
        assert(v@.skip(a as int) =~= v@.subrange(a as int, v@.len() as int));
    }
    let mut b: usize = v.len();
    while b > a && v[b - 1] == c
        invariant
            a <= b <= v@.len(),
            set == (|x: char| x == c),
            trim_set_end(v@.subrange(a as int, b as int), set) == trim_set(v@, set),
        decreases b,
    {
        proof {
            assert(v@.subrange(a as int, b as int).drop_last() =~= v@.subrange(a as int, b - 1));
            assert(v@.subrange(a as int, b as int).last() == v@[b - 1]);
        }
        b -= 1;
    }
    proof {
        if b > a {
            assert(v@.subrange(a as int, b as int).last() == v@[b - 1]);
        }
    }
    substring(&v, a, b)
}

/// How many bytes a text takes.
pub fn byte_len(s: &str) -> (r: usize)
    ensures
        r == encode_utf8(s@).len(),
{
    s.as_bytes().len()
}

/// The text without the characters `c` behind it.
pub open spec fn without_tail(s: Seq<char>, c: char) -> Seq<char>
    decreases s.len(),
{
    if s.len() > 0 && s.last() == c {
        without_tail(s.drop_last(), c)
    } else {
        s
    }
}

/// The text without the characters `c` behind it.
pub fn trim_tail(s: &str, c: char) -> (r: String)
    ensures
        r@ == without_tail(s@, c),
{
    let v = chars_of(s);
    let mut n: usize = v.len();
    proof {
        assert(v@.take(n as int) =~= v@);
    }
    while n > 0 && v[n - 1] == c
        invariant
            n <= v@.len(),
            v@ == s@,
            without_tail(s@, c) == without_tail(v@.take(n as int), c),
        decreases n,
    {
        proof {
            assert(v@.take(n as int).last() == v@[n - 1]);
            assert(v@.take(n as int).drop_last() =~= v@.take(n - 1));
        }
        n -= 1;
    }
    proof {
        if n > 0 {
            assert(v@.take(n as int).last() == v@[n - 1]);
        }
        assert(v@.subrange(0, n as int) =~= v@.take(n as int));
    }
    substring(&v, 0, n)
}

// ---- texts one behind the other ----

pub fn concat2(a: &str, b: &str) -> (r: String)
    ensures
        r@ == a@ + b@,
{
    let mut r = a.to_owned();
    r.append(b);
    r
}

pub fn concat3(a: &str, b: &str, c: &str) -> (r: String)
    ensures
        r@ == a@ + b@ + c@,
{
    let mut r = concat2(a, b);
    r.append(c);
    r
}

pub fn concat4(a: &str, b: &str, c: &str, d: &str) -> (r: String)
    ensures
        r@ == a@ + b@ + c@ + d@,
{
    let mut r = concat3(a, b, c);
    r.append(d);
    r
}

pub fn concat5(a: &str, b: &str, c: &str, d: &str, e: &str) -> (r: String)
    ensures
        r@ == a@ + b@ + c@ + d@ + e@,
{
    let mut r = concat4(a, b, c, d);
    r.append(e);
    r
}

// ---- words ----

/// The words of a text: its parts between white space.
pub open spec fn words(s: Seq<char>) -> Seq<Seq<char>>
    decreases s.len(),
{
    if s.len() == 0 {
        Seq::empty()
    } else {
        let head = words(s.drop_last());
        if is_space(s.last()) {
            head
        } else if s.len() == 1 || is_space(s[s.len() - 2]) {
            head.push(seq![s.last()])
        } else {
            head.drop_last().push(head.last().push(s.last()))
        }
    }
}

/// A text that does not end with white space has words.
proof fn lemma_words_nonempty(s: Seq<char>)
    requires
        s.len() > 0,
        !is_space(s.last()),
    ensures
        words(s).len() > 0,
    decreases s.len(),
{
    if s.len() > 1 && !is_space(s[s.len() - 2]) {
        lemma_words_nonempty(s.drop_last());
    }
}

/// The words of a text.
pub fn split_words(s: &str) -> (r: Vec<String>)
    ensures
        deep(r@) == words(s@),
{
    let v = chars_of(s);
    let mut r: Vec<String> = Vec::new();
    let mut i: usize = 0;
    proof {
        assert(s@.take(0) =~= Seq::<char>::empty());
        assert(deep(r@) =~= Seq::<Seq<char>>::empty());
    }
    while i < v.len()
        invariant
            v@ == s@,
            i <= v@.len(),
            deep(r@) == words(s@.take(i as int)),
        decreases v@.len() - i,
    {
        let c = v[i];
        let ghost head = s@.take(i as int);
        let ghost all = s@.take(i + 1);
        proof {
            assert(all.drop_last() =~= head);
            assert(all.last() == c);
            if i > 0 {
                assert(all[all.len() - 2] == s@[i - 1]);
                assert(head.last() == s@[i - 1]);
            }
        }
        if !is_whitespace(c) {
            if i == 0 || is_whitespace(v[i - 1]) {
                let mut word = String::new();
                word.push(c);
                proof {
                    assert(word@ =~= seq![c]);
                }
                r.push(word);
            } else {
                proof {
                    lemma_words_nonempty(head);
                    assert(deep(r@).len() == r@.len());
                }
                let ghost before = deep(r@);
                match r.pop() {
                    Some(last) => {
                        proof {
                            assert(last@ == before.last());
                            assert(deep(r@) =~= before.drop_last());
                        }
                        let mut word = last;
                        word.push(c);
                        r.push(word);
                    },
                    None => {},
                }
            }
        }
        i += 1;
    }
    proof {
        assert(s@.take(s@.len() as int) =~= s@);
    }
    r
}

/// The words of a text with one space between each two.
pub open spec fn squeezed(s: Seq<char>) -> Seq<char> {
    joined(words(s), " "@)
}

/// The words of a text with one space between each two.
pub fn squeeze(s: &str) -> (r: String)
    ensures
        r@ == squeezed(s@),
{
    join(&split_words(s), " ")
}

/// The text without the white space in front of it.
pub fn trim_front(s: &str) -> (r: String)
    ensures
        r@ == trim_start(s@),
{
    let v = chars_of(s);
    let mut a: usize = 0;
    proof {
        assert(v@.skip(0) =~= v@);
    }
    while a < v.len() && is_whitespace(v[a])
        invariant
            a <= v@.len(),
            v@ == s@,
            trim_start(v@.skip(a as int)) == trim_start(s@),
        decreases v@.len() - a,
    {
        proof {
            assert(v@.skip(a as int).drop_first() =~= v@.skip(a + 1));
            assert(v@.skip(a as int).first() == v@[a as int]);
        }
        a += 1;
    }
    proof {
        if a < v@.len() {
            assert(v@.skip(a as int).first() == v@[a as int]);
        }
        assert(v@.subrange(a as int, v@.len() as int) =~= v@.skip(a as int));
    }
    substring(&v, a, v.len())
}

} // verus!
