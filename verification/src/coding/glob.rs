//! Patterns for the names of files.

use vstd::prelude::*;
use vstd::utf8::encode_utf8;

use crate::deep::{deep, group_deep};
use crate::text::{
    after_prefix, begins_with, chars_of, index_of, lemma_next_char, replace_char, replaced_char,
    split, split_on, trim, trimmed,
};

verus! {

broadcast use group_deep;

pub const STAR: u8 = 42;

pub const QUESTION: u8 = 63;

pub const SLASH: u8 = 47;

/// Whether a byte of a pattern stands for the byte `b` alone: a question mark stands for any
/// byte, and any other byte but the slash for itself. A slash stands for nothing.
pub open spec fn byte_matches(p: u8, b: u8) -> bool {
    p == QUESTION || (p == b && p != SLASH)
}

/// Whether a pattern matches a value, from the places `pi` and `vi` on. A byte of the pattern
/// that stands for the next byte of the value is taken for it. Else a star stands for as few
/// bytes as it can: where the match fails behind it, it takes one more. `star` and `sv` are the
/// places of the last star and of the end of what it stands for; `sv` is -1 where there is none.
pub open spec fn matches_from(
    pattern: Seq<u8>,
    value: Seq<u8>,
    pi: int,
    vi: int,
    star: int,
    sv: int,
) -> bool
    decreases value.len() - sv, pattern.len() - pi,
{
    if !(0 <= pi <= pattern.len() && -1 <= sv <= vi && 0 <= vi <= value.len() && (sv >= 0 ==> 0
        <= star < pi)) {
        false
    } else if vi >= value.len() {
        forall|j: int| pi <= j < pattern.len() ==> #[trigger] pattern[j] == STAR
    } else if pi < pattern.len() && byte_matches(pattern[pi], value[vi]) {
        matches_from(pattern, value, pi + 1, vi + 1, star, sv)
    } else if pi < pattern.len() && pattern[pi] == STAR {
        matches_from(pattern, value, pi + 1, vi, pi, vi)
    } else if sv >= 0 {
        matches_from(pattern, value, star + 1, sv + 1, star, sv + 1)
    } else {
        false
    }
}

/// Whether a pattern matches a value.
pub open spec fn pattern_matches(pattern: Seq<u8>, value: Seq<u8>) -> bool {
    matches_from(pattern, value, 0, 0, 0, -1)
}

/// Whether a pattern matches a value that holds no star itself: a star of the pattern stands for
/// any bytes, also for none, and any other byte for one byte.
pub open spec fn wild(pattern: Seq<u8>, value: Seq<u8>) -> bool
    decreases pattern.len(), value.len(),
{
    if pattern.len() == 0 {
        value.len() == 0
    } else if pattern[0] == STAR {
        wild(pattern.skip(1), value) || (value.len() > 0 && wild(pattern, value.skip(1)))
    } else {
        value.len() > 0 && byte_matches(pattern[0], value[0]) && wild(
            pattern.skip(1),
            value.skip(1),
        )
    }
}

/// Whether `pattern` matches `value` with its first `k` bytes left out, for some `k` from `from`
/// on.
pub open spec fn wild_later(pattern: Seq<u8>, value: Seq<u8>, from: int) -> bool {
    exists|k: int| from <= k <= value.len() && #[trigger] wild(pattern, value.skip(k))
}

/// A star matches where the rest of the pattern matches at some later place.
proof fn lemma_star(pattern: Seq<u8>, value: Seq<u8>)
    requires
        pattern.len() > 0,
        pattern[0] == STAR,
    ensures
        wild(pattern, value) == wild_later(pattern.skip(1), value, 0),
    decreases value.len(),
{
    let rest = pattern.skip(1);
    assert(value.skip(0) =~= value);
    if value.len() > 0 {
        lemma_star(pattern, value.skip(1));
        if wild_later(rest, value.skip(1), 0) {
            let k = choose|k: int|
                0 <= k <= value.skip(1).len() && #[trigger] wild(rest, value.skip(1).skip(k));
            assert(value.skip(1).skip(k) =~= value.skip(k + 1));
            assert(wild(rest, value.skip(k + 1)));
        }
        if wild_later(rest, value, 0) && !wild(rest, value) {
            let k = choose|k: int| 0 <= k <= value.len() && #[trigger] wild(rest, value.skip(k));
            assert(value.skip(1).skip(k - 1) =~= value.skip(k));
            assert(wild(rest, value.skip(1).skip(k - 1)));
        }
        if wild(rest, value) {
            assert(wild(rest, value.skip(0)));
        }
    } else {
        if wild_later(rest, value, 0) {
            let k = choose|k: int| 0 <= k <= value.len() && #[trigger] wild(rest, value.skip(k));
            assert(k == 0);
        }
        if wild(rest, value) {
            assert(wild(rest, value.skip(0)));
        }
    }
}

/// What a part of a pattern without stars matches has its length.
proof fn lemma_plain_part(pattern: Seq<u8>, value: Seq<u8>, n: int)
    requires
        0 <= n <= pattern.len(),
        forall|i: int| 0 <= i < n ==> #[trigger] pattern[i] != STAR,
        wild(pattern, value),
    ensures
        n <= value.len(),
        wild(pattern.skip(n), value.skip(n)),
    decreases n,
{
    if n == 0 {
        assert(pattern.skip(0) =~= pattern);
        assert(value.skip(0) =~= value);
    } else {
        assert(pattern[0] != STAR);
        assert forall|i: int| 0 <= i < n - 1 implies #[trigger] pattern.skip(1)[i] != STAR by {
            assert(pattern.skip(1)[i] == pattern[i + 1]);
        }
        lemma_plain_part(pattern.skip(1), value.skip(1), n - 1);
        assert(pattern.skip(1).skip(n - 1) =~= pattern.skip(n));
        assert(value.skip(1).skip(n - 1) =~= value.skip(n));
    }
}

proof fn lemma_only_stars(pattern: Seq<u8>, i: int)
    requires
        0 <= i <= pattern.len(),
    ensures
        wild(pattern.skip(i), Seq::<u8>::empty()) == forall|j: int|
            i <= j < pattern.len() ==> #[trigger] pattern[j] == STAR,
    decreases pattern.len() - i,
{
    if i < pattern.len() {
        lemma_only_stars(pattern, i + 1);
        assert(pattern.skip(i)[0] == pattern[i]);
        assert(pattern.skip(i).skip(1) =~= pattern.skip(i + 1));
        if pattern[i] == STAR {
            assert(wild(pattern.skip(i), Seq::<u8>::empty()) == wild(
                pattern.skip(i + 1),
                Seq::<u8>::empty(),
            ));
        }
    } else {
        assert(pattern.skip(i).len() == 0);
    }
}

/// The state of a match, seen from the outside: the pattern matches from here on, or the last
/// star can take more.
proof fn lemma_matches_from(p: Seq<u8>, v: Seq<u8>, pi: int, vi: int, star: int, sv: int)
    requires
        forall|i: int| 0 <= i < v.len() ==> #[trigger] v[i] != STAR,
        0 <= pi <= p.len(),
        0 <= vi <= v.len(),
        -1 <= sv <= vi,
        sv >= 0 ==> 0 <= star < pi && p[star] == STAR && vi - sv == pi - star - 1,
        sv >= 0 ==> forall|i: int| star < i < pi ==> #[trigger] p[i] != STAR,
    ensures
        matches_from(p, v, pi, vi, star, sv) == (wild(p.skip(pi), v.skip(vi)) || (sv >= 0
            && wild_later(p.skip(star + 1), v, sv + 1))),
    decreases v.len() - sv, p.len() - pi,
{
    if vi >= v.len() {
        assert(v.skip(vi) =~= Seq::<u8>::empty());
        lemma_only_stars(p, pi);
        if !wild(p.skip(pi), v.skip(vi)) && sv >= 0 && wild_later(p.skip(star + 1), v, sv + 1) {
            // A later match of the star would leave bytes of the pattern without a value.
            let k = choose|k: int|
                sv + 1 <= k <= v.len() && #[trigger] wild(p.skip(star + 1), v.skip(k));
            let part = p.skip(star + 1);
            let len = pi - star - 1;
            assert forall|i: int| 0 <= i < len implies #[trigger] part[i] != STAR by {
                assert(part[i] == p[star + 1 + i]);
            }
            lemma_plain_part(part, v.skip(k), len);
            assert(false);
        }
    } else {
        assert(v[vi] != STAR);
        assert(v.skip(vi)[0] == v[vi]);
        if pi < p.len() {
            assert(p.skip(pi)[0] == p[pi]);
            assert(p.skip(pi).skip(1) =~= p.skip(pi + 1));
            assert(v.skip(vi).skip(1) =~= v.skip(vi + 1));
        }
        if pi < p.len() && byte_matches(p[pi], v[vi]) {
            lemma_matches_from(p, v, pi + 1, vi + 1, star, sv);
        } else if pi < p.len() && p[pi] == STAR {
            lemma_matches_from(p, v, pi + 1, vi, pi, vi);
            let here = p.skip(pi);
            let rest = p.skip(pi + 1);
            let left = v.skip(vi);
            lemma_star(here, left);
            assert(wild_later(rest, left, 0) == (wild(rest, left) || wild_later(rest, v, vi + 1)))
                by {
                assert(left.skip(0) =~= left);
                if wild_later(rest, left, 0) && !wild(rest, left) {
                    let k = choose|k: int|
                        0 <= k <= left.len() && #[trigger] wild(rest, left.skip(k));
                    assert(left.skip(k) =~= v.skip(vi + k));
                    assert(k > 0);
                    assert(wild(rest, v.skip(vi + k)));
                }
                if wild_later(rest, v, vi + 1) {
                    let k = choose|k: int|
                        vi + 1 <= k <= v.len() && #[trigger] wild(rest, v.skip(k));
                    assert(left.skip(k - vi) =~= v.skip(k));
                    assert(wild(rest, left.skip(k - vi)));
                }
                if wild(rest, left) {
                    assert(wild(rest, left.skip(0)));
                }
            }
            // What an earlier star could still match, this one can match as well.
            if sv >= 0 && wild_later(p.skip(star + 1), v, sv + 1) {
                let k = choose|k: int|
                    sv + 1 <= k <= v.len() && #[trigger] wild(p.skip(star + 1), v.skip(k));
                let len = pi - star - 1;
                let part = p.skip(star + 1);
                assert forall|i: int| 0 <= i < len implies #[trigger] part[i] != STAR by {
                    assert(part[i] == p[star + 1 + i]);
                }
                lemma_plain_part(part, v.skip(k), len);
                assert(part.skip(len) =~= here);
                assert(v.skip(k).skip(len) =~= v.skip(k + len));
                lemma_star(here, v.skip(k + len));
                let j = choose|j: int|
                    0 <= j <= v.skip(k + len).len() && #[trigger] wild(
                        here.skip(1),
                        v.skip(k + len).skip(j),
                    );
                assert(v.skip(k + len).skip(j) =~= v.skip(k + len + j));
                assert(wild(rest, v.skip(k + len + j)));
                assert(wild_later(rest, v, vi + 1));
            }
        } else if sv >= 0 {
            lemma_matches_from(p, v, star + 1, sv + 1, star, sv + 1);
            assert(!wild(p.skip(pi), v.skip(vi)));
            let rest = p.skip(star + 1);
            let next = sv + 1;
            assert(wild_later(rest, v, next) == (wild(rest, v.skip(next)) || wild_later(
                rest,
                v,
                next + 1,
            ))) by {
                if wild_later(rest, v, next) && !wild(rest, v.skip(next)) {
                    let k = choose|k: int| next <= k <= v.len() && #[trigger] wild(rest, v.skip(k));
                    assert(k != next);
                    assert(next + 1 <= k <= v.len() && wild(rest, v.skip(k)));
                }
                if wild_later(rest, v, next + 1) {
                    let k = choose|k: int|
                        next + 1 <= k <= v.len() && #[trigger] wild(rest, v.skip(k));
                    assert(next <= k <= v.len() && wild(rest, v.skip(k)));
                }
            }
        }
    }
}

/// A star stands for any bytes, also for none, a question mark for any one byte, and each other
/// byte but the slash for itself. This holds for every value that has no star in it.
pub proof fn law_star_stands_for_any_bytes(pattern: Seq<u8>, value: Seq<u8>)
    requires
        forall|i: int| 0 <= i < value.len() ==> #[trigger] value[i] != STAR,
    ensures
        pattern_matches(pattern, value) == wild(pattern, value),
{
    lemma_matches_from(pattern, value, 0, 0, 0, -1);
    assert(pattern.skip(0) =~= pattern);
    assert(value.skip(0) =~= value);
}

/// Whether a pattern matches a value.
pub fn wildcard_bytes(pattern: &[u8], value: &[u8]) -> (r: bool)
    ensures
        r == pattern_matches(pattern@, value@),
{
    let n = pattern.len();
    let m = value.len();
    let mut pi: usize = 0;
    let mut vi: usize = 0;
    let mut has_star = false;
    let mut star: usize = 0;
    let mut star_value: usize = 0;
    while vi < m
        invariant
            n == pattern@.len(),
            m == value@.len(),
            pi <= n,
            vi <= m,
            has_star ==> star < pi && star_value <= vi,
            !has_star ==> star == 0,
            matches_from(
                pattern@,
                value@,
                pi as int,
                vi as int,
                star as int,
                if has_star {
                    star_value as int
                } else {
                    -1
                },
            ) == pattern_matches(pattern@, value@),
        decreases
                m - (if has_star {
                    star_value as int
                } else {
                    -1
                }),
                n - pi,
    {
        if pi < n && (pattern[pi] == QUESTION || (pattern[pi] == value[vi] && pattern[pi]
            != SLASH)) {
            pi += 1;
            vi += 1;
        } else if pi < n && pattern[pi] == STAR {
            has_star = true;
            star = pi;
            star_value = vi;
            pi += 1;
        } else if has_star {
            pi = star + 1;
            star_value = star_value + 1;
            vi = star_value;
        } else {
            return false;
        }
    }
    let mut k: usize = pi;
    while k < n && pattern[k] == STAR
        invariant
            pi <= k <= n,
            n == pattern@.len(),
            forall|j: int| pi <= j < k ==> #[trigger] pattern@[j] == STAR,
        decreases n - k,
    {
        k += 1;
    }
    proof {
        if k < n {
            assert(pattern@[k as int] != STAR);
        }
    }
    k == n
}

/// Whether a pattern matches a value.
pub fn wildcard_match(pattern: &str, value: &str) -> (r: bool)
    ensures
        r == pattern_matches(encode_utf8(pattern@), encode_utf8(value@)),
{
    wildcard_bytes(pattern.as_bytes(), value.as_bytes())
}

/// A pattern in the form in which it is compared.
pub open spec fn plain_pattern(pattern: Seq<char>) -> Seq<char> {
    let slashes = replaced_char(trimmed(pattern), '\\', '/');
    if begins_with(slashes, "./"@) {
        slashes.skip(2)
    } else {
        slashes
    }
}

/// Whether a text has a slash.
pub open spec fn has_slash(s: Seq<char>) -> bool {
    exists|i: int| 0 <= i < s.len() && #[trigger] s[i] == '/'
}

/// The part of a path that a pattern is compared with: the whole path where the pattern has a
/// slash, the name of the file where it has none.
pub open spec fn glob_candidate(pattern: Seq<char>, value: Seq<char>) -> Seq<char> {
    let slashes = replaced_char(value, '\\', '/');
    if has_slash(pattern) {
        slashes
    } else {
        split_on(slashes, '/').last()
    }
}

/// Whether a pattern matches a path.
pub open spec fn glob_matches(pattern: Seq<char>, value: Seq<char>) -> bool {
    let plain = plain_pattern(pattern);
    let candidate = encode_utf8(glob_candidate(plain, value));
    pattern_matches(encode_utf8(plain), candidate) || (begins_with(plain, "**/"@)
        && pattern_matches(encode_utf8(plain.skip(3)), candidate))
}

/// Whether a pattern matches a path.
pub fn matches_glob(pattern: &str, value: &str) -> (r: bool)
    ensures
        r == glob_matches(pattern@, value@),
{
    proof {
        reveal_strlit("./");
        reveal_strlit("**/");
    }
    let slashes = replace_char(&trim(pattern), '\\', '/');
    let plain = match after_prefix(&slashes, "./") {
        Some(rest) => rest,
        None => slashes,
    };
    let path = replace_char(value, '\\', '/');
    let chars = chars_of(&plain);
    let slash = index_of(&chars, '/', 0);
    proof {
        lemma_next_char(plain@, '/', 0);
        assert(has_slash(plain@) == (slash < plain@.len()));
    }
    let candidate = if slash < chars.len() {
        path
    } else {
        let parts = split(&path, '/');
        proof {
            assert(deep(parts@).last() == parts@[parts@.len() - 1]@);
        }
        parts[parts.len() - 1].clone()
    };
    if wildcard_match(&plain, &candidate) {
        return true;
    }
    match after_prefix(&plain, "**/") {
        Some(rest) => wildcard_match(&rest, &candidate),
        None => false,
    }
}

} // verus!
