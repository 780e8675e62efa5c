//! Bytes as text of 64 different characters, and back.

use vstd::prelude::*;
use vstd::utf8::encode_utf8;

use crate::text::{
    begins_with, chars_of, index_of, next_char, starts_with, string_of, substring, trim, trimmed,
};

verus! {

/// The largest file that is decoded.
pub const MAX_ATTACHMENT_BYTES: usize = 26214400;

// ---- digits ----

/// The character of a value below 64.
pub open spec fn digit64(v: int) -> char {
    if v < 26 {
        (65 + v) as u8 as char
    } else if v < 52 {
        (97 + v - 26) as u8 as char
    } else if v < 62 {
        (48 + v - 52) as u8 as char
    } else if v == 62 {
        '+'
    } else {
        '/'
    }
}

/// The value of a character.
pub open spec fn value64(b: u8) -> Option<u8> {
    if 65 <= b <= 90 {
        Some((b - 65) as u8)
    } else if 97 <= b <= 122 {
        Some((b - 97 + 26) as u8)
    } else if 48 <= b <= 57 {
        Some((b - 48 + 52) as u8)
    } else if b == 43 {
        Some(62u8)
    } else if b == 47 {
        Some(63u8)
    } else {
        None
    }
}

fn digit(v: u32) -> (r: char)
    requires
        v < 64,
    ensures
        r == digit64(v as int),
{
    if v < 26 {
        (65 + v) as u8 as char
    } else if v < 52 {
        (97 + v - 26) as u8 as char
    } else if v < 62 {
        (48 + v - 52) as u8 as char
    } else if v == 62 {
        '+'
    } else {
        '/'
    }
}

/// The value of a character.
pub fn decode_base64_byte(byte: u8) -> (r: Result<u8, String>)
    ensures
        match value64(byte) {
            Some(v) => r == Ok::<u8, String>(v),
            None => r is Err && r->Err_0@ == "invalid Base64 character"@,
        },
{
    if byte >= 65 && byte <= 90 {
        Ok(byte - 65)
    } else if byte >= 97 && byte <= 122 {
        Ok(byte - 97 + 26)
    } else if byte >= 48 && byte <= 57 {
        Ok(byte - 48 + 52)
    } else if byte == 43 {
        Ok(62)
    } else if byte == 47 {
        Ok(63)
    } else {
        Err("invalid Base64 character".to_owned())
    }
}

// ---- encoding ----

/// The four characters of the first three bytes, or of those that are left.
pub open spec fn group_of(bytes: Seq<u8>) -> Seq<char> {
    let a = bytes[0] as int;
    let b = if bytes.len() > 1 {
        bytes[1] as int
    } else {
        0
    };
    let c = if bytes.len() > 2 {
        bytes[2] as int
    } else {
        0
    };
    seq![
        digit64(a / 4),
        digit64(a % 4 * 16 + b / 16),
        if bytes.len() > 1 {
            digit64(b % 16 * 4 + c / 64)
        } else {
            '='
        },
        if bytes.len() > 2 {
            digit64(c % 64)
        } else {
            '='
        },
    ]
}

/// The bytes as text.
pub open spec fn encoded(bytes: Seq<u8>) -> Seq<char>
    decreases bytes.len(),
{
    if bytes.len() == 0 {
        Seq::empty()
    } else if bytes.len() <= 3 {
        group_of(bytes)
    } else {
        group_of(bytes) + encoded(bytes.skip(3))
    }
}

/// The bytes as text.
pub fn base64_encode(bytes: &[u8]) -> (r: String)
    ensures
        r@ == encoded(bytes@),
{
    let n = bytes.len();
    let mut out: Vec<char> = Vec::new();
    let mut i: usize = 0;
    proof {
        assert(bytes@.skip(0) =~= bytes@);
        assert(out@ + encoded(bytes@) =~= encoded(bytes@));
    }
    while i < n
        invariant
            n == bytes@.len(),
            i <= n,
            out@ + encoded(bytes@.skip(i as int)) == encoded(bytes@),
        decreases n - i,
    {
        let left = n - i;
        let a: u32 = bytes[i] as u32;
        let b: u32 = if left > 1 {
            bytes[i + 1] as u32
        } else {
            0
        };
        let c: u32 = if left > 2 {
            bytes[i + 2] as u32
        } else {
            0
        };
        let ghost before = out@;
        let ghost rest = bytes@.skip(i as int);
        out.push(digit(a / 4));
        out.push(digit(a % 4 * 16 + b / 16));
        out.push(
            if left > 1 {
                digit(b % 16 * 4 + c / 64)
            } else {
                '='
            },
        );
        out.push(
            if left > 2 {
                digit(c % 64)
            } else {
                '='
            },
        );
        proof {
            assert(out@ =~= before + group_of(rest));
            if left > 3 {
                assert(rest.skip(3) =~= bytes@.skip(i + 3));
                assert(before + (group_of(rest) + encoded(rest.skip(3))) =~= out@ + encoded(
                    bytes@.skip(i + 3),
                ));
            } else {
                assert(bytes@.skip(n as int) =~= Seq::<u8>::empty());
                assert(out@ + encoded(bytes@.skip(n as int)) =~= before + group_of(rest));
            }
        }
        i = if left > 3 {
            i + 3
        } else {
            n
        };
    }
    proof {
        assert(bytes@.skip(n as int) =~= Seq::<u8>::empty());
        assert(out@ + Seq::<char>::empty() =~= out@);
    }
    string_of(&out)
}

// ---- decoding ----

/// The bytes that four characters stand for. `last` says that none follow.
pub open spec fn chunk64(g: Seq<u8>, last: bool) -> Result<Seq<u8>, Seq<char>> {
    let third = if g[2] == 61 {
        Some(0u8)
    } else {
        value64(g[2])
    };
    let fourth = if g[3] == 61 {
        Some(0u8)
    } else {
        value64(g[3])
    };
    if value64(g[0]) is None || value64(g[1]) is None || third is None || fourth is None {
        Err("invalid Base64 character"@)
    } else if (!last && (g[2] == 61 || g[3] == 61)) || (g[2] == 61 && g[3] != 61) {
        Err("invalid Base64 padding placement"@)
    } else {
        let a = value64(g[0])->0 as int;
        let b = value64(g[1])->0 as int;
        let c = third->0 as int;
        let d = fourth->0 as int;
        let one = seq![(a * 4 + b / 16) as u8];
        let two = if g[2] != 61 {
            one.push((b % 16 * 16 + c / 4) as u8)
        } else {
            one
        };
        Ok(
            if g[3] != 61 {
                two.push((c % 4 * 64 + d) as u8)
            } else {
                two
            },
        )
    }
}

/// The bytes that the characters stand for, four by four.
pub open spec fn chunks64(g: Seq<u8>) -> Result<Seq<u8>, Seq<char>>
    decreases g.len(),
{
    if g.len() < 4 {
        Ok(Seq::empty())
    } else {
        match chunk64(g.take(4), g.len() < 8) {
            Err(error) => Err(error),
            Ok(bytes) => match chunks64(g.skip(4)) {
                Err(error) => Err(error),
                Ok(rest) => Ok(bytes + rest),
            },
        }
    }
}

/// How many of the last bytes are padding.
pub open spec fn padding(g: Seq<u8>) -> nat
    decreases g.len(),
{
    if g.len() > 0 && g.last() == 61 {
        1 + padding(g.drop_last())
    } else {
        0
    }
}

/// The bytes that the characters stand for, with the limits on their number.
pub open spec fn decoded_bytes(g: Seq<u8>) -> Result<Seq<u8>, Seq<char>> {
    if g.len() == 0 || g.len() % 4 != 0 {
        Err("invalid Base64 length"@)
    } else if padding(g) > 2 {
        Err("invalid Base64 padding"@)
    } else if g.len() / 4 * 3 - padding(g) > MAX_ATTACHMENT_BYTES {
        Err("decoded file exceeds the size limit"@)
    } else {
        chunks64(g)
    }
}

/// The part of a text that is encoded: what follows the comma of a `data:` address.
pub open spec fn payload(value: Seq<char>) -> Seq<char> {
    let comma = next_char(value, ',', 5);
    trimmed(
        if begins_with(value, "data:"@) && comma < value.len() {
            value.skip(comma + 1)
        } else {
            value
        },
    )
}

/// The bytes that a text stands for.
pub open spec fn decoded(value: Seq<char>) -> Result<Seq<u8>, Seq<char>> {
    decoded_bytes(encode_utf8(payload(value)))
}

fn encoded_part(value: &str) -> (r: String)
    ensures
        r@ == payload(value@),
{
    if starts_with(value, "data:") {
        let chars = chars_of(value);
        proof {
            reveal_strlit("data:");
        }
        let n = chars.len();
        let comma = index_of(&chars, ',', 5);
        if comma < n {
            let rest = substring(&chars, comma + 1, n);
            proof {
                assert(rest@ =~= value@.skip(comma + 1));
            }
            return trim(&rest);
        }
    }
    trim(value)
}

fn count_padding(g: &[u8]) -> (r: usize)
    ensures
        r == padding(g@),
        r <= g@.len(),
{
    let mut n: usize = g.len();
    let mut count: usize = 0;
    proof {
        assert(g@.take(n as int) =~= g@);
    }
    while n > 0 && g[n - 1] == 61
        invariant
            n + count == g@.len(),
            padding(g@) == count + padding(g@.take(n as int)),
        decreases n,
    {
        proof {
            assert(g@.take(n as int).last() == g@[n - 1]);
            assert(g@.take(n as int).drop_last() =~= g@.take(n - 1));
        }
        n -= 1;
        count += 1;
    }
    proof {
        if n > 0 {
            assert(g@.take(n as int).last() == g@[n - 1]);
        }
    }
    count
}

fn push_chunk(out: &mut Vec<u8>, g: &[u8], i: usize, last: bool) -> (r: Result<(), String>)
    requires
        i + 4 <= g@.len(),
    ensures
        match chunk64(g@.subrange(i as int, i + 4), last) {
            Ok(bytes) => r is Ok && final(out)@ == old(out)@ + bytes,
            Err(error) => r is Err && r->Err_0@ == error,
        },
{
    let ghost before = out@;
    let ghost four = g@.subrange(i as int, i + 4);
    proof {
        assert(four[0] == g@[i as int] && four[1] == g@[i + 1] && four[2] == g@[i + 2] && four[3]
            == g@[i + 3]);
    }
    let a = match decode_base64_byte(g[i]) {
        Ok(v) => v,
        Err(error) => {
            return Err(error);
        },
    };
    let b = match decode_base64_byte(g[i + 1]) {
        Ok(v) => v,
        Err(error) => {
            return Err(error);
        },
    };
    let third = g[i + 2];
    let fourth = g[i + 3];
    let c: u8 = if third == 61 {
        0
    } else {
        match decode_base64_byte(third) {
            Ok(v) => v,
            Err(error) => {
                return Err(error);
            },
        }
    };
    let d: u8 = if fourth == 61 {
        0
    } else {
        match decode_base64_byte(fourth) {
            Ok(v) => v,
            Err(error) => {
                return Err(error);
            },
        }
    };
    if (!last && (third == 61 || fourth == 61)) || (third == 61 && fourth != 61) {
        return Err("invalid Base64 padding placement".to_owned());
    }
    out.push(a * 4 + b / 16);
    if third != 61 {
        out.push(b % 16 * 16 + c / 4);
    }
    if fourth != 61 {
        out.push(c % 4 * 64 + d);
    }
    proof {
        assert(out@ =~= before + chunk64(four, last)->Ok_0);
    }
    Ok(())
}

/// What a decoding comes to once `front` stands before it.
pub open spec fn behind(
    front: Seq<u8>,
    rest: Result<Seq<u8>, Seq<char>>,
) -> Result<Seq<u8>, Seq<char>> {
    match rest {
        Ok(bytes) => Ok(front + bytes),
        Err(error) => Err(error),
    }
}

/// The bytes that a text stands for.
pub fn decode_base64(value: &str) -> (r: Result<Vec<u8>, String>)
    ensures
        match decoded(value@) {
            Ok(bytes) => r is Ok && r->Ok_0@ == bytes,
            Err(error) => r is Err && r->Err_0@ == error,
        },
{
    let text = encoded_part(value);
    let g = text.as_str().as_bytes();
    let n = g.len();
    if n == 0 || n % 4 != 0 {
        return Err("invalid Base64 length".to_owned());
    }
    let pad = count_padding(g);
    if pad > 2 {
        return Err("invalid Base64 padding".to_owned());
    }
    if n / 4 * 3 - pad > MAX_ATTACHMENT_BYTES {
        return Err("decoded file exceeds the size limit".to_owned());
    }
    let mut out: Vec<u8> = Vec::new();
    let mut i: usize = 0;
    proof {
        assert(g@.skip(0) =~= g@);
        match chunks64(g@) {
            Ok(bytes) => {
                assert(out@ + bytes =~= bytes);
            },
            Err(_) => {},
        }
    }
    while i < n
        invariant
            g@ == encode_utf8(payload(value@)),
            n == g@.len(),
            n % 4 == 0,
            i % 4 == 0,
            i <= n,
            decoded(value@) == chunks64(g@),
            behind(out@, chunks64(g@.skip(i as int))) == chunks64(g@),
        decreases n - i,
    {
        let ghost before = out@;
        let ghost rest = g@.skip(i as int);
        proof {
            assert(rest.take(4) =~= g@.subrange(i as int, i + 4));
            assert(rest.skip(4) =~= g@.skip(i + 4));
        }
        match push_chunk(&mut out, g, i, n - i < 8) {
            Ok(()) => {
                proof {
                    match chunks64(rest.skip(4)) {
                        Ok(bytes) => {
                            assert(before + (chunk64(rest.take(4), n - i < 8)->Ok_0 + bytes)
                                =~= out@ + bytes);
                        },
                        Err(_) => {},
                    }
                }
            },
            Err(error) => {
                return Err(error);
            },
        }
        i += 4;
    }
    proof {
        assert(g@.skip(n as int) =~= Seq::<u8>::empty());
        assert(out@ + Seq::<u8>::empty() =~= out@);
    }
    Ok(out)
}

// ---- laws ----

/// Characters as the bytes that they are in ASCII.
pub open spec fn codes(s: Seq<char>) -> Seq<u8> {
    Seq::new(s.len(), |i: int| s[i] as u8)
}

/// Whether the character is a digit or padding.
pub open spec fn is_code(c: char) -> bool {
    c == '=' || c == '+' || c == '/' || ('A' <= c && c <= 'Z') || ('a' <= c && c <= 'z') || ('0' <= c
        && c <= '9')
}

proof fn lemma_digit64(v: int)
    requires
        0 <= v < 64,
    ensures
        value64(digit64(v) as u8) == Some(v as u8),
        digit64(v) as u8 != 61,
        is_code(digit64(v)),
        digit64(v) != '=',
{
}

proof fn lemma_codes(bytes: Seq<u8>, k: int)
    requires
        0 <= k < encoded(bytes).len(),
    ensures
        is_code(encoded(bytes)[k]),
    decreases bytes.len(),
{
    if bytes.len() > 0 {
        let g = group_of(bytes);
        let a = bytes[0] as int;
        let b = if bytes.len() > 1 {
            bytes[1] as int
        } else {
            0
        };
        let c = if bytes.len() > 2 {
            bytes[2] as int
        } else {
            0
        };
        lemma_digit64(a / 4);
        lemma_digit64(a % 4 * 16 + b / 16);
        lemma_digit64(b % 16 * 4 + c / 64);
        lemma_digit64(c % 64);
        if bytes.len() > 3 && k >= 4 {
            lemma_codes(bytes.skip(3), k - 4);
        } else {
            assert(encoded(bytes)[k] == g[k]);
        }
    }
}

proof fn lemma_group(bytes: Seq<u8>)
    requires
        bytes.len() > 0,
    ensures
        chunk64(codes(group_of(bytes)), bytes.len() <= 3) == Ok::<Seq<u8>, Seq<char>>(
            if bytes.len() <= 3 {
                bytes
            } else {
                bytes.take(3)
            },
        ),
{
    let g = codes(group_of(bytes));
    let a = bytes[0] as int;
    let b = if bytes.len() > 1 {
        bytes[1] as int
    } else {
        0
    };
    let c = if bytes.len() > 2 {
        bytes[2] as int
    } else {
        0
    };
    lemma_digit64(a / 4);
    lemma_digit64(a % 4 * 16 + b / 16);
    lemma_digit64(b % 16 * 4 + c / 64);
    lemma_digit64(c % 64);
    let p = a / 4;
    let q = a % 4 * 16 + b / 16;
    let r = b % 16 * 4 + c / 64;
    let s = c % 64;
    assert(p * 4 + q / 16 == a);
    assert(q % 16 * 16 + r / 4 == b);
    assert(r % 4 * 64 + s == c);
    let want = if bytes.len() <= 3 {
        bytes
    } else {
        bytes.take(3)
    };
    assert(g[0] == digit64(p) as u8);
    assert(g[1] == digit64(q) as u8);
    if bytes.len() == 1 {
        assert(g[2] == 61 && g[3] == 61);
        assert(chunk64(g, true)->Ok_0 =~= want);
    } else if bytes.len() == 2 {
        assert(g[2] == digit64(r) as u8 && g[3] == 61);
        assert(chunk64(g, true)->Ok_0 =~= want);
    } else {
        assert(g[2] == digit64(r) as u8 && g[3] == digit64(s) as u8);
        assert(chunk64(g, bytes.len() <= 3)->Ok_0 =~= want);
    }
}

proof fn lemma_length(bytes: Seq<u8>)
    ensures
        encoded(bytes).len() == (bytes.len() + 2) / 3 * 4,
    decreases bytes.len(),
{
    if bytes.len() > 3 {
        lemma_length(bytes.skip(3));
    }
}

proof fn lemma_next_chunk(head: Seq<u8>, tail: Seq<u8>, one: Seq<u8>, more: Seq<u8>)
    requires
        head.len() == 4,
        chunk64(head, tail.len() == 0) == Ok::<Seq<u8>, Seq<char>>(one),
        chunks64(tail) == Ok::<Seq<u8>, Seq<char>>(more),
    ensures
        chunks64(head + tail) == Ok::<Seq<u8>, Seq<char>>(one + more),
{
    let g = head + tail;
    assert(g.take(4) =~= head);
    assert(g.skip(4) =~= tail);
}

proof fn lemma_chunks_back(bytes: Seq<u8>)
    ensures
        chunks64(codes(encoded(bytes))) == Ok::<Seq<u8>, Seq<char>>(bytes),
        encoded(bytes).len() == (bytes.len() + 2) / 3 * 4,
    decreases bytes.len(),
{
    lemma_length(bytes);
    if bytes.len() == 0 {
        assert(bytes =~= Seq::<u8>::empty());
    } else {
        let head = codes(group_of(bytes));
        let none = Seq::<u8>::empty();
        lemma_group(bytes);
        if bytes.len() <= 3 {
            assert(chunks64(none) == Ok::<Seq<u8>, Seq<char>>(none));
            lemma_next_chunk(head, none, bytes, none);
            assert(head + none =~= codes(encoded(bytes)));
            assert(bytes + none =~= bytes);
        } else {
            let rest = bytes.skip(3);
            lemma_chunks_back(rest);
            lemma_next_chunk(head, codes(encoded(rest)), bytes.take(3), rest);
            assert(head + codes(encoded(rest)) =~= codes(encoded(bytes)));
            assert(bytes.take(3) + rest =~= bytes);
        }
    }
}

proof fn lemma_padding(bytes: Seq<u8>)
    requires
        bytes.len() > 0,
    ensures
        padding(codes(encoded(bytes))) == (3 - bytes.len() % 3) % 3,
    decreases bytes.len(),
{
    let g = codes(encoded(bytes));
    if bytes.len() > 3 {
        lemma_padding(bytes.skip(3));
        lemma_chunks_back(bytes.skip(3));
        let rest = codes(encoded(bytes.skip(3)));
        let head = codes(group_of(bytes));
        assert(g =~= head + rest);
        let c = bytes[2] as int;
        lemma_digit64(c % 64);
        lemma_digit64(bytes[1] as int % 16 * 4 + c / 64);
        assert(head.last() == digit64(c % 64) as u8);
        lemma_padding_of_tail(head, rest);
    } else {
        let a = bytes[0] as int;
        let b = if bytes.len() > 1 {
            bytes[1] as int
        } else {
            0
        };
        lemma_digit64(a % 4 * 16 + b / 16);
        lemma_digit64(
            b % 16 * 4 + (if bytes.len() > 2 {
                bytes[2] as int
            } else {
                0
            }) / 64,
        );
        reveal_with_fuel(padding, 4);
        assert(g.len() == 4);
        let three = g.drop_last();
        let two = three.drop_last();
        assert(three.last() == g[2]);
        assert(two.last() == g[1]);
        if bytes.len() == 3 {
            lemma_digit64(bytes[2] as int % 64);
            assert(g.last() == g[3]);
        }
    }
}

proof fn lemma_padding_of_tail(head: Seq<u8>, tail: Seq<u8>)
    requires
        head.len() > 0,
        head.last() != 61,
    ensures
        padding(head + tail) == padding(tail),
    decreases tail.len(),
{
    let all = head + tail;
    if tail.len() == 0 {
        assert(all =~= head);
    } else {
        assert(all.last() == tail.last());
        if tail.last() == 61 {
            lemma_padding_of_tail(head, tail.drop_last());
            assert(all.drop_last() =~= head + tail.drop_last());
        }
    }
}

proof fn lemma_no_space(s: Seq<char>)
    requires
        forall|k: int| 0 <= k < s.len() ==> is_code(#[trigger] s[k]),
    ensures
        trimmed(s) == s,
{
    if s.len() > 0 {
        assert(is_code(s[0]));
        assert(is_code(s.last()));
    }
}

/// Decoding gives back the bytes that were encoded.
pub proof fn law_decoding_gives_back_what_was_encoded(bytes: Seq<u8>)
    requires
        0 < bytes.len() <= MAX_ATTACHMENT_BYTES,
    ensures
        decoded(encoded(bytes)) == Ok::<Seq<u8>, Seq<char>>(bytes),
{
    let s = encoded(bytes);
    lemma_chunks_back(bytes);
    lemma_padding(bytes);
    assert forall|k: int| 0 <= k < s.len() implies is_code(#[trigger] s[k]) by {
        lemma_codes(bytes, k);
    }
    reveal_strlit("data:");
    if begins_with(s, "data:"@) {
        assert(s.take(5)[4] == s[4]);
        assert(is_code(s[4]));
    }
    lemma_no_space(s);
    assert(vstd::utf8::is_ascii_chars(s)) by {
        assert forall|k: int| 0 <= k < s.len() implies '\0' <= #[trigger] s[k] <= '\u{7f}' by {
            assert(is_code(s[k]));
        }
    }
    vstd::utf8::is_ascii_chars_encode_utf8(s);
    assert(encode_utf8(s) =~= codes(s));
}

} // verus!
