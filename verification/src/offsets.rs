//! Places in a text, counted in bytes.

use vstd::prelude::*;
use vstd::utf8::{encode_scalar, encode_utf8};

use crate::text::{byte_len, chars_of, lowercase, substring, to_lowercase};

verus! {

/// How many bytes the first `i` characters of a text take.
pub open spec fn offset(s: Seq<char>, i: int) -> nat {
    encode_utf8(s.take(i)).len()
}

/// Whether `at` bytes of a text are its first `i` characters.
pub open spec fn is_place(s: Seq<char>, at: nat, i: int) -> bool {
    0 <= i <= s.len() && offset(s, i) == at
}

/// How many characters the first `at` bytes of a text are; nothing where they are no whole
/// characters, or more than there are.
pub open spec fn place(s: Seq<char>, at: nat) -> Option<int> {
    if exists|i: int| is_place(s, at, i) {
        Some(choose|i: int| is_place(s, at, i))
    } else {
        None
    }
}

/// Where a place in the lower case of a text is in the text itself, if it is as many bytes from
/// the beginning. Lower case may take other bytes.
pub open spec fn carried(s: Seq<char>, i: int) -> Option<int> {
    place(s, offset(lowercase(s), i))
}

/// The bytes of two texts, one behind the other.
pub proof fn lemma_encoded_length(a: Seq<char>, b: Seq<char>)
    ensures
        encode_utf8(a + b).len() == encode_utf8(a).len() + encode_utf8(b).len(),
    decreases a.len(),
{
    if a.len() == 0 {
        assert(a + b =~= b);
    } else {
        assert((a + b)[0] == a[0]);
        assert((a + b).drop_first() =~= a.drop_first() + b);
        lemma_encoded_length(a.drop_first(), b);
    }
}

proof fn lemma_next_offset(s: Seq<char>, i: int)
    requires
        0 <= i < s.len(),
    ensures
        offset(s, i + 1) == offset(s, i) + encode_scalar(s[i] as u32).len(),
{
    let one = seq![s[i]];
    assert(s.take(i + 1) =~= s.take(i) + one);
    lemma_encoded_length(s.take(i), one);
    assert(one.drop_first() =~= Seq::<char>::empty());
    assert(encode_utf8(one) == encode_scalar(one[0] as u32) + encode_utf8(one.drop_first()));
    assert(encode_utf8(Seq::<char>::empty()).len() == 0);
}

/// Each character takes a byte at least.
pub proof fn lemma_offsets_grow(s: Seq<char>, i: int, j: int)
    requires
        0 <= i <= j <= s.len(),
    ensures
        offset(s, j) >= offset(s, i) + (j - i),
    decreases j - i,
{
    if i < j {
        lemma_offsets_grow(s, i, j - 1);
        lemma_next_offset(s, j - 1);
    }
}

/// A place is the only one with its offset.
pub proof fn lemma_place(s: Seq<char>, at: nat, i: int)
    requires
        is_place(s, at, i),
    ensures
        place(s, at) == Some(i),
{
    let k = choose|k: int| is_place(s, at, k);
    assert(is_place(s, at, k));
    if k < i {
        lemma_offsets_grow(s, k, i);
    } else {
        lemma_offsets_grow(s, i, k);
    }
}

/// What is known of a place that was found.
pub proof fn lemma_found(s: Seq<char>, at: nat)
    ensures
        place(s, at) matches Some(i) ==> 0 <= i <= s.len() && offset(s, i) == at,
{
    if exists|i: int| is_place(s, at, i) {
        let i = choose|i: int| is_place(s, at, i);
        assert(is_place(s, at, i));
    }
}

/// Places stay in their order when they are carried over.
pub proof fn lemma_carried_in_order(s: Seq<char>, i: int, j: int)
    requires
        0 <= i <= j <= lowercase(s).len(),
        carried(s, i) is Some,
        carried(s, j) is Some,
    ensures
        0 <= carried(s, i)->0 <= carried(s, j)->0 <= s.len(),
        offset(s, carried(s, j)->0) - offset(s, carried(s, i)->0) >= j - i,
{
    let low = lowercase(s);
    lemma_offsets_grow(low, i, j);
    lemma_found(s, offset(low, i));
    lemma_found(s, offset(low, j));
    let a = carried(s, i)->0;
    let b = carried(s, j)->0;
    if b < a {
        lemma_offsets_grow(s, b, a);
    }
}

fn width(c: char) -> (r: usize)
    ensures
        r == encode_scalar(c as u32).len(),
        1 <= r <= 4,
{
    proof {
        vstd::utf8::char_is_scalar(c);
    }
    let v: u32 = c as u32;
    if v <= 0x7F {
        1
    } else if v <= 0x7FF {
        2
    } else if v <= 0xFFFF {
        3
    } else {
        4
    }
}

fn find_place(chars: &[char], at: usize) -> (r: Option<usize>)
    ensures
        match r {
            Some(i) => place(chars@, at as nat) == Some(i as int) && i <= chars@.len(),
            None => place(chars@, at as nat) is None,
        },
{
    let mut i: usize = 0;
    let mut left: usize = at;
    proof {
        assert(chars@.take(0) =~= Seq::<char>::empty());
    }
    while i < chars.len() && left > 0
        invariant
            i <= chars@.len(),
            offset(chars@, i as int) + left == at,
        decreases chars@.len() - i,
    {
        let w = width(chars[i]);
        proof {
            lemma_next_offset(chars@, i as int);
        }
        if left < w {
            proof {
                assert forall|k: int| !is_place(chars@, at as nat, k) by {
                    if 0 <= k <= i {
                        lemma_offsets_grow(chars@, k, i as int);
                    } else if i < k <= chars@.len() {
                        lemma_offsets_grow(chars@, i + 1, k);
                    }
                }
            }
            return None;
        }
        left -= w;
        i += 1;
    }
    if left > 0 {
        proof {
            assert forall|k: int| !is_place(chars@, at as nat, k) by {
                if 0 <= k <= chars@.len() {
                    lemma_offsets_grow(chars@, k, i as int);
                }
            }
        }
        return None;
    }
    proof {
        lemma_place(chars@, at as nat, i as int);
    }
    Some(i)
}

/// A text beside its lower case.
pub(crate) struct Lowered {
    pub(crate) chars: Vec<char>,
    pub(crate) low: Vec<char>,
}

impl Lowered {
    /// The lower case is that of the text, and its bytes can be counted.
    pub(crate) open spec fn wf(&self) -> bool {
        &&& self.low@ == lowercase(self.chars@)
        &&& encode_utf8(self.low@).len() <= usize::MAX
    }

    pub(crate) fn new(text: &str) -> (r: Self)
        ensures
            r.wf(),
            r.chars@ == text@,
    {
        let lower = to_lowercase(text);
        let bytes = byte_len(&lower);
        let low = chars_of(&lower);
        proof {
            assert(encode_utf8(low@).len() == bytes);
        }
        Lowered { chars: chars_of(text), low }
    }

    /// Where a place in the lower case is in the text.
    pub(crate) fn carry(&self, i: usize) -> (r: Option<usize>)
        requires
            self.wf(),
            i <= self.low@.len(),
        ensures
            match r {
                Some(k) => carried(self.chars@, i as int) == Some(k as int) && k
                    <= self.chars@.len(),
                None => carried(self.chars@, i as int) is None,
            },
    {
        let mut at: usize = 0;
        let mut k: usize = 0;
        proof {
            assert(self.low@.take(0) =~= Seq::<char>::empty());
            assert(self.low@.take(self.low@.len() as int) =~= self.low@);
        }
        while k < i
            invariant
                self.wf(),
                k <= i <= self.low@.len(),
                at == offset(self.low@, k as int),
                offset(self.low@, self.low@.len() as int) <= usize::MAX,
            decreases i - k,
        {
            proof {
                lemma_next_offset(self.low@, k as int);
                lemma_offsets_grow(self.low@, k + 1, self.low@.len() as int);
            }
            at += width(self.low[k]);
            k += 1;
        }
        find_place(&self.chars, at)
    }

    /// What stands in the text between two places in its lower case.
    pub(crate) fn slice(&self, from: usize, to: usize) -> (r: Option<String>)
        requires
            self.wf(),
            from <= to <= self.low@.len(),
        ensures
            r.deep_view() == carried_slice(self.chars@, from as int, to as int),
    {
        match (self.carry(from), self.carry(to)) {
            (Some(a), Some(b)) => {
                proof {
                    lemma_carried_in_order(self.chars@, from as int, to as int);
                }
                Some(substring(&self.chars, a, b))
            },
            _ => None,
        }
    }
}

/// What stands in a text between two places in its lower case; nothing where one of them falls
/// into a character of the text, or behind its end.
pub open spec fn carried_slice(s: Seq<char>, from: int, to: int) -> Option<Seq<char>> {
    match (carried(s, from), carried(s, to)) {
        (Some(a), Some(b)) => Some(s.subrange(a, b)),
        _ => None,
    }
}

} // verus!
