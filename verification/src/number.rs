//! Integers in decimal notation.

use vstd::prelude::*;

use crate::text::string_of;

verus! {

/// The character of a digit.
pub open spec fn digit(d: nat) -> char
    recommends
        d < 10,
{
    (48 + d) as u8 as char
}

/// The decimal notation of `n`, without leading zeros.
pub open spec fn decimal(n: nat) -> Seq<char>
    decreases n,
{
    if n < 10 {
        seq![digit(n)]
    } else {
        decimal(n / 10).push(digit(n % 10))
    }
}

/// The decimal notation of `n`.
fn digits_of(n: u128) -> (v: Vec<char>)
    ensures
        v@ == decimal(n as nat),
    decreases n,
{
    if n < 10 {
        let mut v: Vec<char> = Vec::new();
        v.push((48 + n as u8) as char);
        proof {
            assert(v@ =~= decimal(n as nat));
        }
        v
    } else {
        let mut v = digits_of(n / 10);
        v.push((48 + (n % 10) as u8) as char);
        v
    }
}

/// The decimal notation of `n`.
pub fn number_text(n: u64) -> (r: String)
    ensures
        r@ == decimal(n as nat),
{
    string_of(&digits_of(n as u128))
}

/// The decimal notation of the number behind `n`.
pub fn next_number_text(n: u64) -> (r: String)
    ensures
        r@ == decimal(n as nat + 1),
{
    string_of(&digits_of(n as u128 + 1))
}

/// The decimal notation of a number with a sign.
pub open spec fn signed_decimal(n: int) -> Seq<char> {
    if n < 0 {
        seq!['-'] + decimal((-n) as nat)
    } else {
        decimal(n as nat)
    }
}

/// The decimal notation of a number with a sign.
pub fn signed_text(n: i64) -> (r: String)
    ensures
        r@ == signed_decimal(n as int),
{
    if n < 0 {
        let mut v: Vec<char> = Vec::new();
        v.push('-');
        let mut digits = digits_of((-(n as i128)) as u128);
        v.append(&mut digits);
        proof {
            assert(v@ =~= signed_decimal(n as int));
        }
        string_of(&v)
    } else {
        number_text(n as u64)
    }
}

/// Whether `c` is a decimal digit.
pub open spec fn is_digit(c: char) -> bool {
    '0' <= c && c <= '9'
}

/// The number that a digit stands for.
pub open spec fn digit_value(c: char) -> nat {
    (c as u32 - 48) as nat
}

/// The number that digits stand for in decimal notation.
pub open spec fn digits_value(s: Seq<char>) -> nat
    decreases s.len(),
{
    if s.len() == 0 {
        0
    } else {
        10 * digits_value(s.drop_last()) + digit_value(s.last())
    }
}

/// Whether all characters are decimal digits.
pub open spec fn all_digits(s: Seq<char>) -> bool {
    forall|i: int| 0 <= i < s.len() ==> is_digit(#[trigger] s[i])
}

/// The decimal notation of a number stands for that number.
pub proof fn law_numbers_are_written_without_loss(n: nat)
    ensures
        decimal(n).len() > 0,
        all_digits(decimal(n)),
        digits_value(decimal(n)) == n,
    decreases n,
{
    if n < 10 {
        assert(decimal(n).drop_last() =~= Seq::<char>::empty());
        assert(digits_value(decimal(n).drop_last()) == 0);
        assert(digit_value(digit(n)) == n);
    } else {
        law_numbers_are_written_without_loss(n / 10);
        assert(decimal(n).drop_last() =~= decimal(n / 10));
        assert(digit_value(digit(n % 10)) == n % 10);
    }
}

/// The number that the digits stand for, where there are digits and the number fits.
pub open spec fn parsed_usize(s: Seq<char>) -> Option<usize> {
    if s.len() > 0 && digits_value(s) <= usize::MAX {
        Some(digits_value(s) as usize)
    } else {
        None
    }
}

proof fn lemma_digits_grow(s: Seq<char>, n: int)
    requires
        0 <= n <= s.len(),
    ensures
        digits_value(s.take(n)) <= digits_value(s),
    decreases s.len() - n,
{
    if n < s.len() {
        lemma_digits_grow(s, n + 1);
        assert(s.take(n + 1).drop_last() =~= s.take(n));
    } else {
        assert(s.take(n) =~= s);
    }
}

/// The number that digits stand for, where there are any and the number fits.
pub fn parse_digits(v: &[char]) -> (r: Option<usize>)
    requires
        all_digits(v@),
    ensures
        r == parsed_usize(v@),
{
    if v.len() == 0 {
        return None;
    }
    let mut n: usize = 0;
    let mut i: usize = 0;
    while i < v.len()
        invariant
            i <= v@.len(),
            v@.len() > 0,
            all_digits(v@),
            n == digits_value(v@.take(i as int)),
        decreases v@.len() - i,
    {
        proof {
            assert(is_digit(v@[i as int]));
            assert(v@.take(i + 1).drop_last() =~= v@.take(i as int));
            assert(v@.take(i + 1).last() == v@[i as int]);
            lemma_digits_grow(v@, i + 1);
        }
        let d: usize = (v[i] as u32 - 48) as usize;
        let tens = match n.checked_mul(10) {
            Some(tens) => tens,
            None => {
                return None;
            },
        };
        n =
        match tens.checked_add(d) {
            Some(n) => n,
            None => {
                return None;
            },
        };
        i += 1;
    }
    proof {
        assert(v@.take(v@.len() as int) =~= v@);
    }
    Some(n)
}

} // verus!
