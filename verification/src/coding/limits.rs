//! How much the operations on a repository may read, write and show.

use vstd::prelude::*;

use crate::text::{chars_of, first_chars, noted, substring, take_noted};

verus! {

pub const MAX_OUTPUT_CHARS: usize = 16000;

pub const MAX_READ_LINES: usize = 240;

pub const MAX_GREP_MATCHES: usize = 200;

pub const MAX_GLOB_RESULTS: usize = 300;

pub const MAX_WALK_FILES: usize = 20000;

/// 16 MiB.
pub const MAX_EDIT_BYTES: usize = 16777216;

/// 256 KiB.
pub const MAX_LINE_BYTES: usize = 262144;

pub const OUTPUT_NOTE: &'static str = "\n[output truncated]";

/// As much of `value` as an output that has `chars` characters can still take.
pub open spec fn room_for(value: Seq<char>, chars: nat) -> Seq<char> {
    if chars >= MAX_OUTPUT_CHARS {
        Seq::empty()
    } else {
        first_chars(value, (MAX_OUTPUT_CHARS - chars) as nat)
    }
}

/// Whether an output that has `chars` characters can take all of `value`. One that is full can
/// take nothing more, not even an empty text.
pub open spec fn fits_in(value: Seq<char>, chars: nat) -> bool {
    chars < MAX_OUTPUT_CHARS && value.len() <= MAX_OUTPUT_CHARS - chars
}

/// Adds as much of `value` to an output of `chars` characters as it can take, and says whether
/// that was all of it.
pub fn bounded_append(output: &mut String, value: &str, chars: &mut usize) -> (r: bool)
    ensures
        r == fits_in(value@, *old(chars) as nat),
        final(output)@ == old(output)@ + room_for(value@, *old(chars) as nat),
        *final(chars) == if *old(chars) >= MAX_OUTPUT_CHARS {
            *old(chars) as int
        } else {
            *old(chars) + room_for(value@, *old(chars) as nat).len()
        },
{
    if *chars >= MAX_OUTPUT_CHARS {
        proof {
            assert(output@ + Seq::<char>::empty() =~= output@);
        }
        return false;
    }
    let remaining: usize = MAX_OUTPUT_CHARS - *chars;
    let v = chars_of(value);
    if v.len() <= remaining {
        output.append(value);
        *chars = *chars + v.len();
        return true;
    }
    let part = substring(&v, 0, remaining);
    proof {
        assert(part@ =~= value@.take(remaining as int));
    }
    output.append(&part);
    *chars = MAX_OUTPUT_CHARS;
    false
}

/// The output with a note where it is not complete, or is as long as it may be.
pub open spec fn finished_output(output: Seq<char>, truncated: bool) -> Seq<char> {
    if truncated || output.len() >= MAX_OUTPUT_CHARS {
        output + OUTPUT_NOTE@
    } else {
        output
    }
}

/// The output with a note where it is not complete, or is as long as it may be.
pub fn finish_bounded(output: String, truncated: bool) -> (r: String)
    ensures
        r@ == finished_output(output@, truncated),
{
    let mut r = output;
    if truncated || r.as_str().unicode_len() >= MAX_OUTPUT_CHARS {
        r.append(OUTPUT_NOTE);
    }
    r
}

/// A text that is not longer than an output may be, behind its prefix.
pub open spec fn truncated_text(value: Seq<char>, prefix: Seq<char>) -> Seq<char> {
    let text = noted(value, MAX_OUTPUT_CHARS as nat, OUTPUT_NOTE@);
    if prefix.len() > 0 {
        prefix + ": "@ + text
    } else {
        text
    }
}

/// A text that is not longer than an output may be, behind its prefix.
pub fn truncate_text(value: &str, prefix: &str) -> (r: String)
    ensures
        r@ == truncated_text(value@, prefix@),
{
    let text = take_noted(value, MAX_OUTPUT_CHARS, OUTPUT_NOTE);
    if prefix.is_empty() {
        return text;
    }
    let mut r = prefix.to_owned();
    r.append(": ");
    r.append(&text);
    r
}

/// A tool's output as the agent gets it.
pub fn truncate_output(output: &str) -> (r: String)
    ensures
        r@ == noted(output@, MAX_OUTPUT_CHARS as nat, OUTPUT_NOTE@),
{
    take_noted(output, MAX_OUTPUT_CHARS, OUTPUT_NOTE)
}

/// An output never grows longer than it may be.
pub proof fn law_output_is_bounded(output: Seq<char>, value: Seq<char>)
    requires
        output.len() <= MAX_OUTPUT_CHARS,
    ensures
        (output + room_for(value, output.len())).len() <= MAX_OUTPUT_CHARS,
        fits_in(value, output.len()) ==> room_for(value, output.len()) == value,
{
}

} // verus!
