//! Identifiers and time stamps.

use vstd::prelude::*;

use crate::text::begins_with;

verus! {

/// Whether `c` is a digit of the hexadecimal notation, in lower case.
pub open spec fn is_hex(c: char) -> bool {
    ('0' <= c && c <= '9') || ('a' <= c && c <= 'f')
}

/// Whether the text is a random identifier of 32 hexadecimal digits in lower case, with the digits
/// that say so: the version, and the variant.
pub open spec fn is_simple_uuid(s: Seq<char>) -> bool {
    &&& s.len() == 32
    &&& forall|i: int| 0 <= i < 32 ==> is_hex(#[trigger] s[i])
    &&& s[12] == '4'
    &&& s[16] == '8' || s[16] == '9' || s[16] == 'a' || s[16] == 'b'
}

/// The digits of a hyphenated identifier.
pub open spec fn without_hyphens(s: Seq<char>) -> Seq<char> {
    s.subrange(0, 8) + s.subrange(9, 13) + s.subrange(14, 18) + s.subrange(19, 23) + s.subrange(
        24,
        36,
    )
}

/// Whether the text is a random identifier with its hyphens.
pub open spec fn is_uuid(s: Seq<char>) -> bool {
    &&& s.len() == 36
    &&& s[8] == '-' && s[13] == '-' && s[18] == '-' && s[23] == '-'
    &&& is_simple_uuid(without_hyphens(s))
}

/// `uuid::Uuid::new_v4` in its hyphenated form: 32 hexadecimal digits in lower case with four
/// hyphens, of version 4 and of the variant of RFC 4122. The other digits are random: nothing is
/// said of them.
#[verifier::external_body]
fn random_uuid() -> (r: String)
    ensures
        is_uuid(r@),
{
    uuid::Uuid::new_v4().to_string()
}

/// `uuid::Uuid::new_v4` in its simple form: 32 hexadecimal digits in lower case, of version 4 and
/// of the variant of RFC 4122. The other digits are random: nothing is said of them.
#[verifier::external_body]
fn random_simple_uuid() -> (r: String)
    ensures
        is_simple_uuid(r@),
{
    uuid::Uuid::new_v4().simple().to_string()
}

/// `std::time::SystemTime::now`, in milliseconds since the Unix epoch; 0 where the clock stands
/// before it. The time is not a function of anything: nothing is said of it.
#[verifier::external_body]
fn system_millis() -> (r: i64) {
    std::time::SystemTime::now()
        .duration_since(std::time::UNIX_EPOCH)
        .map(|duration| duration.as_millis() as i64)
        .unwrap_or_default()
}

/// Whether `id` is an identifier made for `prefix`.
pub open spec fn is_id(id: Seq<char>, prefix: Seq<char>) -> bool {
    &&& begins_with(id, prefix + "_"@)
    &&& is_uuid(id.skip((prefix + "_"@).len() as int))
}

/// A new identifier.
pub fn new_id(prefix: &str) -> (r: String)
    ensures
        is_id(r@, prefix@),
{
    let mut r = prefix.to_owned();
    r.append("_");
    let uuid = random_uuid();
    r.append(&uuid);
    proof {
        let front = prefix@ + "_"@;
        assert(r@.take(front.len() as int) =~= front);
        assert(r@.skip(front.len() as int) =~= uuid@);
    }
    r
}

/// A new identifier without a prefix.
pub fn new_uuid() -> (r: String)
    ensures
        is_uuid(r@),
{
    random_uuid()
}

/// A new identifier of 32 hexadecimal digits.
pub fn new_simple_id() -> (r: String)
    ensures
        is_simple_uuid(r@),
{
    random_simple_uuid()
}

/// The present time in milliseconds. Nothing can be said of it.
pub fn now() -> (r: i64) {
    system_millis()
}

} // verus!
