//! Identifiers and timestamps taken from outside crates: random task and
//! record ids (`uuid`) and the current time (`chrono`).
use vstd::prelude::*;

verus! {

/// A lower-case hexadecimal digit.
pub open spec fn is_lower_hex(c: char) -> bool {
    ('0' as u32 <= c as u32 <= '9' as u32) || ('a' as u32 <= c as u32 <= 'f' as u32)
}

/// The hyphenated lower-case text of a version-4 UUID: 36 characters, '-' at
/// positions 8, 13, 18 and 23, hexadecimal digits elsewhere, the version
/// digit '4' at position 14 and a variant digit 8, 9, a or b at position 19.
pub open spec fn is_uuid_v4_text(s: Seq<char>) -> bool {
    &&& s.len() == 36
    &&& forall|i: int|
        0 <= i < 36 ==> if i == 8 || i == 13 || i == 18 || i == 23 {
            #[trigger] s[i] == '-'
        } else {
            is_lower_hex(s[i])
        }
    &&& s[14] == '4'
    &&& (s[19] == '8' || s[19] == '9' || s[19] == 'a' || s[19] == 'b')
}

/// Calls `uuid::Uuid::new_v4` and formats the result with `to_string`.
///
/// The value is random, so the contract claims only what every outcome
/// satisfies: the hyphenated lower-case version-4 shape that `Uuid`'s
/// `Display` writes and `new_v4`'s fixed version and variant bits give.
#[verifier::external_body]
pub(crate) fn new_uuid_v4() -> (id: String)
    ensures
        is_uuid_v4_text(id@),
{
    uuid::Uuid::new_v4().to_string()
}

/// Calls `chrono::Utc::now` and formats the time with `to_rfc3339`.
///
/// The value depends on the clock, so the contract claims only what every
/// outcome satisfies: a UTC time is written with the offset `+00:00` at the end.
#[verifier::external_body]
pub(crate) fn utc_now_rfc3339() -> (t: String)
    ensures
        t@.len() >= 6,
        t@.subrange(t@.len() - 6, t@.len() as int) == "+00:00"@,
{
    chrono::Utc::now().to_rfc3339()
}

} // verus!
