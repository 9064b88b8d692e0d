//! Random identifiers.

use crate::etag;
use vstd::prelude::*;

verus! {

/// Whether `s` is an identifier of 32 hexadecimal digits.
pub open spec fn is_simple_id(s: Seq<char>) -> bool {
    &&& s.len() == 32
    &&& forall|i: int| 0 <= i < s.len() ==> etag::is_hex_digit(#[trigger] s[i])
}

/// Whether `s` is an identifier of 32 hexadecimal digits in five groups with
/// hyphens between them.
pub open spec fn is_hyphenated_id(s: Seq<char>) -> bool {
    &&& s.len() == 36
    &&& forall|i: int|
        0 <= i < s.len() ==> if i == 8 || i == 13 || i == 18 || i == 23 {
            #[trigger] s[i] == '-'
        } else {
            etag::is_hex_digit(s[i])
        }
}

/// `uuid::Uuid::new_v4`, shown by `uuid::Uuid::simple`: a random identifier in
/// lower-case hexadecimal digits. That no two of them are the same is likely
/// and not claimed. It panics where the machine has no random numbers to give.
#[verifier::external_body]
pub(crate) fn random_simple_id() -> (r: String)
    ensures
        is_simple_id(r@),
{
    uuid::Uuid::new_v4().simple().to_string()
}

/// `uuid::Uuid::new_v4`, shown as it displays itself: a random identifier in
/// lower-case hexadecimal digits and hyphens. That no two of them are the same
/// is likely and not claimed. It panics where the machine has no random numbers
/// to give.
#[verifier::external_body]
pub(crate) fn random_hyphenated_id() -> (r: String)
    ensures
        is_hyphenated_id(r@),
{
    uuid::Uuid::new_v4().to_string()
}

} // verus!
