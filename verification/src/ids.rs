//! Fresh identifiers for scenes, clips and recordings.

use crate::text::is_digit;
use vstd::prelude::*;

verus! {

/// Whether `s` has the shape of a random identifier: lower-case hexadecimal digits in groups
/// of 8, 4, 4, 4 and 12 with hyphens between them, version digit 4, and a variant digit from 8 to b.
pub open spec fn is_uuid(s: Seq<char>) -> bool {
    &&& s.len() == 36
    &&& s[14] == '4'
    &&& s[19] == '8' || s[19] == '9' || s[19] == 'a' || s[19] == 'b'
    &&& forall|i: int|
        0 <= i < 36 ==> if i == 8 || i == 13 || i == 18 || i == 23 {
            #[trigger] s[i] == '-'
        } else {
            is_digit(s[i]) || ('a' <= s[i] && s[i] <= 'f')
        }
}

/// `uuid::Uuid::new_v4`, written out by its `Display`: a random identifier. Which one is left
/// open; its shape is not.
#[verifier::external_body]
pub(crate) fn fresh_id() -> (r: String)
    ensures
        is_uuid(r@),
{
    uuid::Uuid::new_v4().to_string()
}

} // verus!
