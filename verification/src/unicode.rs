//! Unicode case and character classes, as std computes them.

use crate::text::{ascii_lower, ascii_lower_all, ascii_upper_all};
use vstd::prelude::*;

verus! {

/// Whether all characters of a text are ASCII.
pub open spec fn is_plain(s: Seq<char>) -> bool {
    forall|i: int| 0 <= i < s.len() ==> (#[trigger] s[i] as u32) < 128
}

/// What `str::to_lowercase` gives for a text.
pub uninterp spec fn lowercase(s: Seq<char>) -> Seq<char>;

/// What `str::to_uppercase` gives for a text.
pub uninterp spec fn uppercase(s: Seq<char>) -> Seq<char>;

/// Whether `char::is_alphabetic` holds of a character.
pub uninterp spec fn is_letter(c: char) -> bool;

/// Whether `char::is_alphanumeric` holds of a character.
pub uninterp spec fn is_letter_or_number(c: char) -> bool;

/// Whether `char::is_uppercase` holds of a character.
pub uninterp spec fn is_capital(c: char) -> bool;

/// What `char::to_lowercase` gives for a character.
pub uninterp spec fn char_lowercase(c: char) -> Seq<char>;

/// `char::to_lowercase` of std: the lower-case form of the character by the Unicode tables, one
/// or more characters that depend on it alone. An ASCII capital letter has its small letter, and any
/// other ASCII character itself.
#[verifier::external_body]
pub(crate) fn lower_char(c: char) -> (r: Vec<char>)
    ensures
        r@ == char_lowercase(c),
        (c as u32) < 128 ==> r@ == seq![ascii_lower(c)],
{
    c.to_lowercase().collect()
}

/// `str::to_lowercase` of std: the lower-case form of the text by the Unicode tables, which
/// depends on the text alone. An ASCII text has its capital letters replaced by small ones.
pub assume_specification[ str::to_lowercase ](s: &str) -> (r: String)
    ensures
        r@ == lowercase(s@),
        is_plain(s@) ==> r@ == ascii_lower_all(s@),
;

/// `str::to_uppercase` of std: the upper-case form of the text by the Unicode tables, which
/// depends on the text alone. An ASCII text has its small letters replaced by capital ones.
pub assume_specification[ str::to_uppercase ](s: &str) -> (r: String)
    ensures
        r@ == uppercase(s@),
        is_plain(s@) ==> r@ == ascii_upper_all(s@),
;

/// `char::is_alphabetic` of std: whether the character has the Unicode property `Alphabetic`.
/// Of the ASCII characters, just the letters have it.
pub assume_specification[ char::is_alphabetic ](c: char) -> (r: bool)
    ensures
        r == is_letter(c),
        (c as u32) < 128 ==> r == (('a' <= c && c <= 'z') || ('A' <= c && c <= 'Z')),
;

/// `char::is_alphanumeric` of std: whether the character is alphabetic or numeric in Unicode.
/// Of the ASCII characters, just the letters and digits are.
pub assume_specification[ char::is_alphanumeric ](c: char) -> (r: bool)
    ensures
        r == is_letter_or_number(c),
        (c as u32) < 128 ==> r == (('a' <= c && c <= 'z') || ('A' <= c && c <= 'Z') || ('0' <= c
            && c <= '9')),
;

/// `char::is_uppercase` of std: whether the character has the Unicode property `Uppercase`.
/// Of the ASCII characters, just the capital letters have it.
pub assume_specification[ char::is_uppercase ](c: char) -> (r: bool)
    ensures
        r == is_capital(c),
        (c as u32) < 128 ==> r == ('A' <= c && c <= 'Z'),
;

} // verus!
