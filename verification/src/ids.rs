//! Identities of rows.

use uuid::Uuid;
use vstd::prelude::*;

verus! {

/// A lowercase hexadecimal digit.
pub open spec fn is_hex_digit(c: char) -> bool {
    ('0' <= c && c <= '9') || ('a' <= c && c <= 'f')
}

/// The text of a random UUID: 36 characters, hyphens after the digits 8, 12,
/// 16 and 20, and the version 4.
pub open spec fn is_id(text: Seq<char>) -> bool {
    &&& text.len() == 36
    &&& text[14] == '4'
    &&& forall|i: int|
        0 <= i < 36 ==> if i == 8 || i == 13 || i == 18 || i == 23 {
            #[trigger] text[i] == '-'
        } else {
            is_hex_digit(text[i])
        }
}

/// `uuid::Uuid::new_v4`, printed: some random UUID in its hyphenated lowercase
/// form. That two of them differ is a matter of chance and is not claimed.
#[verifier::external_body]
pub(crate) fn new_id() -> (r: String)
    ensures
        is_id(r@),
{
    Uuid::new_v4().to_string()
}

} // verus!
