//! The identifiers under which documents are stored.

use vstd::prelude::*;
use crate::path::{is_plain_char, is_safe_name};

verus! {

/// One of the sixteen characters of lower-case hexadecimal writing.
pub open spec fn is_hex_digit(c: char) -> bool {
    ('0' <= c && c <= '9') || ('a' <= c && c <= 'f')
}

/// The shape of an identifier: twenty-four hexadecimal digits.
pub open spec fn is_identifier(id: Seq<char>) -> bool {
    &&& id.len() == 24
    &&& forall|i: int| 0 <= i < id.len() ==> is_hex_digit(#[trigger] id[i])
}

/// Calls `bson::oid::ObjectId::new` and writes the twelve bytes it gives in
/// hexadecimal, as `ObjectId::to_hex` does. Which identifier comes out
/// depends on the clock, on the process and on a counter: the contract states
/// its shape and nothing else. The call panics where the clock reads a time
/// before 1970 or after 2106.
#[verifier::external_body]
pub(crate) fn fresh_identifier() -> (id: String)
    ensures
        is_identifier(id@),
{
    bson::oid::ObjectId::new().to_hex()
}

/// An identifier is a safe name.
pub proof fn lemma_identifier_is_safe(id: Seq<char>)
    requires
        is_identifier(id),
    ensures
        is_safe_name(id),
{
    assert forall|i: int| 0 <= i < id.len() implies is_plain_char(#[trigger] id[i]) by {
        assert(is_hex_digit(id[i]));
    }
    assert(id != seq!['.']);
    assert(id != seq!['.', '.']);
}

} // verus!
