//! How the failures of decoding typed values from tokens are reported.
//!
//! The texts are put together here from plain values; the failures
//! themselves, with the causes that they wrap, are kept by the caller.

use vstd::prelude::*;
use vstd::string::StringExecFns;

use crate::text::{append_decimal, decimal};

verus! {

/// The report of a token that could not be read as a value: the token, in
/// quotes, and the cause.
pub open spec fn parse_error_text(token: Seq<char>, cause: Seq<char>) -> Seq<char> {
    "error parsing token \""@ + token + "\": "@ + cause
}

/// The report of a field of a tuple that could not be decoded: the position
/// of the field, counted from zero, and the cause.
pub open spec fn tuple_field_text(index: nat, cause: Seq<char>) -> Seq<char> {
    "Error loading tuple field at index "@ + decimal(index) + ": "@ + cause
}

/// The report of a field of a struct that could not be decoded: the name of
/// the field and the cause.
pub open spec fn struct_field_text(field: Seq<char>, cause: Seq<char>) -> Seq<char> {
    "error loading struct field "@ + field + ": "@ + cause
}

/// Reports that `token` could not be read as a value, for the reason that
/// `cause` words.
pub fn parse_error_message(token: &str, cause: &str) -> (r: String)
    ensures
        r@ == parse_error_text(token@, cause@),
{
    let mut text = "error parsing token \"".to_owned();
    text.append(token);
    text.append("\": ");
    text.append(cause);
    assert(text@ =~= parse_error_text(token@, cause@));
    text
}

/// Reports that the field at `index` of a tuple could not be decoded, for
/// the reason that `cause` words.
pub fn tuple_field_message(index: usize, cause: &str) -> (r: String)
    ensures
        r@ == tuple_field_text(index as nat, cause@),
{
    let mut text = "Error loading tuple field at index ".to_owned();
    append_decimal(&mut text, index as u128);
    text.append(": ");
    text.append(cause);
    assert(text@ =~= tuple_field_text(index as nat, cause@));
    text
}

/// Reports that the field `field` of a struct could not be decoded, for the
/// reason that `cause` words.
pub fn struct_field_message(field: &str, cause: &str) -> (r: String)
    ensures
        r@ == struct_field_text(field@, cause@),
{
    let mut text = "error loading struct field ".to_owned();
    text.append(field);
    text.append(": ");
    text.append(cause);
    assert(text@ =~= struct_field_text(field@, cause@));
    text
}

} // verus!
