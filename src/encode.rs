use vstd::prelude::*;
use crate::error::ProcessError;

verus! {

/// serde_json's textual tree, handed to bson unread.
#[verifier::external_type_specification]
#[verifier::external_body]
pub struct ExJsonValue(serde_json::Value);

/// bson's value tree, produced and consumed by bson only.
#[verifier::external_type_specification]
#[verifier::external_body]
pub struct ExBson(bson::Bson);

/// bson's serialisation error.
#[verifier::external_type_specification]
#[verifier::external_body]
pub struct ExSerError(bson::ser::Error);

/// The binary value that bson::to_bson builds from a textual tree, or `None`
/// where it fails; it depends on the tree alone.
pub uninterp spec fn to_bson_of(json: serde_json::Value) -> Option<bson::Bson>;

/// The bytes that bson::to_vec writes for a binary value, or `None` where it
/// fails; they depend on the value alone.
pub uninterp spec fn to_vec_of(b: bson::Bson) -> Option<Seq<u8>>;

/// Relies on bson::to_bson: builds the binary value of a textual tree, with
/// bson's own choice of integer and float types, or fails.
#[verifier::external_body]
fn json_to_bson_value(json: &serde_json::Value) -> (r: Result<bson::Bson, bson::ser::Error>)
    ensures
        match r {
            Ok(b) => to_bson_of(*json) == Some(b),
            Err(_) => to_bson_of(*json) is None,
        },
{
    bson::to_bson(json)
}

/// Relies on bson::to_vec: writes a binary value as the bytes of a document,
/// or fails (among other cases, when the value is not a document).
#[verifier::external_body]
fn bson_value_to_bytes(b: &bson::Bson) -> (r: Result<Vec<u8>, bson::ser::Error>)
    ensures
        match r {
            Ok(bytes) => to_vec_of(*b) == Some(bytes@),
            Err(_) => to_vec_of(*b) is None,
        },
{
    bson::to_vec(b)
}

/// The outcome of writing the bytes, as this library reports it: the bytes
/// unchanged, or `FromJsonConvertError` whatever bson's error was.
pub fn bytes_or_error(written: Result<Vec<u8>, bson::ser::Error>) -> (r: Result<
    Vec<u8>,
    ProcessError,
>)
    ensures
        match written {
            Ok(bytes) => r matches Ok(out) && out@ == bytes@,
            Err(_) => r == Err::<Vec<u8>, ProcessError>(ProcessError::FromJsonConvertError),
        },
{
    match written {
        Ok(bytes) => Ok(bytes),
        Err(_) => Err(ProcessError::FromJsonConvertError),
    }
}

/// Encodes a textual tree as binary-document bytes through the bson crate.
/// The result is the bytes bson writes for the value bson builds from the
/// tree; either step's failure is reported as `FromJsonConvertError`.
pub fn json_into_bson(json: &serde_json::Value) -> (r: Result<Vec<u8>, ProcessError>)
    ensures
        match to_bson_of(*json) {
            Some(b) => match to_vec_of(b) {
                Some(bytes) => r matches Ok(out) && out@ == bytes,
                None => r == Err::<Vec<u8>, ProcessError>(ProcessError::FromJsonConvertError),
            },
            None => r == Err::<Vec<u8>, ProcessError>(ProcessError::FromJsonConvertError),
        },
{
    match json_to_bson_value(json) {
        Ok(value) => bytes_or_error(bson_value_to_bytes(&value)),
        Err(_) => Err(ProcessError::FromJsonConvertError),
    }
}

} // verus!
