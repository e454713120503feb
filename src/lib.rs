//! Conversion between binary documents and the textual tree format.
//!
//! The binary side is modelled by [`BsonValue`], the textual side by [`Json`].
//! Decoding follows a fixed policy for values the text format cannot hold
//! (see [`decode::decode`]); encoding hands the textual tree to the bson crate.
pub mod error;
pub mod bson_value;
pub mod json_value;
pub mod decode;
pub mod encode;
pub mod laws;

pub use error::ProcessError;
pub use bson_value::{BsonModel, BsonValue, Double};
pub use json_value::{Json, JsonModel, JsonNumber};
pub use decode::{bson_into_simple_json, bson_to_simple_json};
pub use encode::{bytes_or_error, json_into_bson};
