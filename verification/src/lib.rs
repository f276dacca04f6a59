//! Conversion between a host runtime's dynamically typed values and a
//! JSON-shaped value model, without going through JSON text.
//!
//! The host's values are modelled by [`native::Native`], JSON values by
//! [`json::JsonValue`]. [`encode::to_json`] turns a native value into a JSON
//! value (or a typed failure), [`decode::from_json`] goes the other way, and
//! [`errors::JsonError::to_pyerr`] renders any failure as a host error value.

pub mod decode;
pub mod encode;
pub mod errors;
pub mod host;
pub mod json;
pub mod native;
pub mod props;
pub mod text;

pub use crate::decode::from_json;
pub use crate::encode::to_json;
pub use crate::errors::JsonError;
pub use crate::host::PyErr;
pub use crate::json::JsonValue;
pub use crate::native::Native;
