//! A verified loader and lookup index for a tab-separated product dataset.
//!
//! The library decompresses a gzip snapshot, binds the first line as the
//! column header, classifies every later line's fields by the header labels,
//! serializes each record to a JSON payload, and builds an immutable map
//! from product id to payload with last-write-wins on duplicate ids.

mod json;
mod load;
mod record;
mod store;
mod text;

pub use json::serialize_record;
pub use load::{build_index, build_store, DecodeError};
pub use record::{parse_data, parse_header, Record, RecordView};
pub use store::{eq_bytes, fetch_value, lookup_or_not_found, Store};
pub use text::{contains_sub, split_lines};
