//! Building blocks of a memory-ordering probe: a small JSON value model
//! with a verified serializer, the records the probe writes to its log,
//! and the decisions its worker threads make.

pub mod json;
pub mod channel_data;
pub mod dummy_data;
pub mod log_name;
pub mod pattern;
pub mod probe;
pub mod records;
