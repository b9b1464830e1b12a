//! JSON values and their text.

pub mod escape;
pub mod number;
pub mod text;
pub mod value;
