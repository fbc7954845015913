//! Characters and runs of characters: the primitives both parsers are built on.

pub mod convert;
pub mod number;
pub mod order;
pub mod scan;
pub mod split;

