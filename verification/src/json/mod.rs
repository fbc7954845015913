//! A parser for a restricted JSON dialect: objects, arrays that hold no
//! array, strings without escapes, integers, decimals and booleans.

pub mod grammar;
pub mod parser;
pub mod value;
pub mod writing;
