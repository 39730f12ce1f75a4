//! Typed `key=value` statements in the plain-text ndb style.

pub mod ascii;
pub mod parser;
pub mod value;
