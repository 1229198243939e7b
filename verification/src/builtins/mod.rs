//! The object model: values, properties, objects and the built-in `Symbol`.

pub mod function;
pub mod object;
pub mod property;
pub mod symbol;
pub mod value;
