//! Generates C# data classes from a parsed JSON document: one class per
//! object shape, one property per key, discovered breadth-first.

pub mod csharp;
pub mod json;
pub mod laws;
pub mod generator;
pub mod model;
pub mod text;
