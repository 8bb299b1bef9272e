//! Hex color codes: parsing them into RGB triples and rendering text in the
//! color that it names, line by line or token by token.

pub mod hex;
pub mod laws;
pub mod paint;
pub mod render;
