//! Laws of the resolver: what holds of every query, path and index.
//!
//! Each law is a proof function. Its parameters are the values it speaks
//! of, and it is stated over the same models as the contracts of the
//! functions it is about.

pub mod output;
pub mod paths;
pub mod patterns;
pub mod resolution;
pub mod roots;
pub mod search;
