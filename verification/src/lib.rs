//! Third-party license listings for a Rust crate and its dependencies.
//!
//! [`resolve`] finds the packages that a crate is built from, [`listing`] groups them by
//! license and picks the license texts, and [`generate`] writes the result as HTML or as
//! JSON. [`laws`] states what holds of every listing.

pub mod cfg;
pub mod command;
pub mod error;
pub mod expression;
pub mod files;
pub mod generate;
pub mod harvest;
pub mod html;
pub mod json;
pub mod laws;
pub mod listing;
pub mod order;
pub mod resolve;
pub mod text;
