//! The transforms themselves.
pub mod conditions;
pub mod filter;
pub mod program;
pub mod route;
pub mod syntax;
