//! What evaluation decides apart from arithmetic: runtime errors, what
//! values are, method and constructor lookup in the class hierarchy, and
//! macro expansion.
pub mod error;

pub use error::RuntimeError;
pub mod value;
pub mod classes;
pub mod macros;
pub mod subst;
pub mod runtime;
