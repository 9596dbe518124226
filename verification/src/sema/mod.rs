//! Semantic analysis — name resolution and type checking.

pub mod types;
pub mod rules;
pub mod faults;
pub mod checker;
