//! Geographic region management.

pub mod children;
pub mod files;
pub mod tree;
