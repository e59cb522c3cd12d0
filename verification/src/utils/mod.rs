//! Helpers for laying out text.

pub mod string_ops;
pub mod yaml;
