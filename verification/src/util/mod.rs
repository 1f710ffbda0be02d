//! Small building blocks.

pub mod either;
