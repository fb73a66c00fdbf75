//! Small line-oriented text tools: echo, a line counter, a pattern filter
//! and a collapser of repeated lines, with their logic verified.

pub mod echo;
pub mod grep;
pub mod text;
pub mod uniq;
pub mod wc;
