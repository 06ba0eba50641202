//! The document model: a chapter is a sequence of lines, a line a
//! sequence of sentences, and a sentence an atomic run of text to which
//! the rewrite pipeline is applied when it is rendered.

pub mod chapter;
pub mod line;
pub mod sentence;
pub mod text_file;
