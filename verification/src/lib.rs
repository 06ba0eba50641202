//! Formatter for novel manuscripts written with lightweight inline
//! annotation syntax (ruby glosses `[base:gloss]`, emphasis marks
//! `[text:.]`, inline comments `[#...]`), producing text typeset for an
//! online-publishing convention: annotations become `｜base《gloss》`
//! spans, exclamation marks gain trailing full-width spaces, every line
//! is indented, and comment lines are dropped.
//!
//! A document is segmented into chapters, lines and sentences; a fixed,
//! ordered pipeline of rewrites is applied to each sentence when it is
//! rendered. The whole pipeline is pure text-to-text transformation;
//! reading and writing files is left to callers.

pub mod entities;
pub mod errors;
pub mod text;
