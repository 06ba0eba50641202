//! A whole text to be formatted: the pure side of file handling. The
//! text arrives as one in-memory string and leaves as one in-memory
//! string; reading paths and writing files belongs to the caller.

use vstd::prelude::*;
use vstd::string::StringExecFns;

use crate::entities::chapter::Chapter;
use crate::entities::chapter::chapter_fragments;
use crate::entities::chapter::join_lines;
use crate::entities::chapter::line_texts;
use crate::entities::line::rendered_all;

verus! {

/// One source text, already read into memory, held as its chapter.
pub struct TextFile {
    pub chapter: Chapter,
}

impl TextFile {
    /// Builds a text file from the full document text.
    pub fn new(text: &str) -> (f: Self)
        ensures
            line_texts(f.chapter.lines@) == chapter_fragments(text@),
    {
        TextFile { chapter: Chapter::new(text) }
    }

    /// The fully rendered document: the chapter's rendered lines joined
    /// with line breaks, and one trailing line break.
    pub fn format(self) -> (r: String)
        ensures
            r@ == join_lines(
                line_texts(self.chapter.lines@).map_values(|lt: Seq<Seq<char>>| rendered_all(lt)),
            ) + seq!['\n'],
    {
        let mut out = self.chapter.get();
        out.append("\n");
        proof {
            reveal_strlit("\n");
            assert("\n"@ =~= seq!['\n']);
        }
        out
    }
}

} // verus!
