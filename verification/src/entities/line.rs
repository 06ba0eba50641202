//! A line of a novel: the text between two line breaks, trimmed and
//! prefixed with its indent, held as its sentences.
//!
//! The indent is decided once per line, from the first character after
//! trimming: a line opening with `「` is a speech line and receives a
//! single narrow space, every other line is narration and receives a
//! full-width space. The prefix is applied before the line's text
//! becomes a sentence, so it is part of the sentence's text.
//!
//! A sentence runs from the start of the remaining text up to a
//! sentence terminator (`」`, `。`, `.`, `？`, `！`, `!?`, `?!`) or the
//! end of the line, and the match is greedy — it takes as much text as
//! it can. Since the end of the line always closes a match, the greedy
//! match from the start of the line reaches the line's end: one raw
//! line yields exactly one sentence, and terminators inside it (a `.`
//! inside an annotation span, say) never cut it short.

use vstd::prelude::*;

use crate::entities::sentence::Sentence;
use crate::entities::sentence::lemma_rendered_keeps_head;
use crate::entities::sentence::lemma_sentence_rendered_no_break;
use crate::entities::sentence::sentence_rendered;
use crate::text::emit_line;
use crate::text::has_no_break;
use crate::text::lemma_trim_end_last_not_space;
use crate::text::lemma_trim_end_no_break;
use crate::text::lemma_trim_no_break;
use crate::text::str_to_chars;
use crate::text::chars_to_string;
use crate::text::trim_chars;
use crate::text::trim_spec;
use crate::text::trim_start_spec;
use crate::text::trim_end_spec;
use crate::text::FULLWIDTH_SPACE;
use crate::text::SPEECH_OPEN;

verus! {

// ------------------------------------------------------------------
// Boundary rules.
// ------------------------------------------------------------------

/// Whether a trimmed line is a speech line: its first character is the
/// opening corner bracket.
pub open spec fn is_speech_spec(s: Seq<char>) -> bool {
    s.len() > 0 && s[0] == SPEECH_OPEN
}

/// The line with its indent prefix: a narrow space for speech lines, a
/// full-width space for narration lines.
pub open spec fn header_spaced(s: Seq<char>) -> Seq<char> {
    if is_speech_spec(s) {
        seq![' '] + s
    } else {
        seq![FULLWIDTH_SPACE] + s
    }
}

/// Whether a raw line is a comment line: after trimming, it starts with
/// `//`, `>` or `#`.
pub open spec fn is_comment_spec(raw: Seq<char>) -> bool {
    let t = trim_spec(raw);
    ||| (t.len() >= 2 && t[0] == '/' && t[1] == '/')
    ||| (t.len() >= 1 && (t[0] == '>' || t[0] == '#'))
}

// ------------------------------------------------------------------
// The sentences of a line.
// ------------------------------------------------------------------

/// The sentence texts that a raw line yields: the line is trimmed and
/// prefixed, and the greedy sentence match takes all of it, trimmed of
/// trailing whitespace as the sentence is built.
pub open spec fn line_fragments(raw: Seq<char>) -> Seq<Seq<char>> {
    seq![trim_end_spec(header_spaced(trim_spec(raw)))]
}

/// The stored texts of a sequence of sentences.
pub open spec fn sentence_texts(ss: Seq<Sentence>) -> Seq<Seq<char>> {
    ss.map_values(|st: Sentence| st.elements@)
}

/// The concatenation of the rendered forms of the given sentence texts,
/// with no separator.
pub open spec fn rendered_all(texts: Seq<Seq<char>>) -> Seq<char>
    decreases texts.len(),
{
    if texts.len() == 0 {
        Seq::empty()
    } else {
        rendered_all(texts.drop_last()) + sentence_rendered(texts.last())
    }
}

/// The rendered text of one raw line: its sentences rendered and run
/// together.
pub open spec fn line_rendered(raw: Seq<char>) -> Seq<char> {
    rendered_all(line_fragments(raw))
}

// ------------------------------------------------------------------
// A line with no line break renders to a single output line.
// ------------------------------------------------------------------

/// Rendering break-free sentence texts and running them together
/// introduces no line break.
proof fn lemma_rendered_all_no_break(texts: Seq<Seq<char>>)
    requires
        forall|i: int| 0 <= i < texts.len() ==> has_no_break(#[trigger] texts[i]),
    ensures
        has_no_break(rendered_all(texts)),
    decreases texts.len(),
{
    if texts.len() == 0 {
    } else {
        lemma_rendered_all_no_break(texts.drop_last());
        lemma_sentence_rendered_no_break(texts.last());
        let a = rendered_all(texts.drop_last());
        let b = sentence_rendered(texts.last());
        assert forall|x: int| 0 <= x < (a + b).len() implies (a + b)[x] != '\n' by {
            if x >= a.len() {
                assert(b[x - a.len()] != '\n');
            }
        }
    }
}

/// Every rendered non-blank line opens with its indent: a narrow
/// space when the trimmed line is speech, a full-width space when it
/// is narration. The indent is decided once, from the first character
/// after trimming, and no rewrite pass removes it.
pub proof fn lemma_line_keeps_indent(raw: Seq<char>)
    requires
        trim_spec(raw).len() > 0,
    ensures
        line_rendered(raw).len() > 0,
        line_rendered(raw)[0] == if is_speech_spec(trim_spec(raw)) {
            ' '
        } else {
            FULLWIDTH_SPACE
        },
{
    let t = trim_spec(raw);
    let p = header_spaced(t);
    lemma_trim_end_last_not_space(trim_start_spec(raw));
    assert(p.last() == t.last());
    assert(trim_end_spec(p) == p);
    assert(seq![p].drop_last() =~= Seq::<Seq<char>>::empty());
    assert(rendered_all(Seq::<Seq<char>>::empty()) == Seq::<char>::empty());
    assert(rendered_all(seq![p]) == Seq::<char>::empty() + sentence_rendered(p));
    assert(Seq::<char>::empty() + sentence_rendered(p) =~= sentence_rendered(p));
    lemma_rendered_keeps_head(p);
}

/// A line built from break-free raw text renders to a single output
/// line: its rendering contains no line break.
pub proof fn lemma_line_rendered_no_break(raw: Seq<char>)
    requires
        has_no_break(raw),
    ensures
        has_no_break(line_rendered(raw)),
{
    lemma_trim_no_break(raw);
    let t = trim_spec(raw);
    let p = header_spaced(t);
    assert forall|x: int| 0 <= x < p.len() implies p[x] != '\n' by {
        if x >= 1 {
            assert(t[x - 1] != '\n');
        }
    }
    lemma_trim_end_no_break(p);
    lemma_rendered_all_no_break(line_fragments(raw));
}

// ------------------------------------------------------------------
// The line itself.
// ------------------------------------------------------------------

/// One line of a chapter, holding its sentences in document order.
pub struct Line {
    pub elements: Vec<Sentence>,
}

impl Line {
    /// Builds a line from raw text: trims it, prefixes the indent, and
    /// builds its sentences.
    pub fn new(text: &str) -> (line: Self)
        ensures
            sentence_texts(line.elements@) == line_fragments(text@),
    {
        Self::format(text)
    }

    /// Builds the sentences of a raw line.
    pub fn format(text: &str) -> (line: Self)
        ensures
            sentence_texts(line.elements@) == line_fragments(text@),
    {
        let prefixed = Self::add_header_space_of_trimmed(text);
        let element = Sentence::new(prefixed.as_str());
        let mut elements: Vec<Sentence> = Vec::new();
        elements.push(element);
        assert(sentence_texts(elements@) =~= line_fragments(text@));
        Line { elements }
    }

    /// The rendered text of the line: each sentence rendered, run
    /// together with no separator.
    pub fn get(self) -> (r: String)
        ensures
            r@ == rendered_all(sentence_texts(self.elements@)),
    {
        let out = self.rendered_chars();
        chars_to_string(&out)
    }

    /// The rendered text of the line, as characters.
    pub(crate) fn rendered_chars(&self) -> (r: Vec<char>)
        ensures
            r@ == rendered_all(sentence_texts(self.elements@)),
    {
        let mut out: Vec<char> = Vec::new();
        let ghost texts = sentence_texts(self.elements@);
        let mut idx: usize = 0;
        assert(out@ =~= rendered_all(texts.take(0)));
        while idx < self.elements.len()
            invariant
                idx <= self.elements.len(),
                texts == sentence_texts(self.elements@),
                out@ == rendered_all(texts.take(idx as int)),
            decreases self.elements.len() - idx,
        {
            let ghost prev = out@;
            let rendered = (&self.elements[idx]).format();
            let rendered_chars = str_to_chars(rendered.elements.as_str());
            let mut x: usize = 0;
            while x < rendered_chars.len()
                invariant
                    x <= rendered_chars.len(),
                    out@ == prev + rendered_chars@.take(x as int),
                decreases rendered_chars.len() - x,
            {
                out.push(rendered_chars[x]);
                assert(out@ =~= prev + rendered_chars@.take(x as int + 1));
                x = x + 1;
            }
            assert(out@ =~= prev + rendered_chars@);
            assert(texts.take(idx as int + 1).drop_last() =~= texts.take(idx as int));
            assert(out@ =~= rendered_all(texts.take(idx as int + 1)));
            idx = idx + 1;
        }
        assert(texts.take(self.elements@.len() as int) =~= texts);
        out
    }

    /// Prints each rendered sentence of the line on its own output
    /// line.
    pub fn print(self) {
        self.print_sentences();
    }

    /// Prints each rendered sentence on its own output line.
    pub(crate) fn print_sentences(&self) {
        let mut idx: usize = 0;
        while idx < self.elements.len()
            decreases self.elements.len() - idx,
        {
            let rendered = (&self.elements[idx]).format();
            emit_line(rendered.elements.as_str());
            idx = idx + 1;
        }
    }

    /// Trims the raw text and prefixes the indent.
    fn add_header_space_of_trimmed(text: &str) -> (r: String)
        ensures
            r@ == header_spaced(trim_spec(text@)),
    {
        let chars = str_to_chars(text);
        let trimmed = trim_chars(&chars);
        let trimmed_text = chars_to_string(&trimmed);
        Self::add_header_space(trimmed_text.as_str())
    }

    /// The indent prefix applied to a trimmed line: a narrow space for
    /// speech, a full-width space for narration.
    pub fn add_header_space(text: &str) -> (r: String)
        ensures
            r@ == header_spaced(text@),
    {
        let chars = str_to_chars(text);
        let mut prefixed: Vec<char> = Vec::new();
        if chars.len() > 0 && chars[0] == SPEECH_OPEN {
            prefixed.push(' ');
        } else {
            prefixed.push(FULLWIDTH_SPACE);
        }
        let mut i: usize = 0;
        while i < chars.len()
            invariant
                i <= chars.len(),
                prefixed@ == header_spaced(chars@).take(i as int + 1),
            decreases chars.len() - i,
        {
            prefixed.push(chars[i]);
            assert(prefixed@ =~= header_spaced(chars@).take(i as int + 2));
            i = i + 1;
        }
        assert(prefixed@ =~= header_spaced(chars@));
        chars_to_string(&prefixed)
    }

    /// Whether a trimmed line is a speech line.
    pub fn is_speech(text: &str) -> (b: bool)
        ensures
            b == is_speech_spec(text@),
    {
        let chars = str_to_chars(text);
        chars.len() > 0 && chars[0] == SPEECH_OPEN
    }

    /// Whether a raw line is a comment line, to be dropped from output:
    /// after trimming it starts with `//`, `>` or `#`.
    pub fn is_comment(text: &str) -> (b: bool)
        ensures
            b == is_comment_spec(text@),
    {
        let chars = str_to_chars(text);
        let t = trim_chars(&chars);
        (t.len() >= 2 && t[0] == '/' && t[1] == '/') || (t.len() >= 1 && (t[0] == '>' || t[0]
            == '#'))
    }
}

} // verus!
