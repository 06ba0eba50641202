//! Character-level helpers shared by the formatting pipeline: the
//! character classes that drive the boundary rules, whitespace trimming,
//! and conversions between `&str` and `Vec<char>`.

use std::io::Write;
use vstd::prelude::*;
use vstd::std_specs::iter::IteratorSpec;

verus! {

/// U+3000, the ideographic (full-width) space: the narration indent, and
/// the spacing inserted after exclamation and question marks.
pub const FULLWIDTH_SPACE: char = '\u{3000}';

/// U+300C, the opening corner bracket that marks a speech line.
pub const SPEECH_OPEN: char = '\u{300c}';

/// U+300D, the closing corner bracket that ends a speech line;
/// inserted spacing never survives right before it.
pub const CORNER_CLOSE: char = '\u{300d}';

/// U+FF01, the full-width exclamation mark.
pub const FULLWIDTH_EXCLAIM: char = '\u{ff01}';

/// U+FF1F, the full-width question mark.
pub const FULLWIDTH_QUESTION: char = '\u{ff1f}';

/// U+FF09, the full-width closing parenthesis; suppresses inserted
/// spacing right before it.
pub const FULLWIDTH_CLOSE_PAREN: char = '\u{ff09}';

/// U+FF5C, the full-width vertical bar that opens an annotation span in
/// the output markup.
pub const ANNOTATION_BAR: char = '\u{ff5c}';

/// U+300A, the double angle bracket opening an annotation payload.
pub const PAYLOAD_OPEN: char = '\u{300a}';

/// U+300B, the double angle bracket closing an annotation payload.
pub const PAYLOAD_CLOSE: char = '\u{300b}';

/// U+30FB, the katakana middle dot used as the emphasis-mark glyph.
pub const EMPHASIS_DOT: char = '\u{30fb}';

/// The Unicode `White_Space` property, the class used when lines and
/// sentences are trimmed.
pub open spec fn is_space_char(c: char) -> bool {
    let u = c as u32;
    ||| (0x9 <= u && u <= 0xd)
    ||| u == 0x20
    ||| u == 0x85
    ||| u == 0xa0
    ||| u == 0x1680
    ||| (0x2000 <= u && u <= 0x200a)
    ||| u == 0x2028
    ||| u == 0x2029
    ||| u == 0x202f
    ||| u == 0x205f
    ||| u == 0x3000
}

/// Runtime test for [`is_space_char`].
pub fn is_space(c: char) -> (b: bool)
    ensures
        b == is_space_char(c),
{
    let u = c as u32;
    (0x9 <= u && u <= 0xd) || u == 0x20 || u == 0x85 || u == 0xa0 || u == 0x1680 || (0x2000 <= u
        && u <= 0x200a) || u == 0x2028 || u == 0x2029 || u == 0x202f || u == 0x205f || u == 0x3000
}

/// The text with its trailing whitespace removed.
pub open spec fn trim_end_spec(s: Seq<char>) -> Seq<char>
    decreases s.len(),
{
    if s.len() > 0 && is_space_char(s.last()) {
        trim_end_spec(s.drop_last())
    } else {
        s
    }
}

/// The text with its leading whitespace removed.
pub open spec fn trim_start_spec(s: Seq<char>) -> Seq<char>
    decreases s.len(),
{
    if s.len() > 0 && is_space_char(s.first()) {
        trim_start_spec(s.drop_first())
    } else {
        s
    }
}

/// The text with whitespace removed at both ends.
pub open spec fn trim_spec(s: Seq<char>) -> Seq<char> {
    trim_end_spec(trim_start_spec(s))
}

/// Whether the text contains no line break.
pub open spec fn has_no_break(s: Seq<char>) -> bool {
    forall|i: int| 0 <= i < s.len() ==> s[i] != '\n'
}

/// Trimming trailing whitespace introduces no line break.
pub proof fn lemma_trim_end_no_break(s: Seq<char>)
    requires
        has_no_break(s),
    ensures
        has_no_break(trim_end_spec(s)),
    decreases s.len(),
{
    if s.len() > 0 && is_space_char(s.last()) {
        lemma_trim_end_no_break(s.drop_last());
    }
}

/// Trimming leading whitespace introduces no line break.
pub proof fn lemma_trim_start_no_break(s: Seq<char>)
    requires
        has_no_break(s),
    ensures
        has_no_break(trim_start_spec(s)),
    decreases s.len(),
{
    if s.len() > 0 && is_space_char(s.first()) {
        lemma_trim_start_no_break(s.drop_first());
    }
}

/// End-trimmed text never ends with whitespace.
pub proof fn lemma_trim_end_last_not_space(s: Seq<char>)
    requires
        trim_end_spec(s).len() > 0,
    ensures
        !is_space_char(trim_end_spec(s).last()),
    decreases s.len(),
{
    if s.len() > 0 && is_space_char(s.last()) {
        lemma_trim_end_last_not_space(s.drop_last());
    }
}

/// Trimming introduces no line break.
pub proof fn lemma_trim_no_break(s: Seq<char>)
    requires
        has_no_break(s),
    ensures
        has_no_break(trim_spec(s)),
{
    lemma_trim_start_no_break(s);
    lemma_trim_end_no_break(trim_start_spec(s));
}

/// Removes trailing whitespace.
pub fn trim_end_chars(s: &Vec<char>) -> (r: Vec<char>)
    ensures
        r@ == trim_end_spec(s@),
{
    let mut end: usize = s.len();
    assert(s@.take(end as int) =~= s@);
    while end > 0 && is_space(s[end - 1])
        invariant
            end <= s.len(),
            trim_end_spec(s@) == trim_end_spec(s@.take(end as int)),
        decreases end,
    {
        assert(s@.take(end as int).drop_last() =~= s@.take(end as int - 1));
        end = end - 1;
    }
    let mut r: Vec<char> = Vec::new();
    let mut i: usize = 0;
    while i < end
        invariant
            i <= end <= s.len(),
            r@ == s@.take(end as int).take(i as int),
        decreases end - i,
    {
        r.push(s[i]);
        assert(r@ =~= s@.take(end as int).take(i as int + 1));
        i = i + 1;
    }
    assert(s@.take(end as int).take(end as int) =~= s@.take(end as int));
    assert(trim_end_spec(s@.take(end as int)) == s@.take(end as int));
    r
}

/// Removes leading whitespace.
pub fn trim_start_chars(s: &Vec<char>) -> (r: Vec<char>)
    ensures
        r@ == trim_start_spec(s@),
{
    let mut start: usize = 0;
    assert(s@.skip(0) =~= s@);
    while start < s.len() && is_space(s[start])
        invariant
            start <= s.len(),
            trim_start_spec(s@) == trim_start_spec(s@.skip(start as int)),
        decreases s.len() - start,
    {
        assert(s@.skip(start as int).drop_first() =~= s@.skip(start as int + 1));
        start = start + 1;
    }
    let mut r: Vec<char> = Vec::new();
    let mut i: usize = start;
    while i < s.len()
        invariant
            start <= i <= s.len(),
            r@ == s@.subrange(start as int, i as int),
        decreases s.len() - i,
    {
        r.push(s[i]);
        assert(r@ =~= s@.subrange(start as int, i as int + 1));
        i = i + 1;
    }
    assert(r@ =~= s@.skip(start as int));
    assert(trim_start_spec(s@.skip(start as int)) == s@.skip(start as int));
    r
}

/// Removes whitespace at both ends.
pub fn trim_chars(s: &Vec<char>) -> (r: Vec<char>)
    ensures
        r@ == trim_spec(s@),
{
    let headless = trim_start_chars(s);
    trim_end_chars(&headless)
}

/// Collects the characters of a string slice.
pub fn str_to_chars(s: &str) -> (r: Vec<char>)
    ensures
        r@ == s@,
{
    let mut it = s.chars();
    let mut r: Vec<char> = Vec::new();
    let mut done = false;
    while !done
        invariant
            it.obeys_prophetic_iter_laws(),
            it.decrease() is Some,
            r@ + it.remaining() == s@,
            done ==> it.remaining().len() == 0,
        decreases (if done { 0int } else { 1int }), it.decrease()->Some_0,
    {
        let ghost prev = r@;
        let ghost rem = it.remaining();
        match it.next() {
            Some(c) => {
                r.push(c);
                assert(prev + rem =~= r@ + it.remaining());
            },
            None => {
                done = true;
            },
        }
    }
    assert(r@ =~= r@ + it.remaining());
    r
}

/// Relies on `String::from_iter` over characters: the resulting string
/// holds exactly the given characters, in order.
#[verifier::external_body]
pub fn chars_to_string(v: &Vec<char>) -> (r: String)
    ensures
        r@ == v@,
{
    v.iter().collect()
}

/// Relies on `writeln!` to standard output: prints the text followed
/// by a line break. Output only; nothing is stated of it.
#[verifier::external_body]
pub(crate) fn emit_line(s: &str) {
    let _ = writeln!(std::io::stdout(), "{}", s);
}


} // verus!
