//! A sentence of a novel: one run of text ending at a sentence
//! terminator or at the end of its line.
//!
//! Rendering a sentence applies four rewrites, in this exact order, each
//! pass working on the previous pass's output:
//! 1. a full-width space is inserted after every `！`, `？`, `!?` or
//!    `?!`, except where the next character is a closing bracket; the
//!    pass inserts only and never removes text that was already there;
//! 2. an emphasis span `[text:.]` becomes `｜text《...》` with one
//!    emphasis dot per character of the base text;
//! 3. a ruby span `[base:gloss]` becomes `｜base《gloss》`;
//! 4. every inline comment span `[#...]`, each ending at its own
//!    closing bracket, is deleted; text outside the spans is kept
//!    verbatim.
//!
//! Unrecognized or unbalanced bracket syntax is left untouched: the
//! pipeline never fails.

use vstd::prelude::*;

use crate::text::emit_line;
use crate::text::has_no_break;
use crate::text::trim_end_chars;
use crate::text::trim_end_spec;
use crate::text::str_to_chars;
use crate::text::chars_to_string;
use crate::text::FULLWIDTH_SPACE;
use crate::text::FULLWIDTH_EXCLAIM;
use crate::text::FULLWIDTH_QUESTION;
use crate::text::FULLWIDTH_CLOSE_PAREN;
use crate::text::CORNER_CLOSE;
use crate::text::ANNOTATION_BAR;
use crate::text::PAYLOAD_OPEN;
use crate::text::PAYLOAD_CLOSE;
use crate::text::EMPHASIS_DOT;

verus! {

// ------------------------------------------------------------------
// Pass 1: spacing after exclamation and question marks.
// ------------------------------------------------------------------

/// Whether `c` is a closing bracket before which no space is inserted.
pub open spec fn is_closer_char(c: char) -> bool {
    c == CORNER_CLOSE || c == ')' || c == FULLWIDTH_CLOSE_PAREN
}

/// The space inserted after an exclamation or question mark whose next
/// character stands at `next`: one full-width space, or nothing when a
/// closing bracket follows.
pub open spec fn inserted_space(s: Seq<char>, next: int) -> Seq<char> {
    if next < s.len() && is_closer_char(s[next]) {
        Seq::empty()
    } else {
        seq![FULLWIDTH_SPACE]
    }
}

/// The text with one full-width space inserted after every `!?`, `?!`,
/// `！` or `？`, scanning from position `i`; the two-character pairs are
/// taken as one unit, no space is inserted where a closing bracket
/// follows, and nothing is ever removed.
pub open spec fn exclaim_spaced_from(s: Seq<char>, i: int) -> Seq<char>
    decreases s.len() - i,
{
    if i >= s.len() {
        Seq::empty()
    } else if i + 1 < s.len() && ((s[i] == '!' && s[i + 1] == '?') || (s[i] == '?' && s[i + 1]
        == '!')) {
        seq![s[i], s[i + 1]] + inserted_space(s, i + 2) + exclaim_spaced_from(s, i + 2)
    } else if s[i] == FULLWIDTH_EXCLAIM || s[i] == FULLWIDTH_QUESTION {
        seq![s[i]] + inserted_space(s, i + 1) + exclaim_spaced_from(s, i + 1)
    } else {
        seq![s[i]] + exclaim_spaced_from(s, i + 1)
    }
}

/// The whole text, spaced after exclamation and question marks.
pub open spec fn exclaim_spaced(s: Seq<char>) -> Seq<char> {
    exclaim_spaced_from(s, 0)
}

/// Runtime test for [`is_closer_char`].
fn is_closer(c: char) -> (b: bool)
    ensures
        b == is_closer_char(c),
{
    c == CORNER_CLOSE || c == ')' || c == FULLWIDTH_CLOSE_PAREN
}

/// Inserts a full-width space after each exclamation or question mark,
/// except before a closing bracket.
fn exclaim_pass(s: &Vec<char>) -> (r: Vec<char>)
    ensures
        r@ == exclaim_spaced(s@),
{
    let mut out: Vec<char> = Vec::new();
    let mut i: usize = 0;
    while i < s.len()
        invariant
            i <= s.len(),
            out@ + exclaim_spaced_from(s@, i as int) == exclaim_spaced_from(s@, 0),
        decreases s.len() - i,
    {
        let ghost prev = out@;
        if i + 1 < s.len() && ((s[i] == '!' && s[i + 1] == '?') || (s[i] == '?' && s[i + 1]
            == '!')) {
            out.push(s[i]);
            out.push(s[i + 1]);
            if !(i + 2 < s.len() && is_closer(s[i + 2])) {
                out.push(FULLWIDTH_SPACE);
            }
            assert(out@ =~= prev + (seq![s@[i as int], s@[i as int + 1]] + inserted_space(
                s@,
                i as int + 2,
            )));
            assert(prev + exclaim_spaced_from(s@, i as int) =~= out@ + exclaim_spaced_from(
                s@,
                i as int + 2,
            ));
            i = i + 2;
        } else if s[i] == FULLWIDTH_EXCLAIM || s[i] == FULLWIDTH_QUESTION {
            out.push(s[i]);
            if !(i + 1 < s.len() && is_closer(s[i + 1])) {
                out.push(FULLWIDTH_SPACE);
            }
            assert(out@ =~= prev + (seq![s@[i as int]] + inserted_space(s@, i as int + 1)));
            assert(prev + exclaim_spaced_from(s@, i as int) =~= out@ + exclaim_spaced_from(
                s@,
                i as int + 1,
            ));
            i = i + 1;
        } else {
            out.push(s[i]);
            assert(out@ =~= prev + seq![s@[i as int]]);
            assert(prev + exclaim_spaced_from(s@, i as int) =~= out@ + exclaim_spaced_from(
                s@,
                i as int + 1,
            ));
            i = i + 1;
        }
    }
    assert(out@ =~= out@ + exclaim_spaced_from(s@, s@.len() as int));
    out
}

// ------------------------------------------------------------------
// Pass 2: emphasis-mark (kenten) spans `[text:.]`.
// ------------------------------------------------------------------

/// Length of the base text of an emphasis span whose `[` stands at
/// position `i`, with `k` characters already accepted: the shortest run
/// of non-`]` characters after the `[` that is followed by `:.]`.
pub open spec fn kenten_payload_len(s: Seq<char>, i: int, k: int) -> Option<int>
    decreases s.len() - i - k,
{
    if s.len() < i + k + 4 {
        None
    } else if s[i + 1 + k] == ':' && s[i + 2 + k] == '.' && s[i + 3 + k] == ']' {
        Some(k)
    } else if s[i + 1 + k] == ']' {
        None
    } else {
        kenten_payload_len(s, i, k + 1)
    }
}

/// When an emphasis span is found, its base text lies inside the text
/// and is free of `]`.
proof fn lemma_kenten_payload_bounds(s: Seq<char>, i: int, k0: int)
    requires
        kenten_payload_len(s, i, k0) is Some,
    ensures
        ({
            let k = kenten_payload_len(s, i, k0)->Some_0;
            &&& k0 <= k
            &&& i + k + 4 <= s.len()
            &&& s[i + 1 + k] == ':'
            &&& s[i + 2 + k] == '.'
            &&& s[i + 3 + k] == ']'
            &&& forall|j: int| k0 <= j < k ==> #[trigger] s[i + 1 + j] != ']'
        }),
    decreases s.len() - i - k0,
{
    if s.len() < i + k0 + 4 {
    } else if s[i + 1 + k0] == ':' && s[i + 2 + k0] == '.' && s[i + 3 + k0] == ']' {
    } else if s[i + 1 + k0] == ']' {
    } else {
        lemma_kenten_payload_bounds(s, i, k0 + 1);
    }
}

/// A run of `n` emphasis dots.
pub open spec fn emphasis_dots(n: int) -> Seq<char> {
    Seq::new(n as nat, |j: int| EMPHASIS_DOT)
}

/// The text with every emphasis span `[text:.]` rewritten to
/// `｜text《...》` (one dot per character of the base text), scanning
/// from position `i`; matches are found leftmost-first and the rewritten
/// output is not scanned again.
pub open spec fn kenten_converted_from(s: Seq<char>, i: int) -> Seq<char>
    decreases s.len() - i,
        via kenten_converted_from_decreases
{
    if i >= s.len() {
        Seq::empty()
    } else if s[i] == '[' && kenten_payload_len(s, i, 0) is Some {
        let k = kenten_payload_len(s, i, 0)->Some_0;
        seq![ANNOTATION_BAR] + s.subrange(i + 1, i + 1 + k) + seq![PAYLOAD_OPEN] + emphasis_dots(k)
            + seq![PAYLOAD_CLOSE] + kenten_converted_from(s, i + k + 4)
    } else {
        seq![s[i]] + kenten_converted_from(s, i + 1)
    }
}

#[via_fn]
proof fn kenten_converted_from_decreases(s: Seq<char>, i: int) {
    if i < s.len() && s[i] == '[' && kenten_payload_len(s, i, 0) is Some {
        lemma_kenten_payload_bounds(s, i, 0);
    }
}

/// The whole text with emphasis spans converted.
pub open spec fn kenten_converted(s: Seq<char>) -> Seq<char> {
    kenten_converted_from(s, 0)
}

/// Searches for the end of an emphasis span whose `[` stands at `i`;
/// returns the base text's length in characters.
fn kenten_find_len(s: &Vec<char>, i: usize) -> (r: Option<usize>)
    requires
        i < s.len(),
    ensures
        match r {
            Some(k) => kenten_payload_len(s@, i as int, 0) == Some(k as int) && i + k + 4 <= s.len(),
            None => kenten_payload_len(s@, i as int, 0) is None,
        },
{
    let mut k: usize = 0;
    loop
        invariant
            i < s.len(),
            i + k <= s.len(),
            kenten_payload_len(s@, i as int, 0) == kenten_payload_len(s@, i as int, k as int),
        decreases s.len() - i - k,
    {
        if s.len() - i - k < 4 {
            return None;
        }
        if s[i + 1 + k] == ':' && s[i + 2 + k] == '.' && s[i + 3 + k] == ']' {
            return Some(k);
        }
        if s[i + 1 + k] == ']' {
            return None;
        }
        k = k + 1;
    }
}

/// Rewrites every emphasis span `[text:.]` to `｜text《...》`.
fn kenten_pass(s: &Vec<char>) -> (r: Vec<char>)
    ensures
        r@ == kenten_converted(s@),
{
    let mut out: Vec<char> = Vec::new();
    let mut i: usize = 0;
    while i < s.len()
        invariant
            i <= s.len(),
            out@ + kenten_converted_from(s@, i as int) == kenten_converted_from(s@, 0),
        decreases s.len() - i,
    {
        let ghost prev = out@;
        if s[i] == '[' {
            match kenten_find_len(s, i) {
                Some(k) => {
                    out.push(ANNOTATION_BAR);
                    let ghost bar_done = out@;
                    let mut j: usize = i + 1;
                    while j < i + 1 + k
                        invariant
                            i + 1 <= j <= i + 1 + k,
                            i + k + 4 <= s.len(),
                            out@ == bar_done + s@.subrange(i as int + 1, j as int),
                        decreases i + 1 + k - j,
                    {
                        out.push(s[j]);
                        assert(out@ =~= bar_done + s@.subrange(i as int + 1, j as int + 1));
                        j = j + 1;
                    }
                    out.push(PAYLOAD_OPEN);
                    let ghost open_done = out@;
                    assert(out@ =~= open_done + emphasis_dots(0));
                    let mut d: usize = 0;
                    while d < k
                        invariant
                            d <= k,
                            out@ == open_done + emphasis_dots(d as int),
                        decreases k - d,
                    {
                        out.push(EMPHASIS_DOT);
                        assert(out@ =~= open_done + emphasis_dots(d as int + 1));
                        d = d + 1;
                    }
                    out.push(PAYLOAD_CLOSE);
                    assert(out@ =~= prev + (seq![ANNOTATION_BAR] + s@.subrange(
                        i as int + 1,
                        i as int + 1 + k as int,
                    ) + seq![PAYLOAD_OPEN] + emphasis_dots(k as int) + seq![PAYLOAD_CLOSE]));
                    assert(prev + kenten_converted_from(s@, i as int) =~= out@
                        + kenten_converted_from(s@, i as int + k as int + 4));
                    i = i + k + 4;
                },
                None => {
                    out.push(s[i]);
                    assert(out@ =~= prev + seq![s@[i as int]]);
                    assert(prev + kenten_converted_from(s@, i as int) =~= out@
                        + kenten_converted_from(s@, i as int + 1));
                    i = i + 1;
                },
            }
        } else {
            out.push(s[i]);
            assert(out@ =~= prev + seq![s@[i as int]]);
            assert(prev + kenten_converted_from(s@, i as int) =~= out@ + kenten_converted_from(
                s@,
                i as int + 1,
            ));
            i = i + 1;
        }
    }
    assert(out@ =~= out@ + kenten_converted_from(s@, s@.len() as int));
    out
}

// ------------------------------------------------------------------
// Pass 3: ruby spans `[base:gloss]`.
// ------------------------------------------------------------------

/// Position of the first `]` at or after `j`, with no line break
/// before it: the lazily-matched end of a bracketed span — a ruby
/// gloss, or an inline comment.
pub open spec fn first_close_before_break(s: Seq<char>, j: int) -> Option<int>
    decreases s.len() - j,
{
    if j >= s.len() {
        None
    } else if s[j] == ']' {
        Some(j)
    } else if s[j] == '\n' {
        None
    } else {
        first_close_before_break(s, j + 1)
    }
}

/// A found gloss end lies inside the text.
proof fn lemma_first_close_bounds(s: Seq<char>, j0: int)
    requires
        first_close_before_break(s, j0) is Some,
    ensures
        ({
            let j = first_close_before_break(s, j0)->Some_0;
            &&& j0 <= j < s.len()
            &&& s[j] == ']'
            &&& forall|x: int| j0 <= x < j ==> #[trigger] s[x] != ']' && s[x] != '\n'
        }),
    decreases s.len() - j0,
{
    if j0 >= s.len() {
    } else if s[j0] == ']' {
    } else if s[j0] == '\n' {
    } else {
        lemma_first_close_bounds(s, j0 + 1);
    }
}

/// Length of the base text of a ruby span whose `[` stands at position
/// `i`, with `a` characters already accepted: lazily, the base grows
/// until a `:` is reached whose gloss finds a closing `]`, never across
/// a line break.
pub open spec fn ruby_base_len(s: Seq<char>, i: int, a: int) -> Option<int>
    decreases s.len() - i - a,
{
    if i + 1 + a >= s.len() {
        None
    } else if s[i + 1 + a] == '\n' {
        None
    } else if s[i + 1 + a] == ':' && first_close_before_break(s, i + 2 + a) is Some {
        Some(a)
    } else {
        ruby_base_len(s, i, a + 1)
    }
}

/// When a ruby span is found, its parts lie inside the text.
proof fn lemma_ruby_base_bounds(s: Seq<char>, i: int, a0: int)
    requires
        ruby_base_len(s, i, a0) is Some,
    ensures
        ({
            let a = ruby_base_len(s, i, a0)->Some_0;
            &&& a0 <= a
            &&& i + 1 + a < s.len()
            &&& s[i + 1 + a] == ':'
            &&& first_close_before_break(s, i + 2 + a) is Some
        }),
    decreases s.len() - i - a0,
{
    if i + 1 + a0 >= s.len() {
    } else if s[i + 1 + a0] == '\n' {
    } else if s[i + 1 + a0] == ':' && first_close_before_break(s, i + 2 + a0) is Some {
    } else {
        lemma_ruby_base_bounds(s, i, a0 + 1);
    }
}

/// The text with every ruby span `[base:gloss]` rewritten to
/// `｜base《gloss》`, scanning from position `i`; matches are found
/// leftmost-first, base and gloss both lazily, and unbalanced bracket
/// syntax is left untouched.
pub open spec fn ruby_converted_from(s: Seq<char>, i: int) -> Seq<char>
    decreases s.len() - i,
        via ruby_converted_from_decreases
{
    if i >= s.len() {
        Seq::empty()
    } else if s[i] == '[' && ruby_base_len(s, i, 0) is Some {
        let a = ruby_base_len(s, i, 0)->Some_0;
        let j = first_close_before_break(s, i + 2 + a)->Some_0;
        seq![ANNOTATION_BAR] + s.subrange(i + 1, i + 1 + a) + seq![PAYLOAD_OPEN] + s.subrange(
            i + 2 + a,
            j,
        ) + seq![PAYLOAD_CLOSE] + ruby_converted_from(s, j + 1)
    } else {
        seq![s[i]] + ruby_converted_from(s, i + 1)
    }
}

#[via_fn]
proof fn ruby_converted_from_decreases(s: Seq<char>, i: int) {
    if i < s.len() && s[i] == '[' && ruby_base_len(s, i, 0) is Some {
        lemma_ruby_base_bounds(s, i, 0);
        lemma_first_close_bounds(s, i + 2 + ruby_base_len(s, i, 0)->Some_0);
    }
}

/// The whole text with ruby spans converted.
pub open spec fn ruby_converted(s: Seq<char>) -> Seq<char> {
    ruby_converted_from(s, 0)
}

/// Searches for the first `]` at or after `j0` with no line break
/// before it.
fn find_first_close(s: &Vec<char>, j0: usize) -> (r: Option<usize>)
    requires
        j0 <= s.len(),
    ensures
        match r {
            Some(j) => first_close_before_break(s@, j0 as int) == Some(j as int) && j0 <= j < s.len(),
            None => first_close_before_break(s@, j0 as int) is None,
        },
{
    let mut j: usize = j0;
    while j < s.len()
        invariant
            j0 <= j,
            j <= s.len(),
            first_close_before_break(s@, j0 as int) == first_close_before_break(s@, j as int),
        decreases s.len() - j,
    {
        if s[j] == ']' {
            return Some(j);
        }
        if s[j] == '\n' {
            return None;
        }
        j = j + 1;
    }
    None
}

/// Searches for the parts of a ruby span whose `[` stands at `i`:
/// returns the base length and the position of the closing `]`.
fn ruby_find_parts(s: &Vec<char>, i: usize) -> (r: Option<(usize, usize)>)
    requires
        i < s.len(),
    ensures
        match r {
            Some(parts) => {
                &&& ruby_base_len(s@, i as int, 0) == Some(parts.0 as int)
                &&& first_close_before_break(s@, i as int + 2 + parts.0 as int) == Some(parts.1 as int)
                &&& i + 2 + parts.0 <= parts.1 < s.len()
            },
            None => ruby_base_len(s@, i as int, 0) is None,
        },
{
    let mut a: usize = 0;
    loop
        invariant
            i < s.len(),
            i + 1 + a <= s.len(),
            ruby_base_len(s@, i as int, 0) == ruby_base_len(s@, i as int, a as int),
        decreases s.len() - i - a,
    {
        if i + 1 + a >= s.len() {
            return None;
        }
        let c = s[i + 1 + a];
        if c == '\n' {
            return None;
        }
        if c == ':' {
            match find_first_close(s, i + 2 + a) {
                Some(j) => {
                    return Some((a, j));
                },
                None => {
                },
            }
        }
        a = a + 1;
    }
}

/// Rewrites every ruby span `[base:gloss]` to `｜base《gloss》`.
fn ruby_pass(s: &Vec<char>) -> (r: Vec<char>)
    ensures
        r@ == ruby_converted(s@),
{
    let mut out: Vec<char> = Vec::new();
    let mut i: usize = 0;
    while i < s.len()
        invariant
            i <= s.len(),
            out@ + ruby_converted_from(s@, i as int) == ruby_converted_from(s@, 0),
        decreases s.len() - i,
    {
        let ghost prev = out@;
        if s[i] == '[' {
            match ruby_find_parts(s, i) {
                Some((a, j)) => {
                    out.push(ANNOTATION_BAR);
                    let ghost bar_done = out@;
                    let mut x: usize = i + 1;
                    while x < i + 1 + a
                        invariant
                            i + 1 <= x <= i + 1 + a,
                            i + 1 + a <= s.len(),
                            out@ == bar_done + s@.subrange(i as int + 1, x as int),
                        decreases i + 1 + a - x,
                    {
                        out.push(s[x]);
                        assert(out@ =~= bar_done + s@.subrange(i as int + 1, x as int + 1));
                        x = x + 1;
                    }
                    out.push(PAYLOAD_OPEN);
                    let ghost open_done = out@;
                    let mut y: usize = i + 2 + a;
                    while y < j
                        invariant
                            i + 2 + a <= y <= j,
                            j < s.len(),
                            out@ == open_done + s@.subrange(i as int + 2 + a as int, y as int),
                        decreases j - y,
                    {
                        out.push(s[y]);
                        assert(out@ =~= open_done + s@.subrange(
                            i as int + 2 + a as int,
                            y as int + 1,
                        ));
                        y = y + 1;
                    }
                    out.push(PAYLOAD_CLOSE);
                    assert(out@ =~= prev + (seq![ANNOTATION_BAR] + s@.subrange(
                        i as int + 1,
                        i as int + 1 + a as int,
                    ) + seq![PAYLOAD_OPEN] + s@.subrange(i as int + 2 + a as int, j as int)
                        + seq![PAYLOAD_CLOSE]));
                    assert(prev + ruby_converted_from(s@, i as int) =~= out@ + ruby_converted_from(
                        s@,
                        j as int + 1,
                    ));
                    i = j + 1;
                },
                None => {
                    out.push(s[i]);
                    assert(out@ =~= prev + seq![s@[i as int]]);
                    assert(prev + ruby_converted_from(s@, i as int) =~= out@ + ruby_converted_from(
                        s@,
                        i as int + 1,
                    ));
                    i = i + 1;
                },
            }
        } else {
            out.push(s[i]);
            assert(out@ =~= prev + seq![s@[i as int]]);
            assert(prev + ruby_converted_from(s@, i as int) =~= out@ + ruby_converted_from(
                s@,
                i as int + 1,
            ));
            i = i + 1;
        }
    }
    assert(out@ =~= out@ + ruby_converted_from(s@, s@.len() as int));
    out
}

// ------------------------------------------------------------------
// Pass 4: inline comment spans `[#...]`.
// ------------------------------------------------------------------

/// The text with every inline comment span `[#...]` deleted, scanning
/// from position `i`. A span opens at `[#` and ends at its own closing
/// `]` — the first one after it on the same line; the span is removed
/// whole and the text outside spans is kept verbatim. A `[#` that no
/// `]` closes is left untouched.
pub open spec fn comment_dropped_from(s: Seq<char>, i: int) -> Seq<char>
    decreases s.len() - i,
        via comment_dropped_from_decreases
{
    if i >= s.len() {
        Seq::empty()
    } else if i + 1 < s.len() && s[i] == '[' && s[i + 1] == '#' && first_close_before_break(
        s,
        i + 2,
    ) is Some {
        comment_dropped_from(s, first_close_before_break(s, i + 2)->Some_0 + 1)
    } else {
        seq![s[i]] + comment_dropped_from(s, i + 1)
    }
}

#[via_fn]
proof fn comment_dropped_from_decreases(s: Seq<char>, i: int) {
    if i < s.len() && i + 1 < s.len() && s[i] == '[' && s[i + 1] == '#'
        && first_close_before_break(s, i + 2) is Some {
        lemma_first_close_bounds(s, i + 2);
    }
}

/// The whole text with its inline comment spans deleted.
pub open spec fn comment_dropped(s: Seq<char>) -> Seq<char> {
    comment_dropped_from(s, 0)
}

/// Deletes every inline comment span `[#...]`.
fn comment_pass(s: &Vec<char>) -> (r: Vec<char>)
    ensures
        r@ == comment_dropped(s@),
{
    let mut out: Vec<char> = Vec::new();
    let mut i: usize = 0;
    while i < s.len()
        invariant
            i <= s.len(),
            out@ + comment_dropped_from(s@, i as int) == comment_dropped_from(s@, 0),
        decreases s.len() - i,
    {
        let ghost prev = out@;
        if i + 1 < s.len() && s[i] == '[' && s[i + 1] == '#' {
            match find_first_close(s, i + 2) {
                Some(j) => {
                    assert(prev + comment_dropped_from(s@, i as int) =~= out@
                        + comment_dropped_from(s@, j as int + 1));
                    i = j + 1;
                },
                None => {
                    out.push(s[i]);
                    assert(out@ =~= prev + seq![s@[i as int]]);
                    assert(prev + comment_dropped_from(s@, i as int) =~= out@
                        + comment_dropped_from(s@, i as int + 1));
                    i = i + 1;
                },
            }
        } else {
            out.push(s[i]);
            assert(out@ =~= prev + seq![s@[i as int]]);
            assert(prev + comment_dropped_from(s@, i as int) =~= out@ + comment_dropped_from(
                s@,
                i as int + 1,
            ));
            i = i + 1;
        }
    }
    assert(out@ =~= out@ + comment_dropped_from(s@, s@.len() as int));
    out
}

// ------------------------------------------------------------------
// No pass introduces a line break.
// ------------------------------------------------------------------

/// Exclamation spacing introduces no line break.
proof fn lemma_exclaim_no_break(s: Seq<char>, i: int)
    requires
        0 <= i,
        has_no_break(s),
    ensures
        has_no_break(exclaim_spaced_from(s, i)),
    decreases s.len() - i,
{
    let out = exclaim_spaced_from(s, i);
    if i >= s.len() {
    } else if i + 1 < s.len() && ((s[i] == '!' && s[i + 1] == '?') || (s[i] == '?' && s[i + 1]
        == '!')) {
        lemma_exclaim_no_break(s, i + 2);
        let ins = inserted_space(s, i + 2);
        let rest = exclaim_spaced_from(s, i + 2);
        assert forall|x: int| 0 <= x < out.len() implies out[x] != '\n' by {
            if x >= 2 + ins.len() {
                assert(rest[x - (2 + ins.len())] != '\n');
            }
        }
    } else if s[i] == FULLWIDTH_EXCLAIM || s[i] == FULLWIDTH_QUESTION {
        lemma_exclaim_no_break(s, i + 1);
        let ins = inserted_space(s, i + 1);
        let rest = exclaim_spaced_from(s, i + 1);
        assert forall|x: int| 0 <= x < out.len() implies out[x] != '\n' by {
            if x >= 1 + ins.len() {
                assert(rest[x - (1 + ins.len())] != '\n');
            }
        }
    } else {
        lemma_exclaim_no_break(s, i + 1);
        let rest = exclaim_spaced_from(s, i + 1);
        assert forall|x: int| 0 <= x < out.len() implies out[x] != '\n' by {
            if x >= 1 {
                assert(rest[x - 1] != '\n');
            }
        }
    }
}

/// Emphasis-span conversion introduces no line break.
proof fn lemma_kenten_no_break(s: Seq<char>, i: int)
    requires
        0 <= i,
        has_no_break(s),
    ensures
        has_no_break(kenten_converted_from(s, i)),
    decreases s.len() - i,
{
    let out = kenten_converted_from(s, i);
    if i >= s.len() {
    } else if s[i] == '[' && kenten_payload_len(s, i, 0) is Some {
        lemma_kenten_payload_bounds(s, i, 0);
        let k = kenten_payload_len(s, i, 0)->Some_0;
        lemma_kenten_no_break(s, i + k + 4);
        let rest = kenten_converted_from(s, i + k + 4);
        assert forall|x: int| 0 <= x < out.len() implies out[x] != '\n' by {
            if 1 <= x < 1 + k {
                assert(s.subrange(i + 1, i + 1 + k)[x - 1] == s[i + x]);
            } else if 2 + k <= x < 2 + 2 * k {
                assert(emphasis_dots(k)[x - (2 + k)] == EMPHASIS_DOT);
            } else if x >= 3 + 2 * k {
                assert(rest[x - (3 + 2 * k)] != '\n');
            }
        }
    } else {
        lemma_kenten_no_break(s, i + 1);
        let rest = kenten_converted_from(s, i + 1);
        assert forall|x: int| 0 <= x < out.len() implies out[x] != '\n' by {
            if x >= 1 {
                assert(rest[x - 1] != '\n');
            }
        }
    }
}

/// Ruby-span conversion introduces no line break.
proof fn lemma_ruby_no_break(s: Seq<char>, i: int)
    requires
        0 <= i,
        has_no_break(s),
    ensures
        has_no_break(ruby_converted_from(s, i)),
    decreases s.len() - i,
{
    let out = ruby_converted_from(s, i);
    if i >= s.len() {
    } else if s[i] == '[' && ruby_base_len(s, i, 0) is Some {
        lemma_ruby_base_bounds(s, i, 0);
        let a = ruby_base_len(s, i, 0)->Some_0;
        lemma_first_close_bounds(s, i + 2 + a);
        let j = first_close_before_break(s, i + 2 + a)->Some_0;
        lemma_ruby_no_break(s, j + 1);
        let g = j - (i + 2 + a);
        let rest = ruby_converted_from(s, j + 1);
        assert forall|x: int| 0 <= x < out.len() implies out[x] != '\n' by {
            if 1 <= x < 1 + a {
                assert(s.subrange(i + 1, i + 1 + a)[x - 1] == s[i + x]);
            } else if 2 + a <= x < 2 + a + g {
                assert(s.subrange(i + 2 + a, j)[x - (2 + a)] == s[i + x]);
            } else if x >= 3 + a + g {
                assert(rest[x - (3 + a + g)] != '\n');
            }
        }
    } else {
        lemma_ruby_no_break(s, i + 1);
        let rest = ruby_converted_from(s, i + 1);
        assert forall|x: int| 0 <= x < out.len() implies out[x] != '\n' by {
            if x >= 1 {
                assert(rest[x - 1] != '\n');
            }
        }
    }
}

/// Comment removal introduces no line break.
proof fn lemma_comment_no_break(s: Seq<char>, i: int)
    requires
        0 <= i,
        has_no_break(s),
    ensures
        has_no_break(comment_dropped_from(s, i)),
    decreases s.len() - i,
{
    let out = comment_dropped_from(s, i);
    if i >= s.len() {
    } else if i + 1 < s.len() && s[i] == '[' && s[i + 1] == '#' && first_close_before_break(
        s,
        i + 2,
    ) is Some {
        lemma_first_close_bounds(s, i + 2);
        lemma_comment_no_break(s, first_close_before_break(s, i + 2)->Some_0 + 1);
    } else {
        lemma_comment_no_break(s, i + 1);
        let rest = comment_dropped_from(s, i + 1);
        assert forall|x: int| 0 <= x < out.len() implies out[x] != '\n' by {
            if x >= 1 {
                assert(rest[x - 1] != '\n');
            }
        }
    }
}

/// Rendering a sentence introduces no line break.
pub proof fn lemma_sentence_rendered_no_break(s: Seq<char>)
    requires
        has_no_break(s),
    ensures
        has_no_break(sentence_rendered(s)),
{
    lemma_exclaim_no_break(s, 0);
    lemma_kenten_no_break(exclaim_spaced(s), 0);
    lemma_ruby_no_break(kenten_converted(exclaim_spaced(s)), 0);
    lemma_comment_no_break(ruby_converted(kenten_converted(exclaim_spaced(s))), 0);
}

// ------------------------------------------------------------------
// What the pipeline never touches.
// ------------------------------------------------------------------

/// A sentence whose text opens with a character no rule rewrites —
/// not an exclamation or question mark and not `[` — renders with
/// that character still first. In particular a line's indent, a plain
/// or a full-width space, survives rendering.
pub proof fn lemma_rendered_keeps_head(s: Seq<char>)
    requires
        s.len() > 0,
        s[0] != '!',
        s[0] != '?',
        s[0] != FULLWIDTH_EXCLAIM,
        s[0] != FULLWIDTH_QUESTION,
        s[0] != '[',
    ensures
        sentence_rendered(s).len() > 0,
        sentence_rendered(s)[0] == s[0],
{
    let spaced = exclaim_spaced(s);
    assert(spaced == seq![s[0]] + exclaim_spaced_from(s, 1));
    let kentened = kenten_converted(spaced);
    assert(kentened == seq![spaced[0]] + kenten_converted_from(spaced, 1));
    let rubied = ruby_converted(kentened);
    assert(rubied == seq![kentened[0]] + ruby_converted_from(kentened, 1));
    let dropped = comment_dropped(rubied);
    assert(dropped == seq![rubied[0]] + comment_dropped_from(rubied, 1));
}

/// Emphasis-span conversion leaves bracket-free text unchanged.
pub proof fn lemma_kenten_skips_bracketless(s: Seq<char>, i: int)
    requires
        0 <= i <= s.len(),
        forall|j: int| i <= j < s.len() ==> #[trigger] s[j] != '[',
    ensures
        kenten_converted_from(s, i) == s.subrange(i, s.len() as int),
    decreases s.len() - i,
{
    if i >= s.len() {
        assert(s.subrange(i, s.len() as int) =~= Seq::<char>::empty());
    } else {
        lemma_kenten_skips_bracketless(s, i + 1);
        assert(seq![s[i]] + s.subrange(i + 1, s.len() as int) =~= s.subrange(
            i,
            s.len() as int,
        ));
    }
}

/// Ruby-span conversion leaves bracket-free text unchanged.
pub proof fn lemma_ruby_skips_bracketless(s: Seq<char>, i: int)
    requires
        0 <= i <= s.len(),
        forall|j: int| i <= j < s.len() ==> #[trigger] s[j] != '[',
    ensures
        ruby_converted_from(s, i) == s.subrange(i, s.len() as int),
    decreases s.len() - i,
{
    if i >= s.len() {
        assert(s.subrange(i, s.len() as int) =~= Seq::<char>::empty());
    } else {
        lemma_ruby_skips_bracketless(s, i + 1);
        assert(seq![s[i]] + s.subrange(i + 1, s.len() as int) =~= s.subrange(
            i,
            s.len() as int,
        ));
    }
}

/// Comment removal leaves bracket-free text unchanged.
pub proof fn lemma_comment_skips_bracketless(s: Seq<char>, i: int)
    requires
        0 <= i <= s.len(),
        forall|j: int| i <= j < s.len() ==> #[trigger] s[j] != '[',
    ensures
        comment_dropped_from(s, i) == s.subrange(i, s.len() as int),
    decreases s.len() - i,
{
    if i >= s.len() {
        assert(s.subrange(i, s.len() as int) =~= Seq::<char>::empty());
    } else {
        lemma_comment_skips_bracketless(s, i + 1);
        assert(seq![s[i]] + s.subrange(i + 1, s.len() as int) =~= s.subrange(
            i,
            s.len() as int,
        ));
    }
}

// ------------------------------------------------------------------
// The emphasis-span round trip.
// ------------------------------------------------------------------

/// Scanning `[base:.]` accepts exactly the whole base text.
proof fn lemma_kenten_scan_whole_base(base: Seq<char>, k: int)
    requires
        forall|j: int| 0 <= j < base.len() ==> #[trigger] base[j] != ']',
        0 <= k <= base.len(),
    ensures
        kenten_payload_len(seq!['['] + base + seq![':', '.', ']'], 0, k) == Some(
            base.len() as int,
        ),
    decreases base.len() - k,
{
    let s = seq!['['] + base + seq![':', '.', ']'];
    let n = base.len() as int;
    assert(s.len() == n + 3 + 1);
    if k == n {
        assert(s[1 + k] == ':' && s[2 + k] == '.' && s[3 + k] == ']');
    } else {
        assert(s[1 + k] == base[k]);
        if k + 3 <= n {
            assert(s[3 + k] == base[k + 2]);
        } else if k == n - 2 {
            assert(s[3 + k] == ':');
        } else {
            assert(k == n - 1);
            assert(s[3 + k] == '.');
        }
        assert(!(s[1 + k] == ':' && s[2 + k] == '.' && s[3 + k] == ']'));
        lemma_kenten_scan_whole_base(base, k + 1);
    }
}

/// The emphasis-span round trip: for any base text free of `]`, the
/// span `[base:.]` converts to an annotation span holding the base text
/// verbatim, with a payload of emphasis dots exactly as long as the
/// base text — one dot per character.
pub proof fn lemma_kenten_round_trip(base: Seq<char>)
    requires
        forall|j: int| 0 <= j < base.len() ==> #[trigger] base[j] != ']',
    ensures
        kenten_converted(seq!['['] + base + seq![':', '.', ']']) == seq![ANNOTATION_BAR] + base
            + seq![PAYLOAD_OPEN] + emphasis_dots(base.len() as int) + seq![PAYLOAD_CLOSE],
        emphasis_dots(base.len() as int).len() == base.len(),
        forall|j: int|
            0 <= j < base.len() ==> emphasis_dots(base.len() as int)[j] == EMPHASIS_DOT,
{
    let s = seq!['['] + base + seq![':', '.', ']'];
    let n = base.len() as int;
    lemma_kenten_scan_whole_base(base, 0);
    assert(s[0] == '[');
    assert(kenten_converted_from(s, 0) == seq![ANNOTATION_BAR] + s.subrange(1, 1 + n)
        + seq![PAYLOAD_OPEN] + emphasis_dots(n) + seq![PAYLOAD_CLOSE] + kenten_converted_from(
        s,
        n + 4,
    ));
    assert(s.subrange(1, 1 + n) =~= base);
    assert(kenten_converted_from(s, n + 4) =~= Seq::<char>::empty());
    assert(kenten_converted(s) =~= seq![ANNOTATION_BAR] + base + seq![PAYLOAD_OPEN]
        + emphasis_dots(n) + seq![PAYLOAD_CLOSE]);
}

// ------------------------------------------------------------------
// The sentence itself.
// ------------------------------------------------------------------

/// The fully rendered text of a sentence whose stored text is `s`: the
/// four rewrite passes in their fixed order, each working on the
/// previous pass's output.
pub open spec fn sentence_rendered(s: Seq<char>) -> Seq<char> {
    comment_dropped(ruby_converted(kenten_converted(exclaim_spaced(s))))
}

/// One sentence of a line. `elements` holds the raw text as given at
/// construction, trimmed of trailing whitespace; rendering is applied
/// on demand.
pub struct Sentence {
    pub elements: String,
}

impl Sentence {
    /// Builds a sentence from raw text, dropping trailing whitespace.
    pub fn new(sentence: &str) -> (s: Self)
        ensures
            s.elements@ == trim_end_spec(sentence@),
    {
        let chars = str_to_chars(sentence);
        let trimmed = trim_end_chars(&chars);
        Sentence { elements: chars_to_string(&trimmed) }
    }

    /// Applies the exclamation-spacing pass: one full-width space is
    /// inserted after every `！`, `？`, `!?` or `?!`, except where a
    /// closing bracket follows; nothing already in the text is removed.
    pub fn add_space_after_exclamation(&self) -> (s: Self)
        ensures
            s.elements@ == exclaim_spaced(self.elements@),
    {
        let chars = str_to_chars(self.elements.as_str());
        let spaced = exclaim_pass(&chars);
        Sentence { elements: chars_to_string(&spaced) }
    }

    /// Converts every emphasis span `[text:.]` to annotation markup
    /// with one dot per character.
    pub fn convert_kenten(&self) -> (s: Self)
        ensures
            s.elements@ == kenten_converted(self.elements@),
    {
        let chars = str_to_chars(self.elements.as_str());
        let converted = kenten_pass(&chars);
        Sentence { elements: chars_to_string(&converted) }
    }

    /// Converts every ruby span `[base:gloss]` to annotation markup.
    pub fn convert_ruby(&self) -> (s: Self)
        ensures
            s.elements@ == ruby_converted(self.elements@),
    {
        let chars = str_to_chars(self.elements.as_str());
        let converted = ruby_pass(&chars);
        Sentence { elements: chars_to_string(&converted) }
    }

    /// Deletes every inline comment span `[#...]`, each ending at its
    /// own closing bracket; text outside the spans is kept verbatim.
    pub fn drop_comment(&self) -> (s: Self)
        ensures
            s.elements@ == comment_dropped(self.elements@),
    {
        let chars = str_to_chars(self.elements.as_str());
        let dropped = comment_pass(&chars);
        Sentence { elements: chars_to_string(&dropped) }
    }

    /// Renders the sentence: exclamation spacing, then emphasis marks,
    /// then ruby, then comment removal, in that fixed order.
    pub fn format(&self) -> (s: Self)
        ensures
            s.elements@ == sentence_rendered(self.elements@),
    {
        self.add_space_after_exclamation().convert_kenten().convert_ruby().drop_comment()
    }

    /// The rendered text of the sentence.
    pub fn get(self) -> (r: String)
        ensures
            r@ == sentence_rendered(self.elements@),
    {
        self.format().elements
    }

    /// Prints the rendered sentence on its own output line.
    pub fn print(self) {
        let rendered = self.format();
        emit_line(rendered.elements.as_str());
    }
}

} // verus!
