//! A chapter of a novel: the lines of one input text, in document
//! order, with comment lines dropped before any line is built.
//!
//! Formatting is not idempotent: running the formatter on its own
//! output applies exclamation spacing again, after the spaces the
//! first run already inserted ([`lemma_formatting_not_idempotent`]
//! proves a witness). Format a source text once, never its own output.

use vstd::prelude::*;

use crate::entities::line::Line;
use crate::entities::line::header_spaced;
use crate::entities::line::line_fragments;
use crate::entities::line::line_rendered;
use crate::entities::line::is_comment_spec;
use crate::entities::line::lemma_line_rendered_no_break;
use crate::entities::line::rendered_all;
use crate::entities::line::sentence_texts;
use crate::entities::sentence::exclaim_spaced_from;
use crate::entities::sentence::inserted_space;
use crate::entities::sentence::lemma_comment_skips_bracketless;
use crate::entities::sentence::lemma_kenten_skips_bracketless;
use crate::entities::sentence::lemma_ruby_skips_bracketless;
use crate::entities::sentence::sentence_rendered;
use crate::text::has_no_break;
use crate::text::is_space_char;
use crate::text::FULLWIDTH_SPACE;
use crate::text::str_to_chars;
use crate::text::trim_end_spec;
use crate::text::trim_start_spec;
use crate::text::trim_spec;
use crate::text::chars_to_string;

verus! {

// ------------------------------------------------------------------
// Line splitting.
// ------------------------------------------------------------------

/// Position of the first line break at or after `p`.
pub open spec fn first_newline(s: Seq<char>, p: int) -> Option<int>
    decreases s.len() - p,
{
    if p >= s.len() {
        None
    } else if s[p] == '\n' {
        Some(p)
    } else {
        first_newline(s, p + 1)
    }
}

/// A found line break lies inside the text, and none stands before it.
proof fn lemma_first_newline_bounds(s: Seq<char>, p0: int)
    requires
        first_newline(s, p0) is Some,
    ensures
        ({
            let q = first_newline(s, p0)->Some_0;
            &&& p0 <= q < s.len()
            &&& s[q] == '\n'
            &&& forall|x: int| p0 <= x < q ==> #[trigger] s[x] != '\n'
        }),
    decreases s.len() - p0,
{
    if p0 >= s.len() {
    } else if s[p0] == '\n' {
    } else {
        lemma_first_newline_bounds(s, p0 + 1);
    }
}

/// The raw lines of the text from position `start`: split at every
/// line break; a trailing line break yields no final empty line.
pub open spec fn split_lines_from(s: Seq<char>, start: int) -> Seq<Seq<char>>
    decreases s.len() - start,
        via split_lines_from_decreases
{
    if start >= s.len() {
        Seq::empty()
    } else if first_newline(s, start) is Some {
        let q = first_newline(s, start)->Some_0;
        seq![s.subrange(start, q)] + split_lines_from(s, q + 1)
    } else {
        seq![s.subrange(start, s.len() as int)]
    }
}

#[via_fn]
proof fn split_lines_from_decreases(s: Seq<char>, start: int) {
    if start < s.len() && first_newline(s, start) is Some {
        lemma_first_newline_bounds(s, start);
    }
}

/// The raw lines of the whole text.
pub open spec fn split_lines(s: Seq<char>) -> Seq<Seq<char>> {
    split_lines_from(s, 0)
}

/// The raw lines that survive comment filtering, in order.
pub open spec fn chapter_line_sources(text: Seq<char>) -> Seq<Seq<char>> {
    split_lines(text).filter(|l: Seq<char>| !is_comment_spec(l))
}

/// The sentence texts of each kept line of the text from position
/// `start`: comment lines are dropped before a line is built.
pub open spec fn chapter_fragments_from(s: Seq<char>, start: int) -> Seq<Seq<Seq<char>>>
    decreases s.len() - start,
        via chapter_fragments_from_decreases
{
    if start >= s.len() {
        Seq::empty()
    } else if first_newline(s, start) is Some {
        let q = first_newline(s, start)->Some_0;
        let piece = s.subrange(start, q);
        if is_comment_spec(piece) {
            chapter_fragments_from(s, q + 1)
        } else {
            seq![line_fragments(piece)] + chapter_fragments_from(s, q + 1)
        }
    } else {
        let piece = s.subrange(start, s.len() as int);
        if is_comment_spec(piece) {
            Seq::empty()
        } else {
            seq![line_fragments(piece)]
        }
    }
}

#[via_fn]
proof fn chapter_fragments_from_decreases(s: Seq<char>, start: int) {
    if start < s.len() && first_newline(s, start) is Some {
        lemma_first_newline_bounds(s, start);
    }
}

/// The sentence texts of each kept line of the whole text.
pub open spec fn chapter_fragments(text: Seq<char>) -> Seq<Seq<Seq<char>>> {
    chapter_fragments_from(text, 0)
}

/// The rendered lines joined with single line breaks, none trailing.
pub open spec fn join_lines(rendered: Seq<Seq<char>>) -> Seq<char>
    decreases rendered.len(),
{
    if rendered.len() == 0 {
        Seq::empty()
    } else if rendered.len() == 1 {
        rendered[0]
    } else {
        join_lines(rendered.drop_last()) + seq!['\n'] + rendered.last()
    }
}

/// The stored sentence texts of a sequence of lines.
pub open spec fn line_texts(ls: Seq<Line>) -> Seq<Seq<Seq<char>>> {
    ls.map_values(|l: Line| sentence_texts(l.elements@))
}

/// The fully rendered output of one input text: every kept line
/// rendered and the results joined with line breaks.
pub open spec fn chapter_rendered(text: Seq<char>) -> Seq<char> {
    join_lines(chapter_line_sources(text).map_values(|l: Seq<char>| line_rendered(l)))
}

/// Searches for the first line break at or after `p0`.
fn find_newline(s: &Vec<char>, p0: usize) -> (r: Option<usize>)
    requires
        p0 <= s.len(),
    ensures
        match r {
            Some(q) => first_newline(s@, p0 as int) == Some(q as int) && p0 <= q < s.len(),
            None => first_newline(s@, p0 as int) is None,
        },
{
    let mut p: usize = p0;
    while p < s.len()
        invariant
            p0 <= p <= s.len(),
            first_newline(s@, p0 as int) == first_newline(s@, p as int),
        decreases s.len() - p,
    {
        if s[p] == '\n' {
            return Some(p);
        }
        p = p + 1;
    }
    None
}

// ------------------------------------------------------------------
// What a chapter keeps and drops.
// ------------------------------------------------------------------

/// The kept fragments are the line fragments of the non-comment raw
/// lines, in order.
proof fn lemma_chapter_fragments_filtered(s: Seq<char>, start: int)
    ensures
        chapter_fragments_from(s, start) == split_lines_from(s, start).filter(
            |l: Seq<char>| !is_comment_spec(l),
        ).map_values(|l: Seq<char>| line_fragments(l)),
    decreases s.len() - start,
{
    let pred = |l: Seq<char>| !is_comment_spec(l);
    let frag = |l: Seq<char>| line_fragments(l);
    reveal_with_fuel(Seq::filter, 2);
    if start >= s.len() {
        assert(split_lines_from(s, start).filter(pred).map_values(frag) =~= Seq::<
            Seq<Seq<char>>,
        >::empty());
    } else if first_newline(s, start) is Some {
        lemma_first_newline_bounds(s, start);
        let q = first_newline(s, start)->Some_0;
        let piece = s.subrange(start, q);
        let rest = split_lines_from(s, q + 1);
        lemma_chapter_fragments_filtered(s, q + 1);
        Seq::filter_distributes_over_add(seq![piece], rest, pred);
        assert(seq![piece].drop_last() =~= Seq::<Seq<char>>::empty());
        if is_comment_spec(piece) {
            assert(seq![piece].filter(pred) =~= Seq::<Seq<char>>::empty());
            assert((seq![piece].filter(pred) + rest.filter(pred)) =~= rest.filter(pred));
        } else {
            assert(seq![piece].filter(pred) =~= seq![piece]);
            assert((seq![piece] + rest).filter(pred).map_values(frag) =~= seq![frag(piece)]
                + rest.filter(pred).map_values(frag));
        }
    } else {
        let piece = s.subrange(start, s.len() as int);
        assert(seq![piece].drop_last() =~= Seq::<Seq<char>>::empty());
        if is_comment_spec(piece) {
            assert(split_lines_from(s, start).filter(pred).map_values(frag) =~= Seq::<
                Seq<Seq<char>>,
            >::empty());
        } else {
            assert(split_lines_from(s, start).filter(pred).map_values(frag) =~= seq![
                frag(piece),
            ]);
        }
    }
}

/// Comment-classified lines never reach the output: the lines a chapter
/// keeps are exactly the non-comment raw lines, in their original
/// order, and none of them is a comment.
pub proof fn lemma_comment_lines_dropped(text: Seq<char>)
    ensures
        chapter_fragments(text) == chapter_line_sources(text).map_values(
            |l: Seq<char>| line_fragments(l),
        ),
        forall|i: int|
            0 <= i < chapter_line_sources(text).len() ==> !is_comment_spec(
                #[trigger] chapter_line_sources(text)[i],
            ),
{
    lemma_chapter_fragments_filtered(text, 0);
    let pred = |l: Seq<char>| !is_comment_spec(l);
    assert forall|i: int| 0 <= i < chapter_line_sources(text).len() implies !is_comment_spec(
        #[trigger] chapter_line_sources(text)[i],
    ) by {
        split_lines(text).lemma_filter_pred(pred, i);
    }
}

/// A line break found under the stated bounds is the first one.
proof fn lemma_first_newline_found(s: Seq<char>, start: int, q: int)
    requires
        0 <= start <= q < s.len(),
        s[q] == '\n',
        forall|x: int| start <= x < q ==> #[trigger] s[x] != '\n',
    ensures
        first_newline(s, start) == Some(q),
    decreases q - start,
{
    if start < q {
        lemma_first_newline_found(s, start + 1, q);
    }
}

/// Where no line break stands, none is found.
proof fn lemma_first_newline_none(s: Seq<char>, start: int)
    requires
        forall|x: int| start <= x < s.len() ==> #[trigger] s[x] != '\n',
    ensures
        first_newline(s, start) is None,
    decreases s.len() - start,
{
    if start < s.len() {
        lemma_first_newline_none(s, start + 1);
    }
}

/// Appending one more break-free line after a line break appends one
/// more raw line to the split, wherever the scan stands inside `t`.
proof fn lemma_split_lines_append(t: Seq<char>, c: Seq<char>, start: int)
    requires
        0 <= start < t.len(),
        t.last() != '\n',
        c.len() > 0,
        has_no_break(c),
    ensures
        split_lines_from(t + seq!['\n'] + c, start) == split_lines_from(t, start) + seq![c],
    decreases t.len() - start,
{
    let u = t + seq!['\n'] + c;
    assert(u.len() == t.len() + 1 + c.len());
    assert(u[t.len() as int] == '\n');
    if first_newline(t, start) is Some {
        lemma_first_newline_bounds(t, start);
        let q = first_newline(t, start)->Some_0;
        assert forall|x: int| start <= x < q implies #[trigger] u[x] != '\n' by {
            assert(u[x] == t[x]);
        }
        lemma_first_newline_found(u, start, q);
        lemma_split_lines_append(t, c, q + 1);
        assert(u.subrange(start, q) =~= t.subrange(start, q));
        assert(seq![t.subrange(start, q)] + (split_lines_from(t, q + 1) + seq![c]) =~= (seq![
            t.subrange(start, q),
        ] + split_lines_from(t, q + 1)) + seq![c]);
    } else {
        lemma_no_newline_after(t, start);
        assert forall|x: int| start <= x < t.len() implies #[trigger] u[x] != '\n' by {
            assert(u[x] == t[x]);
        }
        lemma_first_newline_found(u, start, t.len() as int);
        assert forall|x: int|
            t.len() + 1 <= x < u.len() implies #[trigger] u[x] != '\n' by {
            assert(u[x] == c[x - (t.len() + 1)]);
        }
        lemma_first_newline_none(u, t.len() as int + 1);
        assert(u.subrange(start, t.len() as int) =~= t.subrange(start, t.len() as int));
        assert(u.subrange(t.len() as int + 1, u.len() as int) =~= c);
        assert(split_lines_from(u, t.len() as int + 1) =~= seq![c]);
        assert(split_lines_from(u, start) =~= split_lines_from(t, start) + seq![c]);
    }
}

/// Appending a comment-classified line changes nothing: for any text
/// that is non-empty and does not end with a line break, and any
/// break-free comment line, the text with that line appended keeps and
/// renders exactly the same lines. No character of the comment line
/// reaches the output in any form.
pub proof fn lemma_comment_line_appended_is_ignored(t: Seq<char>, c: Seq<char>)
    requires
        t.len() > 0,
        t.last() != '\n',
        has_no_break(c),
        is_comment_spec(c),
    ensures
        chapter_line_sources(t + seq!['\n'] + c) == chapter_line_sources(t),
        chapter_fragments(t + seq!['\n'] + c) == chapter_fragments(t),
        chapter_rendered(t + seq!['\n'] + c) == chapter_rendered(t),
{
    let u = t + seq!['\n'] + c;
    let pred = |l: Seq<char>| !is_comment_spec(l);
    if c.len() == 0 {
        assert(trim_start_spec(c) == c);
        assert(trim_end_spec(c) == c);
        assert(trim_spec(c).len() == 0);
        assert(false);
    }
    lemma_split_lines_append(t, c, 0);
    Seq::filter_distributes_over_add(split_lines(t), seq![c], pred);
    reveal_with_fuel(Seq::filter, 2);
    assert(seq![c].drop_last() =~= Seq::<Seq<char>>::empty());
    assert(seq![c].filter(pred) =~= Seq::<Seq<char>>::empty());
    assert(chapter_line_sources(u) =~= chapter_line_sources(t));
    lemma_comment_lines_dropped(u);
    lemma_comment_lines_dropped(t);
}

/// Every non-comment input line yields exactly one kept line, so the
/// output's line count equals the input's non-comment line count.
pub proof fn lemma_one_line_per_kept_line(text: Seq<char>)
    ensures
        chapter_fragments(text).len() == chapter_line_sources(text).len(),
{
    lemma_comment_lines_dropped(text);
}

/// No line break occurs at or after `p` when none is found.
proof fn lemma_no_newline_after(s: Seq<char>, p0: int)
    requires
        first_newline(s, p0) is None,
    ensures
        forall|x: int| p0 <= x < s.len() ==> #[trigger] s[x] != '\n',
    decreases s.len() - p0,
{
    if p0 >= s.len() {
    } else if s[p0] == '\n' {
    } else {
        lemma_no_newline_after(s, p0 + 1);
    }
}

/// Every raw line of the split is break-free.
proof fn lemma_split_lines_no_break(s: Seq<char>, start: int)
    requires
        0 <= start,
    ensures
        forall|i: int|
            0 <= i < split_lines_from(s, start).len() ==> has_no_break(
                #[trigger] split_lines_from(s, start)[i],
            ),
    decreases s.len() - start,
{
    let out = split_lines_from(s, start);
    if start >= s.len() {
    } else if first_newline(s, start) is Some {
        lemma_first_newline_bounds(s, start);
        let q = first_newline(s, start)->Some_0;
        lemma_split_lines_no_break(s, q + 1);
        let rest = split_lines_from(s, q + 1);
        let piece = s.subrange(start, q);
        assert forall|x: int| 0 <= x < piece.len() implies piece[x] != '\n' by {
            assert(piece[x] == s[start + x]);
        }
        assert forall|i: int| 0 <= i < out.len() implies has_no_break(out[i]) by {
            if i >= 1 {
                assert(out[i] == rest[i - 1]);
                assert(has_no_break(rest[i - 1]));
            }
        }
    } else {
        lemma_no_newline_after(s, start);
        let piece = s.subrange(start, s.len() as int);
        assert forall|x: int| 0 <= x < piece.len() implies piece[x] != '\n' by {
            assert(piece[x] == s[start + x]);
        }
    }
}

/// Filtering keeps the break-free property of every element.
proof fn lemma_filter_no_break(ls: Seq<Seq<char>>, pred: spec_fn(Seq<char>) -> bool)
    requires
        forall|i: int| 0 <= i < ls.len() ==> has_no_break(#[trigger] ls[i]),
    ensures
        forall|i: int|
            0 <= i < ls.filter(pred).len() ==> has_no_break(#[trigger] ls.filter(pred)[i]),
    decreases ls.len(),
{
    reveal(Seq::filter);
    if ls.len() == 0 {
    } else {
        lemma_filter_no_break(ls.drop_last(), pred);
        let kept = ls.filter(pred);
        let kept_head = ls.drop_last().filter(pred);
        assert forall|i: int| 0 <= i < kept.len() implies has_no_break(kept[i]) by {
            if pred(ls.last()) {
                if i < kept_head.len() {
                    assert(kept[i] == kept_head[i]);
                } else {
                    assert(kept[i] == ls[ls.len() - 1]);
                }
            } else {
                assert(kept[i] == kept_head[i]);
            }
        }
    }
}

/// Each kept line renders to a single output line: its rendering holds
/// no line break, so joining the rendered lines puts exactly one line
/// break between consecutive kept lines.
pub proof fn lemma_each_kept_line_single(text: Seq<char>)
    ensures
        forall|i: int|
            0 <= i < chapter_line_sources(text).len() ==> has_no_break(
                line_rendered(#[trigger] chapter_line_sources(text)[i]),
            ),
{
    lemma_split_lines_no_break(text, 0);
    lemma_filter_no_break(split_lines(text), |l: Seq<char>| !is_comment_spec(l));
    assert forall|i: int| 0 <= i < chapter_line_sources(text).len() implies has_no_break(
        line_rendered(#[trigger] chapter_line_sources(text)[i]),
    ) by {
        lemma_line_rendered_no_break(chapter_line_sources(text)[i]);
    }
}

/// The number of line breaks in a text.
pub open spec fn break_count(s: Seq<char>) -> int
    decreases s.len(),
{
    if s.len() == 0 {
        0
    } else {
        break_count(s.drop_last()) + if s.last() == '\n' {
            1int
        } else {
            0int
        }
    }
}

/// A break-free text holds no line break.
proof fn lemma_break_count_of_break_free(s: Seq<char>)
    requires
        has_no_break(s),
    ensures
        break_count(s) == 0,
    decreases s.len(),
{
    if s.len() > 0 {
        lemma_break_count_of_break_free(s.drop_last());
    }
}

/// Line breaks are counted piecewise.
proof fn lemma_break_count_of_add(a: Seq<char>, b: Seq<char>)
    ensures
        break_count(a + b) == break_count(a) + break_count(b),
    decreases b.len(),
{
    if b.len() == 0 {
        assert(a + b =~= a);
    } else {
        lemma_break_count_of_add(a, b.drop_last());
        assert((a + b).drop_last() =~= a + b.drop_last());
    }
}

/// Joining `n` break-free rendered lines puts exactly `n - 1` line
/// breaks in the output.
proof fn lemma_join_break_count(rendered: Seq<Seq<char>>)
    requires
        forall|i: int| 0 <= i < rendered.len() ==> has_no_break(#[trigger] rendered[i]),
        rendered.len() > 0,
    ensures
        break_count(join_lines(rendered)) == rendered.len() - 1,
    decreases rendered.len(),
{
    if rendered.len() == 1 {
        lemma_break_count_of_break_free(rendered[0]);
    } else {
        assert forall|i: int| 0 <= i < rendered.drop_last().len() implies has_no_break(
            #[trigger] rendered.drop_last()[i],
        ) by {
            assert(rendered.drop_last()[i] == rendered[i]);
        }
        lemma_join_break_count(rendered.drop_last());
        lemma_break_count_of_break_free(rendered.last());
        assert(seq!['\n'].drop_last() =~= Seq::<char>::empty());
        assert(break_count(Seq::<char>::empty()) == 0);
        assert(break_count(seq!['\n']) == 1);
        lemma_break_count_of_add(join_lines(rendered.drop_last()), seq!['\n']);
        lemma_break_count_of_add(join_lines(rendered.drop_last()) + seq!['\n'], rendered.last());
    }
}

/// The output has exactly one line per kept input line: with `n`
/// non-comment input lines the rendered output holds exactly `n - 1`
/// line breaks, and with none it is empty.
pub proof fn lemma_output_line_count(text: Seq<char>)
    ensures
        chapter_line_sources(text).len() > 0 ==> break_count(chapter_rendered(text))
            == chapter_line_sources(text).len() - 1,
        chapter_line_sources(text).len() == 0 ==> chapter_rendered(text) == Seq::<char>::empty(),
{
    let sources = chapter_line_sources(text);
    let rendered = sources.map_values(|l: Seq<char>| line_rendered(l));
    if sources.len() > 0 {
        lemma_each_kept_line_single(text);
        assert forall|i: int| 0 <= i < rendered.len() implies has_no_break(
            #[trigger] rendered[i],
        ) by {
            assert(rendered[i] == line_rendered(sources[i]));
        }
        lemma_join_break_count(rendered);
    }
}

/// A one-line, non-comment input renders as its single sentence: the
/// trimmed, prefixed line put through the sentence pipeline.
proof fn lemma_single_line_rendering(x: Seq<char>)
    requires
        x.len() > 0,
        has_no_break(x),
        !is_comment_spec(x),
    ensures
        chapter_rendered(x) == sentence_rendered(trim_end_spec(header_spaced(trim_spec(x)))),
{
    lemma_first_newline_none(x, 0);
    assert(x.subrange(0, x.len() as int) =~= x);
    assert(split_lines(x) =~= seq![x]);
    reveal_with_fuel(Seq::filter, 2);
    assert(seq![x].drop_last() =~= Seq::<Seq<char>>::empty());
    assert(chapter_line_sources(x) =~= seq![x]);
    let rendered = chapter_line_sources(x).map_values(|l: Seq<char>| line_rendered(l));
    assert(rendered =~= seq![line_rendered(x)]);
    assert(join_lines(rendered) == rendered[0]);
    let frag = trim_end_spec(header_spaced(trim_spec(x)));
    assert(seq![frag].drop_last() =~= Seq::<Seq<char>>::empty());
    assert(rendered_all(Seq::<Seq<char>>::empty()) == Seq::<char>::empty());
    assert(rendered_all(seq![frag]) == Seq::<char>::empty() + sentence_rendered(frag));
    assert(Seq::<char>::empty() + sentence_rendered(frag) =~= sentence_rendered(frag));
}

/// Formatting is not idempotent: on the witness below the second run
/// inserts exclamation spacing again, right after the space the first
/// run already inserted, so the two outputs differ. An explicit
/// non-property: format a source text once, never its own output.
#[verifier::rlimit(60)]
pub proof fn lemma_formatting_not_idempotent()
    ensures
        chapter_rendered(chapter_rendered(seq!['!', '?', 'a'])) != chapter_rendered(
            seq!['!', '?', 'a'],
        ),
{
    let source = seq!['!', '?', 'a'];
    let once = seq![FULLWIDTH_SPACE, '!', '?', FULLWIDTH_SPACE, 'a'];
    let twice = seq![FULLWIDTH_SPACE, '!', '?', FULLWIDTH_SPACE, FULLWIDTH_SPACE, 'a'];

    // First run: one narration line; a space is inserted after `!?`.
    assert(trim_start_spec(source) == source);
    assert(trim_end_spec(source) == source);
    assert(!is_comment_spec(source));
    lemma_single_line_rendering(source);
    let p1 = seq![FULLWIDTH_SPACE, '!', '?', 'a'];
    assert(header_spaced(source) =~= p1);
    assert(trim_end_spec(p1) == p1);
    assert(exclaim_spaced_from(p1, 4) =~= Seq::<char>::empty());
    assert(exclaim_spaced_from(p1, 3) =~= seq!['a']);
    assert(inserted_space(p1, 3) =~= seq![FULLWIDTH_SPACE]);
    assert(exclaim_spaced_from(p1, 1) =~= seq!['!', '?', FULLWIDTH_SPACE, 'a']);
    assert(exclaim_spaced_from(p1, 0) =~= once);
    assert(forall|j: int| 0 <= j < once.len() ==> #[trigger] once[j] != '[');
    assert(once.subrange(0, once.len() as int) =~= once);
    lemma_kenten_skips_bracketless(once, 0);
    lemma_ruby_skips_bracketless(once, 0);
    lemma_comment_skips_bracketless(once, 0);
    assert(sentence_rendered(p1) == once);
    assert(chapter_rendered(source) == once);

    // Second run: the old indent is trimmed away and re-applied, and
    // the spacing pass inserts one more space after the pair.
    assert(has_no_break(once));
    let t2 = seq!['!', '?', FULLWIDTH_SPACE, 'a'];
    assert(is_space_char(FULLWIDTH_SPACE));
    assert(once.drop_first() =~= t2);
    assert(trim_start_spec(t2) == t2);
    assert(trim_start_spec(once) == t2);
    assert(trim_end_spec(t2) == t2);
    assert(trim_spec(once) == t2);
    assert(!is_comment_spec(once));
    lemma_single_line_rendering(once);
    assert(header_spaced(t2) =~= once);
    assert(trim_end_spec(once) == once);
    assert(exclaim_spaced_from(once, 5) =~= Seq::<char>::empty());
    assert(exclaim_spaced_from(once, 4) =~= seq!['a']);
    assert(exclaim_spaced_from(once, 3) =~= seq![FULLWIDTH_SPACE, 'a']);
    assert(inserted_space(once, 3) =~= seq![FULLWIDTH_SPACE]);
    assert(exclaim_spaced_from(once, 1) =~= seq![
        '!',
        '?',
        FULLWIDTH_SPACE,
        FULLWIDTH_SPACE,
        'a',
    ]);
    assert(exclaim_spaced_from(once, 0) =~= twice);
    assert(forall|j: int| 0 <= j < twice.len() ==> #[trigger] twice[j] != '[');
    assert(twice.subrange(0, twice.len() as int) =~= twice);
    lemma_kenten_skips_bracketless(twice, 0);
    lemma_ruby_skips_bracketless(twice, 0);
    lemma_comment_skips_bracketless(twice, 0);
    assert(sentence_rendered(once) == twice);
    assert(chapter_rendered(once) == twice);
    assert(once.len() != twice.len());
}

/// Building a chapter and rendering it yields the chapter rendering of
/// the input text: the composition of the contracts of `Chapter::new`
/// and `Chapter::get` is `chapter_rendered`.
pub proof fn lemma_chapter_rendered(text: Seq<char>)
    ensures
        chapter_rendered(text) == join_lines(
            chapter_fragments(text).map_values(|lt: Seq<Seq<char>>| rendered_all(lt)),
        ),
{
    lemma_comment_lines_dropped(text);
    assert(chapter_line_sources(text).map_values(|l: Seq<char>| line_fragments(l)).map_values(
        |lt: Seq<Seq<char>>| rendered_all(lt),
    ) =~= chapter_line_sources(text).map_values(|l: Seq<char>| line_rendered(l)));
}

// ------------------------------------------------------------------
// The chapter itself.
// ------------------------------------------------------------------

/// One chapter, holding its kept lines in document order.
pub struct Chapter {
    pub lines: Vec<Line>,
}

impl Chapter {
    /// Builds a chapter from raw text: splits it into lines at line
    /// breaks, drops comment lines, and builds a [`Line`] from each
    /// kept one.
    pub fn new(text: &str) -> (c: Self)
        ensures
            line_texts(c.lines@) == chapter_fragments(text@),
    {
        let chars = str_to_chars(text);
        let mut lines: Vec<Line> = Vec::new();
        let mut start: usize = 0;
        while start < chars.len()
            invariant
                start <= chars.len(),
                line_texts(lines@) + chapter_fragments_from(chars@, start as int)
                    == chapter_fragments_from(chars@, 0),
            decreases chars.len() - start,
        {
            let ghost prev = line_texts(lines@);
            let (piece_end, next) = match find_newline(&chars, start) {
                Some(q) => (q, q + 1),
                None => (chars.len(), chars.len()),
            };
            let mut piece: Vec<char> = Vec::new();
            let mut x: usize = start;
            while x < piece_end
                invariant
                    start <= x <= piece_end <= chars.len(),
                    piece@ == chars@.subrange(start as int, x as int),
                decreases piece_end - x,
            {
                piece.push(chars[x]);
                assert(piece@ =~= chars@.subrange(start as int, x as int + 1));
                x = x + 1;
            }
            let piece_text = chars_to_string(&piece);
            if !Line::is_comment(piece_text.as_str()) {
                let line = Line::new(piece_text.as_str());
                lines.push(line);
                assert(line_texts(lines@) =~= prev.push(sentence_texts(line.elements@)));
                assert(line_texts(lines@) =~= prev + seq![
                    line_fragments(chars@.subrange(start as int, piece_end as int)),
                ]);
            }
            assert(prev + chapter_fragments_from(chars@, start as int) =~= line_texts(lines@)
                + chapter_fragments_from(chars@, next as int));
            start = next;
        }
        assert(line_texts(lines@) =~= line_texts(lines@) + chapter_fragments_from(
            chars@,
            chars@.len() as int,
        ));
        Chapter { lines }
    }

    /// Prints each rendered sentence of each kept line on its own
    /// output line.
    pub fn print(self) {
        let mut idx: usize = 0;
        while idx < self.lines.len()
            decreases self.lines.len() - idx,
        {
            (&self.lines[idx]).print_sentences();
            idx = idx + 1;
        }
    }

    /// The rendered text of the chapter: each kept line rendered, the
    /// lines joined with single line breaks.
    pub fn get(self) -> (r: String)
        ensures
            r@ == join_lines(line_texts(self.lines@).map_values(|lt: Seq<Seq<char>>| rendered_all(lt))),
    {
        let ghost rendered_views = line_texts(self.lines@).map_values(
            |lt: Seq<Seq<char>>| rendered_all(lt),
        );
        let mut out: Vec<char> = Vec::new();
        let mut idx: usize = 0;
        while idx < self.lines.len()
            invariant
                idx <= self.lines.len(),
                rendered_views == line_texts(self.lines@).map_values(
                    |lt: Seq<Seq<char>>| rendered_all(lt),
                ),
                out@ == join_lines(rendered_views.take(idx as int)),
            decreases self.lines.len() - idx,
        {
            if idx > 0 {
                out.push('\n');
            }
            let ghost prev = out@;
            let line_out = (&self.lines[idx]).rendered_chars();
            let mut x: usize = 0;
            while x < line_out.len()
                invariant
                    x <= line_out.len(),
                    out@ == prev + line_out@.take(x as int),
                decreases line_out.len() - x,
            {
                out.push(line_out[x]);
                assert(out@ =~= prev + line_out@.take(x as int + 1));
                x = x + 1;
            }
            assert(out@ =~= prev + line_out@);
            assert(rendered_views.take(idx as int + 1).drop_last() =~= rendered_views.take(
                idx as int,
            ));
            assert(out@ =~= join_lines(rendered_views.take(idx as int + 1)));
            idx = idx + 1;
        }
        assert(rendered_views.take(self.lines@.len() as int) =~= rendered_views);
        chars_to_string(&out)
    }
}

} // verus!
