//! The lines of a text, and cutting a span of them out of it.

use vstd::prelude::*;
use crate::range::{decimal, range_of, theorem_line_pair, theorem_single_line};
use crate::text::{chars_of, find_char, find_from, lemma_find_char, string_of};

verus! {

/// A line without the carriage return that may end it.
pub open spec fn without_cr(line: Seq<char>) -> Seq<char> {
    if line.len() > 0 && line.last() == '\r' {
        line.drop_last()
    } else {
        line
    }
}

/// The lines of `text`. A line ends at a line feed, or at a carriage return
/// followed by one; neither belongs to the line. The last line needs no line
/// ending, and a text that ends in one has no empty line after it.
pub open spec fn lines_of(text: Seq<char>) -> Seq<Seq<char>>
    decreases text.len(),
{
    if text.len() == 0 {
        Seq::empty()
    } else {
        let i = find_char(text, '\n');
        if i >= text.len() {
            seq![text]
        } else {
            seq![without_cr(text.take(i as int))] + lines_of(text.skip((i + 1) as int))
        }
    }
}

/// The lines put together again, with one line feed between each two.
pub open spec fn join_lines(lines: Seq<Seq<char>>) -> Seq<char>
    decreases lines.len(),
{
    if lines.len() == 0 {
        Seq::empty()
    } else if lines.len() == 1 {
        lines[0]
    } else {
        join_lines(lines.drop_last()) + seq!['\n'] + lines.last()
    }
}

/// Joining lines puts the first one in front of the others joined.
pub proof fn lemma_join_lines_front(first: Seq<char>, others: Seq<Seq<char>>)
    ensures
        join_lines(seq![first] + others) == if others.len() == 0 {
            first
        } else {
            first + seq!['\n'] + join_lines(others)
        },
    decreases others.len(),
{
    let all = seq![first] + others;
    if others.len() == 0 {
        assert(all == seq![first]);
    } else {
        let fewer = others.drop_last();
        lemma_join_lines_front(first, fewer);
        assert(all.drop_last() == seq![first] + fewer);
        assert(all.last() == others.last());
        if fewer.len() == 0 {
            assert(others == seq![others.last()]);
            assert(join_lines(others) == others.last());
        } else {
            assert(join_lines(all) == (first + seq!['\n'] + join_lines(fewer)) + seq!['\n']
                + others.last());
            assert(join_lines(others) == join_lines(fewer) + seq!['\n'] + others.last());
            assert((first + seq!['\n'] + join_lines(fewer)) + seq!['\n'] + others.last() == first
                + seq!['\n'] + (join_lines(fewer) + seq!['\n'] + others.last()));
        }
    }
}

/// The lines from index `start` up to, not including, `end`, as far as there
/// are that many.
pub open spec fn clipped(lines: Seq<Seq<char>>, start: int, end: int) -> Seq<Seq<char>> {
    let first = if start < lines.len() { start } else { lines.len() as int };
    let stop = if end < lines.len() { end } else { lines.len() as int };
    lines.subrange(first, stop)
}

/// The part of `text` that the span from `start` to `end` selects: those of
/// its lines, joined by line feeds.
pub open spec fn selection(text: Seq<char>, start: int, end: int) -> Seq<char> {
    join_lines(clipped(lines_of(text), start, end))
}

/// A span within the lines that a text has selects exactly those lines,
/// joined by line feeds.
pub proof fn theorem_selection_within(text: Seq<char>, start: int, end: int)
    requires
        0 <= start <= end <= lines_of(text).len(),
    ensures
        selection(text, start, end) == join_lines(lines_of(text).subrange(start, end)),
{
}

/// A span that reaches past the last line selects what the span cut off at
/// the last line selects; one that starts past it selects nothing.
pub proof fn theorem_selection_clipped(text: Seq<char>, start: int, end: int)
    requires
        0 <= start <= end,
    ensures
        end >= lines_of(text).len() ==> selection(text, start, end) == selection(
            text,
            start,
            lines_of(text).len() as int,
        ),
        start >= lines_of(text).len() ==> selection(text, start, end) == Seq::<char>::empty(),
{
}

/// The span of one line selects that line, as it is.
pub proof fn theorem_one_line_selected(text: Seq<char>, index: int)
    requires
        0 <= index < lines_of(text).len(),
    ensures
        selection(text, index, index + 1) == lines_of(text)[index],
{
    assert(lines_of(text).subrange(index, index + 1) == seq![lines_of(text)[index]]);
}

/// The line number `n`, written as a range and parsed, selects line `n` of a
/// text that has that many lines: the one at index `n - 1`.
pub proof fn theorem_line_number_selects(text: Seq<char>, n: nat)
    requires
        1 <= n <= lines_of(text).len(),
        n <= usize::MAX,
    ensures
        range_of(decimal(n)) matches Ok((start, end)) && selection(text, start as int, end as int)
            == lines_of(text)[n - 1],
{
    theorem_single_line(n);
    theorem_one_line_selected(text, n - 1);
}

/// Two line numbers joined by a hyphen, parsed, select the lines between
/// them, both included, of a text that has that many lines.
pub proof fn theorem_line_pair_selects(text: Seq<char>, a: nat, b: nat)
    requires
        1 <= a <= b <= lines_of(text).len(),
        b <= usize::MAX,
    ensures
        range_of(decimal(a) + seq!['-'] + decimal(b)) matches Ok((start, end)) && selection(
            text,
            start as int,
            end as int,
        ) == join_lines(lines_of(text).subrange(a - 1, b as int)),
{
    theorem_line_pair(a, b);
}

/// No line holds a line feed.
pub proof fn theorem_lines_hold_no_feed(text: Seq<char>, index: int, at: int)
    requires
        0 <= index < lines_of(text).len(),
        0 <= at < lines_of(text)[index].len(),
    ensures
        lines_of(text)[index][at] != '\n',
    decreases text.len(),
{
    lemma_find_char(text, '\n');
    let feed = find_char(text, '\n') as int;
    if feed < text.len() && index > 0 {
        theorem_lines_hold_no_feed(text.skip(feed + 1), index - 1, at);
    }
}

/// Whether each span lies within a text of `len` characters.
pub open spec fn spans_within(spans: Seq<(usize, usize)>, len: nat) -> bool {
    forall|i: int| 0 <= i < spans.len() ==> (#[trigger] spans[i]).0 <= spans[i].1 <= len
}

/// The pieces of `text` that `spans` mark, each from its first index up to,
/// not including, its second.
pub open spec fn cut(text: Seq<char>, spans: Seq<(usize, usize)>) -> Seq<Seq<char>> {
    Seq::new(spans.len(), |i: int| text.subrange(spans[i].0 as int, spans[i].1 as int))
}

/// Where the lines of `chars` lie.
pub fn line_spans(chars: &Vec<char>) -> (spans: Vec<(usize, usize)>)
    ensures
        spans_within(spans@, chars@.len()),
        cut(chars@, spans@) == lines_of(chars@),
{
    let n: usize = chars.len();
    let mut spans: Vec<(usize, usize)> = Vec::new();
    let mut from: usize = 0;
    assert(chars@.skip(0) == chars@);
    while from < n
        invariant
            from <= n == chars.len(),
            spans_within(spans@, chars@.len()),
            lines_of(chars@) == cut(chars@, spans@) + lines_of(chars@.skip(from as int)),
        decreases n - from,
    {
        let ghost rest = chars@.skip(from as int);
        let ghost done = cut(chars@, spans@);
        let feed: usize = find_from(chars, '\n', from);
        if feed == n {
            spans.push((from, n));
            assert(chars@.subrange(from as int, n as int) == rest);
            assert(cut(chars@, spans@) == done + seq![rest]);
            assert(lines_of(chars@.skip(n as int)) == Seq::<Seq<char>>::empty());
            from = n;
        } else {
            let to: usize = if from < feed && chars[feed - 1] == '\r' {
                feed - 1
            } else {
                feed
            };
            spans.push((from, to));
            assert(chars@.subrange(from as int, to as int) == without_cr(rest.take(feed - from)));
            assert(cut(chars@, spans@) == done + seq![without_cr(rest.take(feed - from))]);
            assert(rest.skip(feed - from + 1) == chars@.skip(feed + 1));
            from = feed + 1;
        }
    }
    spans
}

/// The pieces from index `first` up to, not including, `stop`, joined by line feeds.
pub fn join_spans(chars: &Vec<char>, spans: &Vec<(usize, usize)>, first: usize, stop: usize) -> (out:
    Vec<char>)
    requires
        spans_within(spans@, chars@.len()),
        first <= stop <= spans.len(),
    ensures
        out@ == join_lines(cut(chars@, spans@).subrange(first as int, stop as int)),
{
    let ghost pieces = cut(chars@, spans@);
    let mut out: Vec<char> = Vec::new();
    let mut k: usize = first;
    while k < stop
        invariant
            first <= k <= stop <= spans.len(),
            spans_within(spans@, chars@.len()),
            pieces == cut(chars@, spans@),
            out@ == join_lines(pieces.subrange(first as int, k as int)),
        decreases stop - k,
    {
        if k > first {
            out.push('\n');
        }
        let ghost before = out@;
        let (from, to) = spans[k];
        let mut i: usize = from;
        while i < to
            invariant
                from <= i <= to <= chars.len(),
                out@ == before + chars@.subrange(from as int, i as int),
            decreases to - i,
        {
            out.push(chars[i]);
            i = i + 1;
        }
        proof {
            let sofar = pieces.subrange(first as int, k + 1);
            assert(sofar.drop_last() == pieces.subrange(first as int, k as int));
            assert(sofar.last() == chars@.subrange(from as int, to as int));
        }
        k = k + 1;
    }
    out
}

/// Cuts the lines from index `start` up to, not including, `end` out of
/// `text`, as far as it has that many, and joins them by line feeds.
pub fn select_lines(text: &str, start: usize, end: usize) -> (out: String)
    requires
        start <= end,
    ensures
        out@ == selection(text@, start as int, end as int),
{
    let chars = chars_of(text);
    let spans = line_spans(&chars);
    let count: usize = spans.len();
    let first: usize = if start < count { start } else { count };
    let stop: usize = if end < count { end } else { count };
    let picked = join_spans(&chars, &spans, first, stop);
    string_of(&picked)
}

} // verus!
