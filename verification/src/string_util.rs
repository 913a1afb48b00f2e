//! Display lines in a buffer of bytes.
//!
//! A buffer is read as logical lines, each ending with its `\n` or with the
//! buffer. A logical line is shown as one or more display lines of at most
//! `width` bytes each; the `\n` belongs to the display line that it ends and
//! takes no column, so a logical line of exactly `width` bytes and its `\n`
//! make one display line.

use vstd::prelude::*;
use crate::error::PagerError;

verus! {

/// The byte that ends a logical line.
pub const NEWLINE: u8 = 10;

/// The first position in `from..to` that holds a newline, or `to`.
pub open spec fn newline_index(buf: Seq<u8>, from: int, to: int) -> int
    decreases to - from,
{
    if from >= to {
        to
    } else if buf[from] == NEWLINE {
        from
    } else {
        newline_index(buf, from + 1, to)
    }
}

/// The end of the display line that starts at `start`: the position just
/// behind its last byte.
pub open spec fn line_end(buf: Seq<u8>, start: int, width: int) -> int
    recommends
        0 <= start < buf.len(),
        width >= 1,
{
    let limit = if start + width <= buf.len() {
        start + width
    } else {
        buf.len() as int
    };
    let newline = newline_index(buf, start, limit);
    if newline < limit {
        newline + 1
    } else if limit < buf.len() && buf[limit] == NEWLINE {
        limit + 1
    } else {
        limit
    }
}

/// The start of display line number `n` of `buf`, counted from 0, or the
/// length of `buf` where it has no more than `n` display lines.
pub open spec fn nth_line_start(buf: Seq<u8>, n: nat, width: int) -> int
    decreases n,
{
    if n == 0 {
        0
    } else {
        let before = nth_line_start(buf, (n - 1) as nat, width);
        if 0 <= before < buf.len() {
            line_end(buf, before, width)
        } else {
            before
        }
    }
}

/// The number of display lines of `buf` from the line start `pos` on.
pub open spec fn lines_from(buf: Seq<u8>, pos: int, width: int) -> nat
    decreases buf.len() - pos,
{
    if 0 <= pos < buf.len() && width >= 1 {
        proof {
            lemma_line_end_bounds(buf, pos, width);
        }
        1 + lines_from(buf, line_end(buf, pos, width), width)
    } else {
        0
    }
}

/// The number of display lines of `buf`.
pub open spec fn line_count(buf: Seq<u8>, width: int) -> nat {
    lines_from(buf, 0, width)
}

/// Whether a display line of `buf` starts at `pos`, or `buf` ends there.
pub open spec fn is_line_start(buf: Seq<u8>, pos: int, width: int) -> bool {
    exists|k: nat| k <= line_count(buf, width) && #[trigger] nth_line_start(buf, k, width) == pos
}

/// How far the end of `buf` lies behind the start of the display line that
/// is number `n` from the end.
///
/// The lines counted are the display lines of `buf` and, as number 1, the
/// line that begins where `buf` ends. So 1 gives 0, 2 gives the length of the
/// last display line of `buf`, and a number beyond the lines there are gives
/// the length of `buf`. 0 gives 0.
pub open spec fn distance_to_nth_last(buf: Seq<u8>, n: nat, width: int) -> int {
    let total = line_count(buf, width);
    if n == 0 {
        0
    } else if n - 1 >= total {
        buf.len() as int
    } else {
        buf.len() - nth_line_start(buf, (total - (n - 1)) as nat, width)
    }
}

/// What `newline_index` finds: a position in `from..=to` with no newline
/// before it, and a newline at it unless it is `to`.
pub proof fn lemma_newline_index(buf: Seq<u8>, from: int, to: int)
    requires
        0 <= from <= to <= buf.len(),
    ensures
        from <= newline_index(buf, from, to) <= to,
        forall|j: int| from <= j < newline_index(buf, from, to) ==> #[trigger] buf[j] != NEWLINE,
        newline_index(buf, from, to) < to ==> buf[newline_index(buf, from, to)] == NEWLINE,
    decreases to - from,
{
    if from < to && buf[from] != NEWLINE {
        lemma_newline_index(buf, from + 1, to);
    }
}

/// A position with no newline before it, which holds one or is `to`, is
/// what `newline_index` finds.
pub proof fn lemma_newline_index_is(buf: Seq<u8>, from: int, to: int, at: int)
    requires
        0 <= from <= at <= to <= buf.len(),
        forall|j: int| from <= j < at ==> #[trigger] buf[j] != NEWLINE,
        at == to || buf[at] == NEWLINE,
    ensures
        newline_index(buf, from, to) == at,
    decreases at - from,
{
    if from < at {
        assert(buf[from] != NEWLINE);
        lemma_newline_index_is(buf, from + 1, to, at);
    }
}

/// A display line holds at least one byte, at most `width` bytes and a
/// newline, and ends within the buffer.
pub proof fn lemma_line_end_bounds(buf: Seq<u8>, start: int, width: int)
    requires
        0 <= start < buf.len(),
        width >= 1,
    ensures
        start < line_end(buf, start, width) <= buf.len(),
        line_end(buf, start, width) <= start + width + 1,
{
    let limit = if start + width <= buf.len() {
        start + width
    } else {
        buf.len() as int
    };
    lemma_newline_index(buf, start, limit);
}

/// The display line that starts at `start` is the same in `buf` and in each
/// prefix of `buf` that holds the whole line.
pub proof fn lemma_line_end_prefix(buf: Seq<u8>, start: int, width: int, cut: int)
    requires
        0 <= start < cut <= buf.len(),
        width >= 1,
        line_end(buf, start, width) <= cut,
    ensures
        line_end(buf.subrange(0, cut), start, width) == line_end(buf, start, width),
{
    let head = buf.subrange(0, cut);
    let limit = if start + width <= buf.len() {
        start + width
    } else {
        buf.len() as int
    };
    let head_limit = if start + width <= cut {
        start + width
    } else {
        cut
    };
    lemma_newline_index(buf, start, limit);
    let newline = newline_index(buf, start, limit);
    if newline < limit {
        assert forall|j: int| start <= j < newline implies #[trigger] head[j] != NEWLINE by {
            assert(head[j] == buf[j]);
        }
        assert(head[newline] == buf[newline]);
        lemma_newline_index_is(head, start, head_limit, newline);
    } else {
        assert(head_limit <= limit);
        assert forall|j: int| start <= j < head_limit implies #[trigger] head[j] != NEWLINE by {
            assert(head[j] == buf[j]);
        }
        lemma_newline_index_is(head, start, head_limit, head_limit);
        if head_limit < cut {
            assert(head[head_limit] == buf[head_limit]);
        }
    }
}

/// The display line that starts at `skip + start` of `buf` is the display
/// line that starts at `start` of what is left of `buf` without its first
/// `skip` bytes.
pub proof fn lemma_line_end_suffix(buf: Seq<u8>, skip: int, start: int, width: int)
    requires
        0 <= skip,
        0 <= start,
        skip + start < buf.len(),
        width >= 1,
    ensures
        line_end(buf, skip + start, width) == skip + line_end(
            buf.subrange(skip, buf.len() as int),
            start,
            width,
        ),
{
    let tail = buf.subrange(skip, buf.len() as int);
    let tail_limit = if start + width <= tail.len() {
        start + width
    } else {
        tail.len() as int
    };
    lemma_newline_index(tail, start, tail_limit);
    let newline = newline_index(tail, start, tail_limit);
    assert forall|j: int| skip + start <= j < skip + newline implies #[trigger] buf[j]
        != NEWLINE by {
        assert(tail[j - skip] == buf[j]);
    }
    if newline < tail_limit {
        assert(tail[newline] == buf[skip + newline]);
    }
    lemma_newline_index_is(buf, skip + start, skip + tail_limit, skip + newline);
    if tail_limit < tail.len() {
        assert(tail[tail_limit] == buf[skip + tail_limit]);
    }
}

/// Line starts lie within the buffer and do not go back.
pub proof fn lemma_nth_line_start_step(buf: Seq<u8>, n: nat, width: int)
    requires
        width >= 1,
    ensures
        0 <= nth_line_start(buf, n, width) <= nth_line_start(buf, n + 1, width) <= buf.len(),
        nth_line_start(buf, n, width) < buf.len() ==> nth_line_start(buf, n, width)
            < nth_line_start(buf, n + 1, width),
    decreases n,
{
    if n > 0 {
        lemma_nth_line_start_step(buf, (n - 1) as nat, width);
    }
    let here = nth_line_start(buf, n, width);
    if 0 <= here < buf.len() {
        lemma_line_end_bounds(buf, here, width);
    }
}

/// The offset reached after `n` display lines does not decrease as `n`
/// grows, and never passes the end of the buffer.
pub proof fn lemma_forward_monotonic(buf: Seq<u8>, width: int, fewer: nat, more: nat)
    requires
        width >= 1,
        fewer <= more,
    ensures
        0 <= nth_line_start(buf, fewer, width) <= nth_line_start(buf, more, width) <= buf.len(),
    decreases more - fewer,
{
    lemma_nth_line_start_step(buf, fewer, width);
    if fewer < more {
        lemma_forward_monotonic(buf, width, fewer + 1, more);
    }
}

/// Once the end of the buffer is reached, every later line start is the end.
pub proof fn lemma_stays_at_end(buf: Seq<u8>, width: int, reached: nat, later: nat)
    requires
        width >= 1,
        reached <= later,
        nth_line_start(buf, reached, width) == buf.len(),
    ensures
        nth_line_start(buf, later, width) == buf.len(),
{
    lemma_forward_monotonic(buf, width, reached, later);
}

/// While the lines before line `n` all begin inside the buffer, the lines
/// before `n` and the lines from `n` on make up all the lines there are.
pub proof fn lemma_lines_split(buf: Seq<u8>, n: nat, width: int)
    requires
        width >= 1,
        n == 0 || nth_line_start(buf, (n - 1) as nat, width) < buf.len(),
    ensures
        n + lines_from(buf, nth_line_start(buf, n, width), width) == line_count(buf, width),
    decreases n,
{
    if n > 0 {
        let before = (n - 1) as nat;
        if before > 0 {
            lemma_nth_line_start_step(buf, (before - 1) as nat, width);
        }
        lemma_lines_split(buf, before, width);
        lemma_nth_line_start_step(buf, before, width);
    }
}

/// Each of the first `line_count` lines begins inside the buffer.
pub proof fn lemma_counted_lines_begin_inside(buf: Seq<u8>, n: nat, width: int)
    requires
        width >= 1,
        1 <= n <= line_count(buf, width),
    ensures
        0 <= nth_line_start(buf, (n - 1) as nat, width) < buf.len(),
    decreases n,
{
    let before = (n - 1) as nat;
    if before > 0 {
        lemma_counted_lines_begin_inside(buf, before, width);
    }
    lemma_lines_split(buf, before, width);
    lemma_nth_line_start_step(buf, before, width);
}

/// The line start with the number `line_count` is the end of the buffer,
/// and it is the first that is.
pub proof fn lemma_line_count_reaches_end(buf: Seq<u8>, width: int)
    requires
        width >= 1,
    ensures
        nth_line_start(buf, line_count(buf, width), width) == buf.len(),
{
    let total = line_count(buf, width);
    if total > 0 {
        lemma_counted_lines_begin_inside(buf, total, width);
    }
    lemma_lines_split(buf, total, width);
    lemma_nth_line_start_step(buf, total, width);
}

/// Counting lines from `skip + start` of `buf` is counting them from
/// `start` of what is left of `buf` without its first `skip` bytes.
pub proof fn lemma_lines_from_suffix(buf: Seq<u8>, skip: int, start: int, width: int)
    requires
        0 <= skip <= buf.len(),
        0 <= start,
        width >= 1,
    ensures
        lines_from(buf, skip + start, width) == lines_from(
            buf.subrange(skip, buf.len() as int),
            start,
            width,
        ),
    decreases buf.len() - skip - start,
{
    let tail = buf.subrange(skip, buf.len() as int);
    if skip + start < buf.len() {
        lemma_line_end_suffix(buf, skip, start, width);
        lemma_line_end_bounds(tail, start, width);
        lemma_lines_from_suffix(buf, skip, line_end(tail, start, width), width);
    }
}

/// The first `n` display lines of `buf` are the display lines of the prefix
/// of `buf` that ends with them.
pub proof fn lemma_prefix_lines(buf: Seq<u8>, n: nat, width: int, k: nat)
    requires
        width >= 1,
        n <= line_count(buf, width),
        k <= n,
    ensures
        nth_line_start(buf.subrange(0, nth_line_start(buf, n, width)), k, width)
            == nth_line_start(buf, k, width),
    decreases k,
{
    lemma_forward_monotonic(buf, width, k, n);
    if k > 0 {
        let before = (k - 1) as nat;
        lemma_prefix_lines(buf, n, width, before);
        lemma_counted_lines_begin_inside(buf, k, width);
        lemma_nth_line_start_step(buf, before, width);
        lemma_forward_monotonic(buf, width, k, n);
        let cut = nth_line_start(buf, n, width);
        lemma_line_end_prefix(buf, nth_line_start(buf, before, width), width, cut);
    }
}

/// The prefix of `buf` that ends with its first `n` display lines has `n`
/// display lines.
pub proof fn lemma_prefix_line_count(buf: Seq<u8>, n: nat, width: int)
    requires
        width >= 1,
        n <= line_count(buf, width),
    ensures
        line_count(buf.subrange(0, nth_line_start(buf, n, width)), width) == n,
{
    let cut = nth_line_start(buf, n, width);
    let head = buf.subrange(0, cut);
    lemma_forward_monotonic(buf, width, 0, n);
    lemma_prefix_lines(buf, n, width, n);
    if n > 0 {
        lemma_prefix_lines(buf, n, width, (n - 1) as nat);
        lemma_counted_lines_begin_inside(buf, n, width);
        lemma_nth_line_start_step(buf, (n - 1) as nat, width);
    }
    lemma_lines_split(head, n, width);
}

/// Going forward by `n` display lines and back by `n` display lines ends
/// where it began.
///
/// `window` is what lies before the place reached. The place left, `start`,
/// is the start of a display line of `window`, and the bytes between the two
/// places are exactly `n` display lines. From the end of `window`, line
/// number `n + 1` from the end is then the line at `start`.
pub proof fn lemma_backward_undoes_forward(
    window: Seq<u8>,
    start: int,
    starts_line: nat,
    n: nat,
    width: int,
)
    requires
        width >= 1,
        starts_line <= line_count(window, width),
        nth_line_start(window, starts_line, width) == start,
        line_count(window.subrange(start, window.len() as int), width) == n,
    ensures
        distance_to_nth_last(window, n + 1, width) == window.len() - start,
{
    lemma_forward_monotonic(window, width, 0, starts_line);
    if starts_line > 0 {
        lemma_counted_lines_begin_inside(window, starts_line, width);
    }
    lemma_lines_split(window, starts_line, width);
    lemma_lines_from_suffix(window, start, 0, width);
}

/// A buffer has at most as many display lines as bytes.
pub proof fn lemma_lines_from_bound(buf: Seq<u8>, pos: int, width: int)
    requires
        0 <= pos <= buf.len(),
        width >= 1,
    ensures
        lines_from(buf, pos, width) <= buf.len() - pos,
    decreases buf.len() - pos,
{
    if pos < buf.len() {
        lemma_line_end_bounds(buf, pos, width);
        lemma_lines_from_bound(buf, line_end(buf, pos, width), width);
    }
}

/// The distance to a line start lies within the buffer, and a number of
/// lines that the buffer cannot hold gives the whole buffer.
pub proof fn lemma_distance_bounds(buf: Seq<u8>, n: nat, width: int)
    requires
        width >= 1,
    ensures
        0 <= distance_to_nth_last(buf, n, width) <= buf.len(),
        n > buf.len() ==> distance_to_nth_last(buf, n, width) == buf.len(),
        n == 1 ==> distance_to_nth_last(buf, n, width) == 0,
{
    let total = line_count(buf, width);
    lemma_lines_from_bound(buf, 0, width);
    if n >= 1 && n - 1 < total {
        lemma_forward_monotonic(buf, width, 0, (total - (n - 1)) as nat);
    }
    if n == 1 {
        lemma_line_count_reaches_end(buf, width);
    }
}

/// Each position inside the buffer lies in one of its display lines.
pub proof fn lemma_line_containing(buf: Seq<u8>, pos: int, width: int, from: nat) -> (k: nat)
    requires
        width >= 1,
        from == 0 || nth_line_start(buf, (from - 1) as nat, width) < buf.len(),
        nth_line_start(buf, from, width) <= pos < buf.len(),
    ensures
        k < line_count(buf, width),
        nth_line_start(buf, k, width) <= pos < nth_line_start(buf, k + 1, width),
    decreases buf.len() - nth_line_start(buf, from, width),
{
    lemma_nth_line_start_step(buf, from, width);
    lemma_lines_split(buf, from, width);
    if pos < nth_line_start(buf, from + 1, width) {
        from
    } else {
        lemma_line_containing(buf, pos, width, from + 1)
    }
}

/// The place behind a newline is the start of a display line, whatever
/// the width and wherever the buffer begins.
pub proof fn lemma_line_starts_after_newline(buf: Seq<u8>, pos: int, width: int)
    requires
        width >= 1,
        0 < pos <= buf.len(),
        buf[pos - 1] == NEWLINE,
    ensures
        is_line_start(buf, pos, width),
{
    let k = lemma_line_containing(buf, pos - 1, width, 0);
    let start = nth_line_start(buf, k, width);
    let limit = if start + width <= buf.len() {
        start + width
    } else {
        buf.len() as int
    };
    lemma_newline_index(buf, start, limit);
    assert(nth_line_start(buf, k + 1, width) == pos);
}

/// The start of the buffer is the start of a display line.
pub proof fn lemma_line_starts_at_zero(buf: Seq<u8>, width: int)
    ensures
        is_line_start(buf, 0, width),
{
    assert(nth_line_start(buf, 0, width) == 0);
}

/// Finds the end of the display line that starts at `start`.
fn display_line_end(buf: &[u8], start: usize, width: usize) -> (end: usize)
    requires
        start < buf.len(),
        width >= 1,
    ensures
        end == line_end(buf@, start as int, width as int),
        start < end <= buf.len(),
{
    let limit: usize = if width <= buf.len() - start {
        start + width
    } else {
        buf.len()
    };
    proof {
        lemma_line_end_bounds(buf@, start as int, width as int);
    }
    let mut i: usize = start;
    while i < limit
        invariant
            width >= 1,
            start < buf.len(),
            start <= i <= limit <= buf.len(),
            limit == if start + width <= buf.len() {
                start + width
            } else {
                buf.len() as int
            },
            forall|j: int| start <= j < i ==> #[trigger] buf@[j] != NEWLINE,
        decreases limit - i,
    {
        if buf[i] == NEWLINE {
            proof {
                lemma_newline_index_is(buf@, start as int, limit as int, i as int);
            }
            return i + 1;
        }
        i += 1;
    }
    proof {
        lemma_newline_index_is(buf@, start as int, limit as int, limit as int);
    }
    if limit < buf.len() && buf[limit] == NEWLINE {
        limit + 1
    } else {
        limit
    }
}

/// Counts the display lines of `buf`.
fn count_display_lines(buf: &[u8], width: usize) -> (total: usize)
    requires
        width >= 1,
    ensures
        total == line_count(buf@, width as int),
        total <= buf.len(),
{
    let mut pos: usize = 0;
    let mut total: usize = 0;
    while pos < buf.len()
        invariant
            width >= 1,
            total <= pos <= buf.len(),
            total + lines_from(buf@, pos as int, width as int) == line_count(
                buf@,
                width as int,
            ),
        decreases buf.len() - pos,
    {
        pos = display_line_end(buf, pos, width);
        total += 1;
    }
    total
}

/// Gives the offset in `buf` that is reached after `n` display lines of at
/// most `width` bytes, or the length of `buf` where it has fewer.
pub fn forward_offset(n: usize, buf: &[u8], width: usize) -> (r: Result<usize, PagerError>)
    ensures
        match r {
            Ok(offset) => {
                &&& width >= 1
                &&& offset == nth_line_start(buf@, n as nat, width as int)
                &&& offset <= buf@.len()
            },
            Err(e) => width == 0 && e == PagerError::InvalidWidth,
        },
{
    if width == 0 {
        return Err(PagerError::InvalidWidth);
    }
    let mut pos: usize = 0;
    let mut done: usize = 0;
    while done < n && pos < buf.len()
        invariant
            width >= 1,
            done <= n,
            pos <= buf.len(),
            pos == nth_line_start(buf@, done as nat, width as int),
        decreases buf.len() - pos,
    {
        pos = display_line_end(buf, pos, width);
        done += 1;
    }
    proof {
        if done < n {
            lemma_stays_at_end(buf@, width as int, done as nat, n as nat);
        }
    }
    Ok(pos)
}

/// Gives the number of bytes between the end of `buf` and the start of the
/// display line that is number `n` from the end, the line that begins at the
/// end of `buf` being number 1.
pub fn backward_offset(n: usize, buf: &[u8], width: usize) -> (r: Result<usize, PagerError>)
    ensures
        match r {
            Ok(distance) => {
                &&& width >= 1
                &&& distance == distance_to_nth_last(buf@, n as nat, width as int)
                &&& distance <= buf@.len()
            },
            Err(e) => width == 0 && e == PagerError::InvalidWidth,
        },
{
    if width == 0 {
        return Err(PagerError::InvalidWidth);
    }
    if n == 0 {
        return Ok(0);
    }
    let total = count_display_lines(buf, width);
    let back = n - 1;
    if back >= total {
        return Ok(buf.len());
    }
    match forward_offset(total - back, buf, width) {
        Ok(start) => {
            proof {
                lemma_forward_monotonic(buf@, width as int, 0, (total - back) as nat);
            }
            Ok(buf.len() - start)
        },
        Err(e) => Err(e),
    }
}

} // verus!
