//! Readers over a byte source: the boundary guard and the navigation engine.
//!
//! `ValidReader` is a byte source whose seeks come to rest on the start of a
//! code point. `BiBufReader` owns the cursor, the offset of the top of the
//! page, and moves it by display lines, both ways.

use vstd::prelude::*;
use crate::error::PagerError;
use crate::searcher::{ascending, search_bytes, search_outcome, SearchMatch};
use crate::source::{reachable, readable, ByteSource, SeekFrom, SourceModel};
use crate::string_util::{
    backward_offset, distance_to_nth_last, forward_offset, is_line_start, line_count,
    lemma_backward_undoes_forward, lemma_distance_bounds, lemma_forward_monotonic,
    lemma_line_starts_after_newline, lemma_line_starts_at_zero, lemma_prefix_line_count,
    nth_line_start, NEWLINE,
};
use crate::utf8_validation::{
    aligned, first_valid_pos, is_boundary, is_first_start, lemma_aligned_before_boundary,
    lemma_aligned_is_boundary, lemma_first_start_unique, lemma_has_first_start, lookahead,
    LOOKAHEAD,
};
use crate::util::ScreenGeometry;

verus! {

/// Where a seek to `target` ends: on the nearest code-point start at or
/// behind it, or in `BoundaryNotFound`.
pub open spec fn settle(content: Seq<u8>, target: int) -> Result<int, PagerError> {
    match aligned(content, target) {
        Some(p) => Ok(p),
        None => Err(PagerError::BoundaryNotFound),
    }
}

/// What a guarded seek gives in a source with this content and position.
pub open spec fn seek_outcome(content: Seq<u8>, position: int, pos: SeekFrom) -> Result<
    int,
    PagerError,
> {
    let target = pos.target(content.len() as int, position);
    if reachable(target) {
        settle(content, target)
    } else {
        Err(PagerError::Io)
    }
}

/// Where the cursor is after a move down by `n` display lines.
pub open spec fn down_outcome(content: Seq<u8>, cursor: int, n: nat, screen: ScreenGeometry)
    -> Result<int, PagerError> {
    let buf = readable(content, cursor, screen.page_bytes());
    if buf.len() == 0 {
        Err(PagerError::EndOfInput)
    } else {
        settle(content, cursor + nth_line_start(buf, n, screen.width as int))
    }
}

/// Where the lookaround buffer of a move up from `cursor` begins: one page
/// before the cursor or at the start of the input, moved to a code-point
/// start.
pub open spec fn up_buffer_start(content: Seq<u8>, cursor: int, screen: ScreenGeometry) -> Option<
    int,
> {
    let size = if screen.page_bytes() <= cursor {
        screen.page_bytes() as int
    } else {
        cursor
    };
    aligned(content, cursor - size)
}

/// Where the cursor is after a move up by `n` display lines.
pub open spec fn up_outcome(content: Seq<u8>, cursor: int, n: nat, screen: ScreenGeometry)
    -> Result<int, PagerError> {
    if screen.width == 0 {
        Err(PagerError::InvalidWidth)
    } else {
        match up_buffer_start(content, cursor, screen) {
            None => Err(PagerError::BoundaryNotFound),
            Some(start) => {
                let buf = content.subrange(start, cursor);
                settle(content, cursor - distance_to_nth_last(buf, n + 1, screen.width as int))
            },
        }
    }
}

/// The offset that lies `percent` hundredths into `len` bytes, and at most
/// `len`.
pub open spec fn percent_target(len: nat, percent: u64) -> int {
    let scaled = len * percent / 100;
    if scaled > len {
        len as int
    } else {
        scaled as int
    }
}

/// Where the cursor is after a jump to `percent` hundredths of the input.
pub open spec fn jump_percentage_outcome(content: Seq<u8>, percent: u64, screen: ScreenGeometry)
    -> Result<int, PagerError> {
    match settle(content, percent_target(content.len(), percent)) {
        Ok(reached) => up_outcome(content, reached, 1, screen),
        Err(e) => Err(e),
    }
}

/// Where the cursor is after a jump to the last screen of the input.
pub open spec fn jump_end_outcome(content: Seq<u8>, screen: ScreenGeometry) -> Result<
    int,
    PagerError,
> {
    let lines = if screen.height == 0 {
        0nat
    } else {
        (screen.height - 1) as nat
    };
    up_outcome(content, content.len() as int, lines, screen)
}

/// Where the cursor is after a jump to `offset`.
pub open spec fn jump_offset_outcome(content: Seq<u8>, offset: u64) -> Result<int, PagerError> {
    settle(
        content,
        if offset <= content.len() {
            offset as int
        } else {
            content.len() as int
        },
    )
}

/// Whether `r` is the position or the error that `expected` names.
pub open spec fn found(r: Result<u64, PagerError>, expected: Result<int, PagerError>) -> bool {
    match r {
        Ok(p) => expected == Ok::<int, PagerError>(p as int),
        Err(e) => expected == Err::<int, PagerError>(e),
    }
}

/// Whether a move ended as `expected` names: with the cursor on the
/// position named, or with the error named and the cursor where it was.
pub open spec fn lands(
    r: Result<(), PagerError>,
    before: int,
    after: int,
    expected: Result<int, PagerError>,
) -> bool {
    match r {
        Ok(_) => expected == Ok::<int, PagerError>(after),
        Err(e) => after == before && expected == Err::<int, PagerError>(e),
    }
}

/// A move lands within the input and on a boundary, or fails.
pub proof fn lemma_settle_is_boundary(content: Seq<u8>, target: int)
    requires
        0 <= target <= content.len(),
    ensures
        match settle(content, target) {
            Ok(p) => target <= p <= content.len() && is_boundary(content, p),
            Err(e) => e == PagerError::BoundaryNotFound && target + LOOKAHEAD <= content.len(),
        },
        is_boundary(content, target) ==> settle(content, target) == Ok::<int, PagerError>(target),
{
    lemma_aligned_is_boundary(content, target);
}

/// A move up ends at or before the place it began at, and on a boundary.
pub proof fn lemma_up_outcome_bounds(content: Seq<u8>, cursor: int, n: nat, screen: ScreenGeometry)
    requires
        0 <= cursor <= content.len(),
        is_boundary(content, cursor),
    ensures
        match up_outcome(content, cursor, n, screen) {
            Ok(p) => 0 <= p <= cursor && is_boundary(content, p),
            Err(e) => e == PagerError::InvalidWidth || e == PagerError::BoundaryNotFound,
        },
{
    if screen.width != 0 {
        let size = if screen.page_bytes() <= cursor {
            screen.page_bytes() as int
        } else {
            cursor
        };
        lemma_aligned_is_boundary(content, cursor - size);
        if aligned(content, cursor - size) is Some {
            lemma_aligned_before_boundary(content, cursor - size, cursor);
            let start = aligned(content, cursor - size)->Some_0;
            let buf = content.subrange(start, cursor);
            lemma_distance_bounds(buf, n + 1, screen.width as int);
            let target = cursor - distance_to_nth_last(buf, n + 1, screen.width as int);
            lemma_aligned_is_boundary(content, target);
            if aligned(content, target) is Some {
                lemma_aligned_before_boundary(content, target, cursor);
            }
        }
    }
}

/// A move down ends at or behind the place it began at, within the input
/// and on a boundary.
pub proof fn lemma_down_outcome_bounds(
    content: Seq<u8>,
    cursor: int,
    n: nat,
    screen: ScreenGeometry,
)
    requires
        0 <= cursor <= content.len(),
    ensures
        match down_outcome(content, cursor, n, screen) {
            Ok(p) => cursor <= p <= content.len() && is_boundary(content, p),
            Err(e) => {
                ||| e == PagerError::BoundaryNotFound
                ||| e == PagerError::EndOfInput && readable(
                    content,
                    cursor,
                    screen.page_bytes(),
                ).len() == 0
            },
        },
{
    let buf = readable(content, cursor, screen.page_bytes());
    if buf.len() != 0 {
        assert(screen.width >= 1) by {
            if screen.width == 0 {
                assert(screen.page_bytes() == 0) by (nonlinear_arith)
                    requires
                        screen.width == 0,
                        screen.page_bytes() == (screen.width as nat) * (screen.height as nat) * 4,
                ;
            }
        }
        lemma_forward_monotonic(buf, screen.width as int, 0, n);
        lemma_aligned_is_boundary(content, cursor + nth_line_start(buf, n, screen.width as int));
    }
}

/// Down by `n` display lines and up by `n` display lines ends where it
/// began.
///
/// This holds of a cursor and a move down that are not cut short: the page
/// behind the cursor holds `n` display lines, the place reached is the start
/// of a code point, and the cursor is the start of a display line of the
/// buffer that the move up looks at.
pub proof fn lemma_down_then_up(
    content: Seq<u8>,
    cursor: int,
    n: nat,
    screen: ScreenGeometry,
)
    requires
        0 <= cursor <= content.len(),
        is_boundary(content, cursor),
        screen.width >= 1,
        n <= line_count(readable(content, cursor, screen.page_bytes()), screen.width as int),
        down_outcome(content, cursor, n, screen) == Ok::<int, PagerError>(
            cursor + nth_line_start(
                readable(content, cursor, screen.page_bytes()),
                n,
                screen.width as int,
            ),
        ),
        ({
            let reached = cursor + nth_line_start(
                readable(content, cursor, screen.page_bytes()),
                n,
                screen.width as int,
            );
            match up_buffer_start(content, reached, screen) {
                Some(start) => start <= cursor && is_line_start(
                    content.subrange(start, reached),
                    cursor - start,
                    screen.width as int,
                ),
                None => false,
            }
        }),
    ensures
        up_outcome(
            content,
            cursor + nth_line_start(
                readable(content, cursor, screen.page_bytes()),
                n,
                screen.width as int,
            ),
            n,
            screen,
        ) == Ok::<int, PagerError>(cursor),
{
    let width = screen.width as int;
    let page = readable(content, cursor, screen.page_bytes());
    let delta = nth_line_start(page, n, width);
    let reached = cursor + delta;
    lemma_forward_monotonic(page, width, 0, n);
    let size = if screen.page_bytes() <= reached {
        screen.page_bytes() as int
    } else {
        reached
    };
    lemma_aligned_is_boundary(content, reached - size);
    let start = up_buffer_start(content, reached, screen)->Some_0;
    assert(0 <= start <= cursor <= reached <= content.len());
    let window = content.subrange(start, reached);
    let starts_line = choose|k: nat|
        k <= line_count(window, width) && #[trigger] nth_line_start(window, k, width) == cursor
            - start;
    assert(window.subrange(cursor - start, window.len() as int) =~= page.subrange(0, delta));
    lemma_prefix_line_count(page, n, width);
    lemma_backward_undoes_forward(window, cursor - start, starts_line, n, width);
    lemma_aligned_is_boundary(content, cursor);
}

/// From the start of a logical line, down by `n` display lines and up by
/// `n` display lines ends where it began.
///
/// The cursor is at the start of the input or behind a newline, and on the
/// start of a code point. The page behind it holds `n` display lines, the
/// place reached is the start of a code point, and the buffer of the move up
/// has a start.
pub proof fn lemma_down_then_up_from_line_start(
    content: Seq<u8>,
    cursor: int,
    n: nat,
    screen: ScreenGeometry,
)
    requires
        0 <= cursor <= content.len(),
        is_boundary(content, cursor),
        cursor == 0 || content[cursor - 1] == NEWLINE,
        screen.width >= 1,
        n <= line_count(readable(content, cursor, screen.page_bytes()), screen.width as int),
        is_boundary(
            content,
            cursor + nth_line_start(
                readable(content, cursor, screen.page_bytes()),
                n,
                screen.width as int,
            ),
        ),
        readable(content, cursor, screen.page_bytes()).len() > 0,
        up_buffer_start(
            content,
            cursor + nth_line_start(
                readable(content, cursor, screen.page_bytes()),
                n,
                screen.width as int,
            ),
            screen,
        ) is Some,
    ensures
        down_outcome(content, cursor, n, screen) == Ok::<int, PagerError>(
            cursor + nth_line_start(
                readable(content, cursor, screen.page_bytes()),
                n,
                screen.width as int,
            ),
        ),
        up_outcome(
            content,
            cursor + nth_line_start(
                readable(content, cursor, screen.page_bytes()),
                n,
                screen.width as int,
            ),
            n,
            screen,
        ) == Ok::<int, PagerError>(cursor),
{
    let width = screen.width as int;
    let page = readable(content, cursor, screen.page_bytes());
    let reached = cursor + nth_line_start(page, n, width);
    lemma_forward_monotonic(page, width, 0, n);
    lemma_aligned_is_boundary(content, reached);
    let size = if screen.page_bytes() <= reached {
        screen.page_bytes() as int
    } else {
        reached
    };
    lemma_aligned_is_boundary(content, reached - size);
    lemma_aligned_before_boundary(content, reached - size, cursor);
    let start = up_buffer_start(content, reached, screen)->Some_0;
    let window = content.subrange(start, reached);
    if start == cursor {
        lemma_line_starts_at_zero(window, width);
    } else {
        assert(window[cursor - start - 1] == content[cursor - 1]);
        lemma_line_starts_after_newline(window, cursor - start, width);
    }
    lemma_down_then_up(content, cursor, n, screen);
}

/// After a jump to the end, a move down does not pass the end of the
/// input. It fails only where nothing is left to read, or where the bytes
/// behind the place it would reach hold no start of a code point.
pub proof fn lemma_down_after_jump_end(content: Seq<u8>, screen: ScreenGeometry, n: nat)
    requires
        jump_end_outcome(content, screen) is Ok,
    ensures
        ({
            let last_page = jump_end_outcome(content, screen)->Ok_0;
            &&& 0 <= last_page <= content.len()
            &&& match down_outcome(content, last_page, n, screen) {
                Ok(p) => last_page <= p <= content.len(),
                Err(e) => {
                    ||| e == PagerError::BoundaryNotFound
                    ||| e == PagerError::EndOfInput && readable(
                        content,
                        last_page,
                        screen.page_bytes(),
                    ).len() == 0
                },
            }
        }),
{
    let lines = if screen.height == 0 {
        0nat
    } else {
        (screen.height - 1) as nat
    };
    lemma_up_outcome_bounds(content, content.len() as int, lines, screen);
    let last_page = jump_end_outcome(content, screen)->Ok_0;
    lemma_down_outcome_bounds(content, last_page, n, screen);
}

/// Readers whose input can be searched for a regular expression.
///
/// As with byte sources, the contract speaks of readers that give an
/// account of their input.
pub trait Search {
    /// The bytes that a search goes through, where the reader gives an
    /// account of them.
    open spec fn haystack(&self) -> Option<Seq<u8>> {
        None
    }

    /// What holds of the reader between calls.
    open spec fn ready(&self) -> bool {
        true
    }

    /// Searches the whole input, from its first byte to its last, and
    /// returns the matches in the order of their offsets. A pattern that is
    /// no regular expression gives `InvalidPattern`.
    fn search(&mut self, pattern: &str) -> (r: Result<Vec<SearchMatch>, PagerError>)
        requires
            old(self).ready(),
        ensures
            final(self).ready(),
            final(self).haystack() == old(self).haystack(),
            old(self).haystack() matches Some(content) ==> match r {
                Ok(matches) => {
                    &&& search_outcome(pattern@, content) == Ok::<Seq<SearchMatch>, PagerError>(
                        matches@,
                    )
                    &&& ascending(matches@, content.len())
                },
                Err(e) => search_outcome(pattern@, content) == Err::<Seq<SearchMatch>, PagerError>(
                    e,
                ),
            },
    ;
}

/// A byte source whose position, after a seek, is the start of a code
/// point.
pub struct ValidReader<R> {
    inner: R,
}

impl<R: ByteSource> ValidReader<R> {
    /// The account that the source gives of itself, if it gives one.
    pub closed spec fn model(&self) -> Option<SourceModel> {
        self.inner.model()
    }

    /// Whether the source gives an account of itself.
    pub open spec fn modelled(&self) -> bool {
        self.model() is Some
    }

    /// All the bytes of a source that gives an account of itself.
    pub open spec fn content(&self) -> Seq<u8>
        recommends
            self.modelled(),
    {
        self.model()->Some_0.content
    }

    /// Where the next read of such a source begins.
    pub open spec fn position(&self) -> int
        recommends
            self.modelled(),
    {
        self.model()->Some_0.position
    }

    /// What holds of the reader between calls.
    pub open spec fn inv(&self) -> bool {
        self.model() matches Some(model) ==> model.valid()
    }

    /// Guards `reader`.
    pub fn new(reader: R) -> (guarded: ValidReader<R>)
        ensures
            guarded.model() == reader.model(),
    {
        ValidReader { inner: reader }
    }

    /// Reads the bytes at the position, `limit` of them or all that are
    /// left, as the source holds them.
    pub fn read(&mut self, limit: usize) -> (r: Result<Vec<u8>, PagerError>)
        requires
            old(self).inv(),
        ensures
            final(self).inv(),
            final(self).modelled() == old(self).modelled(),
            old(self).modelled() ==> match r {
                Ok(bytes) => {
                    &&& bytes@ == readable(
                        old(self).content(),
                        old(self).position(),
                        limit as nat,
                    )
                    &&& final(self).content() == old(self).content()
                    &&& final(self).position() == old(self).position() + bytes@.len()
                },
                Err(_) => false,
            },
    {
        self.inner.read(limit)
    }

    /// Seeks, and then moves on to the first start of a code point among
    /// the next `LOOKAHEAD` bytes. The start and the end of the input are
    /// kept as they are. A seek that fails for want of a code-point start, or
    /// for a target that no source can hold, leaves the position where it
    /// was.
    pub fn seek(&mut self, pos: SeekFrom) -> (r: Result<u64, PagerError>)
        requires
            old(self).inv(),
        ensures
            final(self).inv(),
            final(self).modelled() == old(self).modelled(),
            old(self).modelled() ==> {
                &&& final(self).content() == old(self).content()
                &&& found(r, seek_outcome(old(self).content(), old(self).position(), pos))
                &&& match r {
                    Ok(p) => final(self).position() == p && is_boundary(
                        old(self).content(),
                        p as int,
                    ),
                    Err(_) => final(self).position() == old(self).position(),
                }
                &&& pos == SeekFrom::Start(0) ==> r == Ok::<u64, PagerError>(0)
            },
    {
        let ghost content = self.content();
        let before = match self.inner.seek(SeekFrom::Current(0)) {
            Ok(p) => p,
            Err(e) => {
                return Err(e);
            },
        };
        let at = match self.inner.seek(pos) {
            Ok(p) => p,
            Err(e) => {
                return Err(e);
            },
        };
        proof {
            if self.modelled() {
                lemma_aligned_is_boundary(content, at as int);
            }
        }
        if at == 0 {
            return Ok(at);
        }
        let window = match self.inner.read(LOOKAHEAD) {
            Ok(bytes) => bytes,
            Err(e) => {
                let _ = self.inner.seek(SeekFrom::Start(before));
                return Err(e);
            },
        };
        if window.len() == 0 {
            return Ok(at);
        }
        assert(self.modelled() ==> window@ == lookahead(content, at as int));
        let k = match first_valid_pos(window.as_slice()) {
            Some(k) => {
                proof {
                    if self.modelled() {
                        lemma_has_first_start(window@, k as int);
                        let chosen = choose|c: int|
                            is_first_start(lookahead(content, at as int), c);
                        lemma_first_start_unique(window@, k as int, chosen);
                    }
                }
                k
            },
            None => {
                if window.len() < LOOKAHEAD {
                    window.len()
                } else {
                    return match self.inner.seek(SeekFrom::Start(before)) {
                        Ok(_) => Err(PagerError::BoundaryNotFound),
                        Err(e) => Err(e),
                    };
                }
            },
        };
        if k as u64 > u64::MAX - at {
            let _ = self.inner.seek(SeekFrom::Start(before));
            return Err(PagerError::Io);
        }
        match self.inner.seek(SeekFrom::Start(at + k as u64)) {
            Ok(p) => Ok(p),
            Err(e) => {
                let _ = self.inner.seek(SeekFrom::Start(before));
                Err(e)
            },
        }
    }
}

impl<R: ByteSource> Search for ValidReader<R> {
    open spec fn haystack(&self) -> Option<Seq<u8>> {
        if self.modelled() {
            Some(self.content())
        } else {
            None
        }
    }

    open spec fn ready(&self) -> bool {
        self.inv()
    }

    /// Searches the whole input for the regular expression `pattern`, from
    /// its first byte to its last, and then returns to the position at which
    /// the reader stood.
    fn search(&mut self, pattern: &str) -> (r: Result<Vec<SearchMatch>, PagerError>)
        ensures
            old(self).modelled() ==> final(self).position() == old(self).position(),
    {
        let ghost content = self.content();
        let before = match self.inner.seek(SeekFrom::Current(0)) {
            Ok(p) => p,
            Err(e) => {
                return Err(e);
            },
        };
        match self.inner.seek(SeekFrom::Start(0)) {
            Ok(_) => {},
            Err(e) => {
                return Err(e);
            },
        }
        let haystack = match self.inner.read(usize::MAX) {
            Ok(bytes) => bytes,
            Err(e) => {
                let _ = self.inner.seek(SeekFrom::Start(before));
                return Err(e);
            },
        };
        assert(self.modelled() ==> haystack@ =~= content);
        let found = search_bytes(pattern, haystack.as_slice());
        match self.inner.seek(SeekFrom::Start(before)) {
            Ok(_) => found,
            Err(e) => Err(e),
        }
    }
}

/// The navigation engine: a guarded byte source and the cursor in it.
///
/// The cursor is the offset of the top of the page. Only a move that
/// succeeds changes it. In a source that gives an account of itself it lies
/// within the input and on the start of a code point.
pub struct BiBufReader<R> {
    inner: ValidReader<R>,
    cursor: u64,
}

impl<R: ByteSource> BiBufReader<R> {
    /// Whether the source gives an account of itself.
    pub closed spec fn modelled(&self) -> bool {
        self.inner.modelled()
    }

    /// All the bytes of a source that gives an account of itself.
    pub closed spec fn content(&self) -> Seq<u8>
        recommends
            self.modelled(),
    {
        self.inner.content()
    }

    /// The offset of the top of the page.
    pub closed spec fn cursor(&self) -> int {
        self.cursor as int
    }

    /// What holds of the byte source between calls.
    pub closed spec fn source_inv(&self) -> bool {
        self.inner.inv()
    }

    /// Where the byte source stands.
    spec fn at(&self) -> int {
        self.inner.position()
    }

    /// What holds of the engine between calls.
    pub open spec fn wf(&self) -> bool {
        &&& self.source_inv()
        &&& self.modelled() ==> {
            &&& 0 <= self.cursor() <= self.content().len()
            &&& is_boundary(self.content(), self.cursor())
        }
    }

    /// Starts at the top of `inner`.
    pub fn new(inner: R) -> (reader: BiBufReader<R>)
        requires
            inner.model() matches Some(model) ==> model.valid(),
        ensures
            reader.wf(),
            reader.cursor() == 0,
            reader.modelled() == inner.model() is Some,
            inner.model() matches Some(model) ==> reader.content() == model.content,
    {
        BiBufReader { inner: ValidReader::new(inner), cursor: 0 }
    }

    /// The offset of the top of the page.
    pub fn current_offset(&self) -> (offset: u64)
        ensures
            offset == self.cursor(),
    {
        self.cursor
    }

    /// The number of bytes of one page.
    pub fn page_size(&self, screen: ScreenGeometry) -> (size: usize)
        ensures
            size == if screen.page_bytes() <= usize::MAX {
                screen.page_bytes()
            } else {
                usize::MAX as nat
            },
    {
        screen.page_size()
    }

    /// The number of bytes that a move looks at: one page.
    pub fn search_buf_size(&self, screen: ScreenGeometry) -> (size: usize)
        ensures
            size == if screen.page_bytes() <= usize::MAX {
                screen.page_bytes()
            } else {
                usize::MAX as nat
            },
    {
        self.page_size(screen)
    }

    /// Asks the source for the length of the input.
    fn input_len(&mut self) -> (r: Result<u64, PagerError>)
        requires
            old(self).source_inv(),
        ensures
            final(self).source_inv(),
            final(self).modelled() == old(self).modelled(),
            final(self).cursor() == old(self).cursor(),
            old(self).modelled() ==> {
                &&& final(self).content() == old(self).content()
                &&& r == Ok::<u64, PagerError>(old(self).content().len() as u64)
            },
    {
        self.inner.seek(SeekFrom::End(0))
    }

    /// Seeks to `target` through the guard.
    fn place(&mut self, target: u64) -> (r: Result<u64, PagerError>)
        requires
            old(self).source_inv(),
        ensures
            final(self).source_inv(),
            final(self).modelled() == old(self).modelled(),
            final(self).cursor() == old(self).cursor(),
            old(self).modelled() ==> {
                &&& final(self).content() == old(self).content()
                &&& found(r, settle(old(self).content(), target as int))
                &&& r matches Ok(p) ==> final(self).at() == p
            },
    {
        self.inner.seek(SeekFrom::Start(target))
    }

    /// Reads the page that begins at the boundary `from`.
    fn read_page(&mut self, from: u64, screen: ScreenGeometry) -> (r: Result<Vec<u8>, PagerError>)
        requires
            old(self).source_inv(),
            old(self).modelled() ==> from <= old(self).content().len() && is_boundary(
                old(self).content(),
                from as int,
            ),
        ensures
            final(self).source_inv(),
            final(self).modelled() == old(self).modelled(),
            final(self).cursor() == old(self).cursor(),
            old(self).modelled() ==> {
                &&& final(self).content() == old(self).content()
                &&& match r {
                    Ok(bytes) => bytes@ == readable(
                        old(self).content(),
                        from as int,
                        screen.page_bytes(),
                    ),
                    Err(_) => false,
                }
            },
    {
        proof {
            if self.modelled() {
                lemma_settle_is_boundary(self.content(), from as int);
            }
        }
        let size = self.search_buf_size(screen);
        match self.place(from) {
            Ok(_) => {},
            Err(e) => {
                return Err(e);
            },
        }
        self.inner.read(size)
    }

    /// Finds where a move down by `n` display lines from `from` ends.
    fn locate_down(&mut self, from: u64, n: usize, screen: ScreenGeometry) -> (r: Result<
        u64,
        PagerError,
    >)
        requires
            old(self).source_inv(),
            old(self).modelled() ==> from <= old(self).content().len() && is_boundary(
                old(self).content(),
                from as int,
            ),
        ensures
            final(self).source_inv(),
            final(self).modelled() == old(self).modelled(),
            final(self).cursor() == old(self).cursor(),
            old(self).modelled() ==> {
                &&& final(self).content() == old(self).content()
                &&& found(r, down_outcome(old(self).content(), from as int, n as nat, screen))
                &&& r matches Ok(p) ==> p <= old(self).content().len() && is_boundary(
                    old(self).content(),
                    p as int,
                )
            },
    {
        let ghost content = self.content();
        let ghost modelled = self.modelled();
        let buf = match self.read_page(from, screen) {
            Ok(bytes) => bytes,
            Err(e) => {
                return Err(e);
            },
        };
        if buf.len() == 0 {
            return Err(PagerError::EndOfInput);
        }
        if screen.width == 0 {
            proof {
                assert(screen.page_bytes() == 0) by (nonlinear_arith)
                    requires
                        screen.width == 0,
                        screen.page_bytes() == (screen.width as nat) * (screen.height as nat) * 4,
                ;
            }
            return Err(PagerError::Io);
        }
        let delta = match forward_offset(n, buf.as_slice(), screen.width as usize) {
            Ok(delta) => delta,
            Err(e) => {
                return Err(e);
            },
        };
        proof {
            lemma_forward_monotonic(buf@, screen.width as int, 0, n as nat);
            if modelled {
                lemma_settle_is_boundary(content, from + delta);
            }
        }
        if delta as u64 > u64::MAX - from {
            return Err(PagerError::Io);
        }
        self.place(from + delta as u64)
    }

    /// Finds where a move up by `n` display lines from `from` ends.
    fn locate_up(&mut self, from: u64, n: usize, screen: ScreenGeometry) -> (r: Result<
        u64,
        PagerError,
    >)
        requires
            old(self).source_inv(),
            old(self).modelled() ==> from <= old(self).content().len() && is_boundary(
                old(self).content(),
                from as int,
            ),
        ensures
            final(self).source_inv(),
            final(self).modelled() == old(self).modelled(),
            final(self).cursor() == old(self).cursor(),
            old(self).modelled() ==> {
                &&& final(self).content() == old(self).content()
                &&& found(r, up_outcome(old(self).content(), from as int, n as nat, screen))
                &&& r matches Ok(p) ==> p <= old(self).content().len() && is_boundary(
                    old(self).content(),
                    p as int,
                )
            },
    {
        let ghost content = self.content();
        let ghost modelled = self.modelled();
        if screen.width == 0 {
            return Err(PagerError::InvalidWidth);
        }
        let size = self.search_buf_size(screen);
        let back: u64 = if size as u64 <= from {
            size as u64
        } else {
            from
        };
        let start = match self.place(from - back) {
            Ok(p) => p,
            Err(e) => {
                return Err(e);
            },
        };
        proof {
            if modelled {
                lemma_aligned_is_boundary(content, from - back);
                lemma_aligned_before_boundary(content, from - back, from as int);
            }
        }
        if start < from - back || start > from {
            return Err(PagerError::Io);
        }
        let buf = match self.inner.read((from - start) as usize) {
            Ok(bytes) => bytes,
            Err(e) => {
                return Err(e);
            },
        };
        assert(modelled ==> buf@ =~= content.subrange(start as int, from as int));
        if buf.len() as u64 != from - start {
            return Err(PagerError::Io);
        }
        proof {
            lemma_distance_bounds(buf@, (n + 1) as nat, screen.width as int);
        }
        let distance = if n == usize::MAX {
            buf.len()
        } else {
            match backward_offset(n + 1, buf.as_slice(), screen.width as usize) {
                Ok(distance) => distance,
                Err(e) => {
                    return Err(e);
                },
            }
        };
        proof {
            if modelled {
                lemma_settle_is_boundary(content, from - distance);
                if aligned(content, from - distance) is Some {
                    lemma_aligned_before_boundary(content, from - distance, from as int);
                }
            }
        }
        self.place(from - distance as u64)
    }

    /// Moves the cursor up by `n` display lines, or to the top of what one
    /// page before the cursor holds.
    pub fn up_n_lines(&mut self, n: usize, screen: ScreenGeometry) -> (r: Result<(), PagerError>)
        requires
            old(self).wf(),
        ensures
            final(self).wf(),
            final(self).modelled() == old(self).modelled(),
            r is Err ==> final(self).cursor() == old(self).cursor(),
            old(self).modelled() ==> {
                &&& final(self).content() == old(self).content()
                &&& lands(
                    r,
                    old(self).cursor(),
                    final(self).cursor(),
                    up_outcome(old(self).content(), old(self).cursor(), n as nat, screen),
                )
            },
    {
        match self.locate_up(self.cursor, n, screen) {
            Ok(p) => {
                self.cursor = p;
                Ok(())
            },
            Err(e) => Err(e),
        }
    }

    /// Moves the cursor down by `n` display lines, or to the end of what
    /// one page from the cursor on holds. Where nothing is left to read, the
    /// move fails with `EndOfInput`.
    pub fn down_n_lines(&mut self, n: usize, screen: ScreenGeometry) -> (r: Result<(), PagerError>)
        requires
            old(self).wf(),
        ensures
            final(self).wf(),
            final(self).modelled() == old(self).modelled(),
            r is Err ==> final(self).cursor() == old(self).cursor(),
            old(self).modelled() ==> {
                &&& final(self).content() == old(self).content()
                &&& lands(
                    r,
                    old(self).cursor(),
                    final(self).cursor(),
                    down_outcome(old(self).content(), old(self).cursor(), n as nat, screen),
                )
            },
    {
        match self.locate_down(self.cursor, n, screen) {
            Ok(p) => {
                self.cursor = p;
                Ok(())
            },
            Err(e) => Err(e),
        }
    }

    /// Moves the cursor to `offset`, or to the end of the input where
    /// `offset` lies behind it.
    pub fn jump_offset(&mut self, offset: u64) -> (r: Result<(), PagerError>)
        requires
            old(self).wf(),
        ensures
            final(self).wf(),
            final(self).modelled() == old(self).modelled(),
            r is Err ==> final(self).cursor() == old(self).cursor(),
            old(self).modelled() ==> {
                &&& final(self).content() == old(self).content()
                &&& lands(
                    r,
                    old(self).cursor(),
                    final(self).cursor(),
                    jump_offset_outcome(old(self).content(), offset),
                )
            },
    {
        let ghost content = self.content();
        let ghost modelled = self.modelled();
        let len = match self.input_len() {
            Ok(len) => len,
            Err(e) => {
                return Err(e);
            },
        };
        let target = if offset <= len {
            offset
        } else {
            len
        };
        proof {
            if modelled {
                lemma_settle_is_boundary(content, target as int);
            }
        }
        match self.place(target) {
            Ok(p) => {
                self.cursor = p;
                Ok(())
            },
            Err(e) => Err(e),
        }
    }

    /// Finds the offset that lies `percent` hundredths into the input.
    fn seek_percent(&mut self, percent: u64) -> (r: Result<u64, PagerError>)
        requires
            old(self).source_inv(),
        ensures
            final(self).source_inv(),
            final(self).modelled() == old(self).modelled(),
            final(self).cursor() == old(self).cursor(),
            old(self).modelled() ==> {
                &&& final(self).content() == old(self).content()
                &&& found(
                    r,
                    settle(
                        old(self).content(),
                        percent_target(old(self).content().len(), percent),
                    ),
                )
                &&& r matches Ok(p) ==> p <= old(self).content().len() && is_boundary(
                    old(self).content(),
                    p as int,
                )
            },
    {
        let ghost content = self.content();
        let ghost modelled = self.modelled();
        let len = match self.input_len() {
            Ok(len) => len,
            Err(e) => {
                return Err(e);
            },
        };
        assert(len * percent <= 0xFFFF_FFFF_FFFF_FFFF * 0xFFFF_FFFF_FFFF_FFFF) by (nonlinear_arith)
            requires
                0 <= len <= 0xFFFF_FFFF_FFFF_FFFF,
                0 <= percent <= 0xFFFF_FFFF_FFFF_FFFF,
        ;
        let scaled: u128 = (len as u128) * (percent as u128) / 100;
        let target: u64 = if scaled > len as u128 {
            len
        } else {
            scaled as u64
        };
        proof {
            if modelled {
                lemma_settle_is_boundary(content, target as int);
            }
        }
        self.place(target)
    }

    /// Moves the cursor to the display line before the offset that lies
    /// `percent` hundredths into the input, or to the start of the line
    /// where that offset lies inside one.
    pub fn jump_percentage(&mut self, percent: u64, screen: ScreenGeometry) -> (r: Result<
        (),
        PagerError,
    >)
        requires
            old(self).wf(),
        ensures
            final(self).wf(),
            final(self).modelled() == old(self).modelled(),
            r is Err ==> final(self).cursor() == old(self).cursor(),
            old(self).modelled() ==> {
                &&& final(self).content() == old(self).content()
                &&& lands(
                    r,
                    old(self).cursor(),
                    final(self).cursor(),
                    jump_percentage_outcome(old(self).content(), percent, screen),
                )
            },
    {
        let reached = match self.seek_percent(percent) {
            Ok(p) => p,
            Err(e) => {
                return Err(e);
            },
        };
        match self.locate_up(reached, 1, screen) {
            Ok(p) => {
                self.cursor = p;
                Ok(())
            },
            Err(e) => Err(e),
        }
    }

    /// Moves the cursor so that the last lines of the input fill the
    /// screen: from the end up by one line less than the screen is high.
    pub fn jump_end(&mut self, screen: ScreenGeometry) -> (r: Result<(), PagerError>)
        requires
            old(self).wf(),
        ensures
            final(self).wf(),
            final(self).modelled() == old(self).modelled(),
            r is Err ==> final(self).cursor() == old(self).cursor(),
            old(self).modelled() ==> {
                &&& final(self).content() == old(self).content()
                &&& lands(
                    r,
                    old(self).cursor(),
                    final(self).cursor(),
                    jump_end_outcome(old(self).content(), screen),
                )
            },
    {
        let reached = match self.seek_percent(100) {
            Ok(p) => p,
            Err(e) => {
                return Err(e);
            },
        };
        let lines: usize = if screen.height == 0 {
            0
        } else {
            (screen.height - 1) as usize
        };
        match self.locate_up(reached, lines, screen) {
            Ok(p) => {
                self.cursor = p;
                Ok(())
            },
            Err(e) => Err(e),
        }
    }

    /// Reads the page at the cursor and returns it with the cursor's
    /// offset. The cursor stays.
    pub fn page(&mut self, screen: ScreenGeometry) -> (r: Result<(u64, Vec<u8>), PagerError>)
        requires
            old(self).wf(),
        ensures
            final(self).wf(),
            final(self).modelled() == old(self).modelled(),
            final(self).cursor() == old(self).cursor(),
            r matches Ok((offset, _)) ==> offset == old(self).cursor(),
            old(self).modelled() ==> {
                &&& final(self).content() == old(self).content()
                &&& match r {
                    Ok((_, bytes)) => bytes@ == readable(
                        old(self).content(),
                        old(self).cursor(),
                        screen.page_bytes(),
                    ),
                    Err(_) => false,
                }
            },
    {
        match self.read_page(self.cursor, screen) {
            Ok(bytes) => Ok((self.cursor, bytes)),
            Err(e) => Err(e),
        }
    }
}

impl<R: ByteSource> Search for BiBufReader<R> {
    open spec fn haystack(&self) -> Option<Seq<u8>> {
        if self.modelled() {
            Some(self.content())
        } else {
            None
        }
    }

    open spec fn ready(&self) -> bool {
        self.wf()
    }

    /// Searches the whole input for the regular expression `pattern`. The
    /// cursor stays, whatever the search comes to.
    fn search(&mut self, pattern: &str) -> (r: Result<Vec<SearchMatch>, PagerError>)
        ensures
            final(self).cursor() == old(self).cursor(),
    {
        self.inner.search(pattern)
    }
}

} // verus!
