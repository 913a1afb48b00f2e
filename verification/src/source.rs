//! Byte sources: what the pager reads from.
//!
//! A source is a fixed sequence of bytes with a position in it. It can move
//! the position and hand out the bytes that follow it. A file and a buffer in
//! memory are both sources; the pager is written against the trait.

use vstd::prelude::*;
use crate::error::PagerError;

verus! {

/// Where to seek to, counted from the start, the end or the position.
#[derive(Debug, Clone, Copy, PartialEq, Eq, Structural)]
pub enum SeekFrom {
    Start(u64),
    End(i64),
    Current(i64),
}

impl SeekFrom {
    /// The position that is meant, in a source of `len` bytes that stands
    /// at `position`.
    pub open spec fn target(self, len: int, position: int) -> int {
        match self {
            SeekFrom::Start(offset) => offset as int,
            SeekFrom::End(delta) => len + delta,
            SeekFrom::Current(delta) => position + delta,
        }
    }
}

/// Whether a source can stand at `target`. A position behind the end of the
/// source is in order; nothing is read there.
pub open spec fn reachable(target: int) -> bool {
    0 <= target <= u64::MAX
}

/// The bytes that a read of at most `limit` bytes at `position` hands out.
pub open spec fn readable(content: Seq<u8>, position: int, limit: nat) -> Seq<u8> {
    if 0 <= position < content.len() {
        let end = if position + limit <= content.len() {
            position + limit
        } else {
            content.len() as int
        };
        content.subrange(position, end)
    } else {
        Seq::empty()
    }
}

/// What a source holds and where it stands.
pub struct SourceModel {
    /// All the bytes of the source.
    pub content: Seq<u8>,
    /// Where the next read begins.
    pub position: int,
}

impl SourceModel {
    /// The position is a `u64`, and the length of the content a `usize`.
    pub open spec fn valid(self) -> bool {
        reachable(self.position) && self.content.len() <= usize::MAX
    }
}

/// Bytes that can be read from any position.
///
/// A source may give an account of itself, its `model`. The contracts of
/// this crate speak of sources that do: their content never changes, and
/// their calls fail only where a seek names a position that no source can
/// hold. Of a source without a model nothing is known; the readers of this
/// crate take whatever it answers, and treat an answer that cannot be true as
/// a failure of the device.
pub trait ByteSource {
    /// The account that the source gives of itself, if it gives one.
    open spec fn model(&self) -> Option<SourceModel> {
        None
    }

    /// Moves the position and returns it. A failed seek moves nothing.
    fn seek(&mut self, pos: SeekFrom) -> (r: Result<u64, PagerError>)
        requires
            old(self).model() matches Some(before) ==> before.valid(),
        ensures
            match old(self).model() {
                None => final(self).model() is None,
                Some(before) => match r {
                    Ok(p) => {
                        &&& p == pos.target(before.content.len() as int, before.position)
                        &&& final(self).model() == Some(
                            SourceModel { position: p as int, ..before },
                        )
                    },
                    Err(e) => {
                        &&& e == PagerError::Io
                        &&& !reachable(pos.target(before.content.len() as int, before.position))
                        &&& final(self).model() == Some(before)
                    },
                },
            },
    ;

    /// Reads the bytes at the position, `limit` of them or all that are
    /// left, and moves the position behind them.
    fn read(&mut self, limit: usize) -> (r: Result<Vec<u8>, PagerError>)
        requires
            old(self).model() matches Some(before) ==> before.valid(),
        ensures
            match old(self).model() {
                None => final(self).model() is None,
                Some(before) => match r {
                    Ok(bytes) => {
                        &&& bytes@ == readable(before.content, before.position, limit as nat)
                        &&& final(self).model() == Some(
                            SourceModel { position: before.position + bytes@.len(), ..before },
                        )
                    },
                    Err(_) => false,
                },
            },
    ;
}

/// Input that was read to its end and is held in memory.
#[derive(Debug)]
pub struct StdinCursor {
    data: Vec<u8>,
    pos: u64,
}

impl StdinCursor {
    /// Wraps `bytes` as a source that stands at their start.
    pub fn new(bytes: Vec<u8>) -> (cursor: StdinCursor)
        ensures
            cursor.model() == Some(SourceModel { content: bytes@, position: 0 }),
            cursor.model()->Some_0.valid(),
    {
        assert(bytes@.len() == bytes.len());
        StdinCursor { data: bytes, pos: 0 }
    }
}

impl ByteSource for StdinCursor {
    closed spec fn model(&self) -> Option<SourceModel> {
        Some(SourceModel { content: self.data@, position: self.pos as int })
    }

    fn seek(&mut self, pos: SeekFrom) -> (r: Result<u64, PagerError>) {
        let target: i128 = match pos {
            SeekFrom::Start(offset) => offset as i128,
            SeekFrom::End(delta) => self.data.len() as i128 + delta as i128,
            SeekFrom::Current(delta) => self.pos as i128 + delta as i128,
        };
        if 0 <= target && target <= u64::MAX as i128 {
            self.pos = target as u64;
            Ok(self.pos)
        } else {
            Err(PagerError::Io)
        }
    }

    fn read(&mut self, limit: usize) -> (r: Result<Vec<u8>, PagerError>) {
        let len = self.data.len();
        let mut bytes: Vec<u8> = Vec::new();
        if self.pos >= len as u64 {
            return Ok(bytes);
        }
        let start: usize = self.pos as usize;
        let end: usize = if limit <= len - start {
            start + limit
        } else {
            len
        };
        let mut i: usize = start;
        while i < end
            invariant
                start <= i <= end <= self.data.len(),
                bytes@ == self.data@.subrange(start as int, i as int),
            decreases end - i,
        {
            bytes.push(self.data[i]);
            i += 1;
            assert(self.data@.subrange(start as int, i as int) =~= self.data@.subrange(
                start as int,
                i - 1,
            ).push(self.data@[i - 1]));
        }
        self.pos = end as u64;
        Ok(bytes)
    }
}

} // verus!
