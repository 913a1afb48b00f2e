//! Where code points start in a run of bytes.
//!
//! A byte of the form `10xxxxxx` continues a code point that began earlier;
//! every other byte starts one. A position in a byte sequence is a boundary
//! when it is the start or the end of the sequence, or when the byte there is
//! not a continuation byte.

use vstd::prelude::*;
use vstd::utf8::{
    is_char_boundary, is_char_boundary_iff_not_is_continuation_byte,
    is_char_boundary_start_end_of_seq, length_of_first_scalar, pop_first_scalar, valid_utf8,
};

verus! {

/// How many bytes after a seek target are searched for a code-point start.
pub const LOOKAHEAD: usize = 8;

/// Whether `b` has the bit pattern `10xxxxxx`.
pub open spec fn is_continuation(b: u8) -> bool {
    b & 0xC0 == 0x80
}

/// Whether a code point may start at position `p` of `bytes`.
pub open spec fn is_boundary(bytes: Seq<u8>, p: int) -> bool {
    p <= 0 || p >= bytes.len() || !is_continuation(bytes[p])
}

/// Whether `k` is the first position of `window` that holds a byte other
/// than a continuation byte.
pub open spec fn is_first_start(window: Seq<u8>, k: int) -> bool {
    &&& 0 <= k < window.len()
    &&& !is_continuation(window[k])
    &&& forall|j: int| 0 <= j < k ==> is_continuation(#[trigger] window[j])
}

/// Whether every byte of `window` is a continuation byte.
pub open spec fn all_continuation(window: Seq<u8>) -> bool {
    forall|j: int| 0 <= j < window.len() ==> is_continuation(#[trigger] window[j])
}

/// The bytes that a seek to `target` looks at: up to `LOOKAHEAD` bytes of
/// `bytes` from `target` on.
pub open spec fn lookahead(bytes: Seq<u8>, target: int) -> Seq<u8>
    recommends
        0 <= target <= bytes.len(),
{
    let end = if target + LOOKAHEAD <= bytes.len() {
        target + LOOKAHEAD
    } else {
        bytes.len() as int
    };
    bytes.subrange(target, end)
}

/// Where a seek to `target` comes to rest, if anywhere.
///
/// Position 0 and every position at or behind the end of `bytes` are kept.
/// Any other target moves forward to the first code-point start among the
/// bytes of its lookahead, or to the end of `bytes` where the lookahead
/// reaches it and holds none. A full lookahead of continuation bytes leaves
/// no resting place.
pub open spec fn aligned(bytes: Seq<u8>, target: int) -> Option<int> {
    if target <= 0 {
        Some(0)
    } else if target >= bytes.len() {
        Some(target)
    } else if !all_continuation(lookahead(bytes, target)) {
        Some(target + choose|k: int| is_first_start(lookahead(bytes, target), k))
    } else if lookahead(bytes, target).len() < LOOKAHEAD {
        Some(bytes.len() as int)
    } else {
        None
    }
}

/// Tells whether `b` continues a code point.
pub fn is_continuation_byte(b: u8) -> (r: bool)
    ensures
        r == is_continuation(b),
{
    b & 0xC0 == 0x80
}

/// Finds the first position of `buf` at which a code point can start.
pub fn first_valid_pos(buf: &[u8]) -> (r: Option<usize>)
    ensures
        match r {
            Some(k) => is_first_start(buf@, k as int),
            None => all_continuation(buf@),
        },
{
    let mut i: usize = 0;
    while i < buf.len()
        invariant
            i <= buf.len(),
            forall|j: int| 0 <= j < i ==> is_continuation(#[trigger] buf@[j]),
        decreases buf.len() - i,
    {
        if !is_continuation_byte(buf[i]) {
            return Some(i);
        }
        i += 1;
    }
    None
}

/// A window has at most one first code-point start.
pub proof fn lemma_first_start_unique(window: Seq<u8>, a: int, b: int)
    requires
        is_first_start(window, a),
        is_first_start(window, b),
    ensures
        a == b,
{
    if a < b {
        assert(is_continuation(window[a]));
    } else if b < a {
        assert(is_continuation(window[b]));
    }
}

/// A seek comes to rest on a boundary, at most `LOOKAHEAD - 1` bytes behind
/// its target, and a target that is a boundary already is kept. It finds no
/// resting place only where `LOOKAHEAD` continuation bytes follow the target.
pub proof fn lemma_aligned_is_boundary(bytes: Seq<u8>, target: int)
    requires
        0 <= target,
    ensures
        match aligned(bytes, target) {
            Some(p) => {
                &&& is_boundary(bytes, p)
                &&& target <= p < target + LOOKAHEAD
                &&& target <= bytes.len() ==> p <= bytes.len()
                &&& forall|j: int| target <= j < p ==> is_continuation(#[trigger] bytes[j])
            },
            None => {
                &&& 0 < target
                &&& target + LOOKAHEAD <= bytes.len()
                &&& forall|j: int|
                    target <= j < target + LOOKAHEAD ==> is_continuation(#[trigger] bytes[j])
            },
        },
        is_boundary(bytes, target) ==> aligned(bytes, target) == Some(target),
{
    if 0 < target < bytes.len() {
        let window = lookahead(bytes, target);
        assert(window.len() > 0);
        assert(window[0] == bytes[target]);
        if all_continuation(window) {
            assert(is_continuation(window[0]));
            assert forall|j: int| target <= j < target + window.len() implies is_continuation(
                #[trigger] bytes[j],
            ) by {
                assert(window[j - target] == bytes[j]);
            }
        } else {
            let j0 = choose|j: int| 0 <= j < window.len() && !is_continuation(#[trigger] window[j]);
            lemma_has_first_start(window, j0);
            let k = choose|k: int| is_first_start(window, k);
            assert(window[k] == bytes[target + k]);
            assert forall|j: int| target <= j < target + k implies is_continuation(
                #[trigger] bytes[j],
            ) by {
                assert(window[j - target] == bytes[j]);
            }
            if is_boundary(bytes, target) {
                assert(is_first_start(window, 0));
                lemma_first_start_unique(window, 0, k);
            }
        }
    }
}

/// A seek finds a resting place wherever a code-point start, or the end of
/// the input, lies less than `LOOKAHEAD` bytes behind its target. So it
/// always finds one in text whose code points are encoded in UTF-8, which
/// holds no more than three continuation bytes in a row.
pub proof fn lemma_aligned_unless_long_run(bytes: Seq<u8>, target: int, near: int)
    requires
        0 <= target <= near < target + LOOKAHEAD,
        is_boundary(bytes, near),
    ensures
        aligned(bytes, target) is Some,
{
    lemma_aligned_is_boundary(bytes, target);
}

/// A window that holds a byte other than a continuation byte at `j` has a
/// first code-point start, at `j` or before it.
pub proof fn lemma_has_first_start(window: Seq<u8>, j: int)
    requires
        0 <= j < window.len(),
        !is_continuation(window[j]),
    ensures
        exists|k: int| is_first_start(window, k) && k <= j,
    decreases j,
{
    if forall|i: int| 0 <= i < j ==> is_continuation(#[trigger] window[i]) {
        assert(is_first_start(window, j));
    } else {
        let i = choose|i: int| 0 <= i < j && !is_continuation(#[trigger] window[i]);
        lemma_has_first_start(window, i);
    }
}

/// A seek to a place at or before a boundary comes to rest at or before
/// that boundary.
pub proof fn lemma_aligned_before_boundary(bytes: Seq<u8>, target: int, boundary: int)
    requires
        0 <= target <= boundary <= bytes.len(),
        is_boundary(bytes, boundary),
        aligned(bytes, target) is Some,
    ensures
        target <= aligned(bytes, target)->Some_0 <= boundary,
{
    lemma_aligned_is_boundary(bytes, target);
    let p = aligned(bytes, target)->Some_0;
    if p > boundary {
        assert(is_continuation(bytes[boundary]));
    }
}

/// The continuation bytes are the bytes from `0x80` to `0xBF`.
pub proof fn lemma_continuation_range(b: u8)
    ensures
        is_continuation(b) <==> 0x80 <= b <= 0xBF,
{
    assert((b & 0xC0 == 0x80) <==> (0x80 <= b && b <= 0xBF)) by (bit_vector);
}

/// In text encoded in UTF-8 a character starts, or the text ends, at most
/// three bytes behind any place.
pub proof fn lemma_char_boundary_near(bytes: Seq<u8>, index: int) -> (near: int)
    requires
        valid_utf8(bytes),
        0 <= index <= bytes.len(),
    ensures
        index <= near <= index + 3,
        near <= bytes.len(),
        is_char_boundary(bytes, near),
    decreases bytes.len(),
{
    if index == 0 {
        0
    } else {
        let width = length_of_first_scalar(bytes);
        reveal_with_fuel(is_char_boundary, 2);
        if index <= width {
            width
        } else {
            width + lemma_char_boundary_near(pop_first_scalar(bytes), index - width)
        }
    }
}

/// In text encoded in UTF-8 every seek to a place within the text comes
/// to rest, at most three bytes behind its target, where a character starts
/// or the text ends.
pub proof fn lemma_aligned_in_valid_utf8(bytes: Seq<u8>, target: int)
    requires
        valid_utf8(bytes),
        0 <= target <= bytes.len(),
    ensures
        aligned(bytes, target) is Some,
        target <= aligned(bytes, target)->Some_0 <= target + 3,
        aligned(bytes, target)->Some_0 <= bytes.len(),
        is_char_boundary(bytes, aligned(bytes, target)->Some_0),
{
    let near = lemma_char_boundary_near(bytes, target);
    if 0 < near < bytes.len() {
        is_char_boundary_iff_not_is_continuation_byte(bytes, near);
        lemma_continuation_range(bytes[near]);
    }
    lemma_aligned_unless_long_run(bytes, target, near);
    lemma_aligned_is_boundary(bytes, target);
    lemma_aligned_before_boundary(bytes, target, near);
    let p = aligned(bytes, target)->Some_0;
    if 0 < p < bytes.len() {
        is_char_boundary_iff_not_is_continuation_byte(bytes, p);
        lemma_continuation_range(bytes[p]);
    } else {
        is_char_boundary_start_end_of_seq(bytes);
    }
}

} // verus!
