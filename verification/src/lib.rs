//! Locates occurrences of a fixed-length byte signature, optionally containing
//! "any byte" wildcard positions, within a byte stream of unbounded length,
//! without loading the entire stream into memory.
//!
//! A pattern is written as whitespace-separated tokens; each token is either
//! `?` (match any byte) or one or two case-insensitive hex digits (match that
//! exact byte value):
//!
//! * `fe 00 68 98` matches only the bytes `fe 00 68 98`
//! * `8d 11 ? ? 8f` matches `8d 11 9e ef 8f` or `8d 11 00 00 8f`, for example
//!
//! The stream is read in fixed-size chunks through the [`ByteSource`] trait;
//! matches whose bytes straddle the boundary between two chunks are still
//! found, by carrying the tail of each chunk over to the front of the window
//! before the next read. [`scan`] collects every match offset, in strictly
//! ascending order; [`scan_first_match`] stops at the first one. For bytes
//! already resident in memory, [`find_pattern`] and [`scan_bytes`] test every
//! offset directly, with no chunking.
//!
//! A zero-length pattern (an empty or all-whitespace pattern string) is
//! accepted by the pattern compiler but rejected whenever a scan is requested,
//! with [`ErrorKind::EmptyPattern`]: it would otherwise vacuously match at
//! every position.

use vstd::prelude::*;

mod error;
mod laws;
mod pattern;
mod session;
mod source;

use pattern::matches_from;

pub use error::{Error, ErrorKind};
pub use laws::lemma_match_listing_unique;
pub use session::Matches;
pub use source::{ByteSource, SliceSource};
pub use pattern::{
    is_match_listing, matches_at, pattern_matches, pattern_valid, spec_pattern,
    strictly_ascending, token_matches, Pattern, PatternByte,
};

verus! {

/// Size of chunks to be read from a source when looking for patterns.
///
/// In [`Matches`] (which in turn is used in [`scan`] and [`scan_first_match`]),
/// bytes are read from the provided [`ByteSource`] into a fixed-size internal
/// window of this many bytes. A pattern can be at most half this long, so that
/// carrying the last pattern-length bytes of the window over a refill still
/// leaves room to make progress.
pub const CHUNK_SIZE: usize = 0x800;

/// Scan for any instances of `pattern` in the bytes read by `reader`.
///
/// On success the returned vector lists, in strictly ascending order, exactly
/// the absolute offsets at which the pattern matches the stream; overlapping
/// occurrences are each reported. Fails exactly when the pattern is malformed
/// (before any byte is read), empty, longer than half the window capacity, or
/// when a read fails partway, in which case no partial list is returned. A
/// read failure can only come from a source that
/// [`may_fail`](ByteSource::may_fail): over a [`SliceSource`], an accepted
/// pattern always scans successfully.
#[verifier::loop_isolation(false)]
pub fn scan<S: ByteSource>(reader: S, pattern: &str) -> (r: Result<Vec<usize>, Error>)
    requires
        reader.bytes().len() <= usize::MAX,
    ensures
        match r {
            Ok(v) => {
                &&& pattern_valid(pattern@)
                &&& 1 <= spec_pattern(pattern@).len()
                &&& 2 * spec_pattern(pattern@).len() <= CHUNK_SIZE
                &&& is_match_listing(reader.bytes(), spec_pattern(pattern@), v@)
            },
            Err(e) => {
                &&& (e.kind == ErrorKind::InvalidPatternToken <==> !pattern_valid(pattern@))
                &&& (e.kind == ErrorKind::EmptyPattern <==> pattern_valid(pattern@)
                    && spec_pattern(pattern@).len() == 0)
                &&& (e.kind == ErrorKind::PatternTooLong <==> pattern_valid(pattern@) && 2
                    * spec_pattern(pattern@).len() > CHUNK_SIZE)
                &&& (e.kind == ErrorKind::SourceReadFailure ==> reader.may_fail()
                    && pattern_valid(pattern@) && 1 <= spec_pattern(pattern@).len() && 2
                    * spec_pattern(pattern@).len() <= CHUNK_SIZE)
                &&& (e.kind == ErrorKind::InvalidPatternToken || e.kind == ErrorKind::EmptyPattern
                    || e.kind == ErrorKind::PatternTooLong || e.kind
                    == ErrorKind::SourceReadFailure)
            },
        },
{
    let ghost stream = reader.bytes();
    match Matches::from_pattern_str(reader, pattern) {
        Err(e) => Err(e),
        Ok(mut m) => {
            let ghost p = spec_pattern(pattern@);
            let mut out: Vec<usize> = Vec::new();
            loop
                invariant
                    m.wf(),
                    !m.is_concluded(),
                    m.stream() == stream,
                    m.pat() == p,
                    p == spec_pattern(pattern@),
                    pattern_valid(pattern@),
                    1 <= p.len(),
                    2 * p.len() <= CHUNK_SIZE,
                    m.source_may_fail() == reader.may_fail(),
                    0 <= m.cursor() <= stream.len(),
                    strictly_ascending(out@),
                    forall|a: int|
                        0 <= a < out@.len() ==> matches_at(stream, p, #[trigger] out@[a] as int)
                            && out@[a] < m.cursor(),
                    forall|j: int|
                        0 <= j < m.cursor() && #[trigger] matches_at(stream, p, j)
                            ==> out@.contains(j as usize),
                decreases stream.len() - m.cursor(),
            {
                let ghost cprev = m.cursor();
                let ghost prev_out = out@;
                match m.next() {
                    None => {
                        proof {
                            assert forall|k: int|
                                0 <= k && #[trigger] matches_at(stream, p, k) implies out@.contains(
                                k as usize,
                            ) by {
                                assert(!(cprev <= k));
                            }
                        }
                        return Ok(out);
                    },
                    Some(res) => match res {
                        Ok(k) => {
                            out.push(k);
                            proof {
                                assert(out@ == prev_out.push(k));
                                assert forall|j: int|
                                    0 <= j < m.cursor() && #[trigger] matches_at(
                                        stream,
                                        p,
                                        j,
                                    ) implies out@.contains(j as usize) by {
                                    if j < cprev {
                                        let a = choose|a: int|
                                            0 <= a < prev_out.len() && prev_out[a] == j as usize;
                                        assert(out@[a] == j as usize);
                                    } else {
                                        assert(j == k);
                                        assert(out@[out@.len() - 1] == k as usize);
                                    }
                                }
                                assert(matches_at(stream, p, k as int));
                                assert(k + p.len() <= stream.len());
                            }
                        },
                        Err(e) => {
                            return Err(e);
                        },
                    },
                }
            }
        },
    }
}

/// Scan for the first instance of `pattern` in the bytes read by `reader`.
///
/// This function should be used instead of [`scan`] to test whether a byte
/// stream contains a given pattern, or just find the first instance, as it
/// returns as soon as the first match is found and avoids reading the source
/// beyond it. On success it returns `Some` of the offset of the first match,
/// or `None` when the pattern matches nowhere in the stream; it fails exactly
/// as [`scan`] does.
pub fn scan_first_match<S: ByteSource>(reader: S, pattern: &str) -> (r: Result<
    Option<usize>,
    Error,
>)
    requires
        reader.bytes().len() <= usize::MAX,
    ensures
        match r {
            Ok(o) => {
                &&& pattern_valid(pattern@)
                &&& 1 <= spec_pattern(pattern@).len()
                &&& 2 * spec_pattern(pattern@).len() <= CHUNK_SIZE
                &&& match o {
                    Some(k) => matches_at(reader.bytes(), spec_pattern(pattern@), k as int)
                        && forall|j: int|
                        0 <= j < k ==> !matches_at(reader.bytes(), spec_pattern(pattern@), j),
                    None => forall|j: int|
                        0 <= j ==> !matches_at(reader.bytes(), spec_pattern(pattern@), j),
                }
            },
            Err(e) => {
                &&& (e.kind == ErrorKind::InvalidPatternToken <==> !pattern_valid(pattern@))
                &&& (e.kind == ErrorKind::EmptyPattern <==> pattern_valid(pattern@)
                    && spec_pattern(pattern@).len() == 0)
                &&& (e.kind == ErrorKind::PatternTooLong <==> pattern_valid(pattern@) && 2
                    * spec_pattern(pattern@).len() > CHUNK_SIZE)
                &&& (e.kind == ErrorKind::SourceReadFailure ==> reader.may_fail()
                    && pattern_valid(pattern@) && 1 <= spec_pattern(pattern@).len() && 2
                    * spec_pattern(pattern@).len() <= CHUNK_SIZE)
                &&& (e.kind == ErrorKind::InvalidPatternToken || e.kind == ErrorKind::EmptyPattern
                    || e.kind == ErrorKind::PatternTooLong || e.kind
                    == ErrorKind::SourceReadFailure)
            },
        },
{
    match Matches::from_pattern_str(reader, pattern) {
        Err(e) => Err(e),
        Ok(mut m) => match m.next() {
            None => Ok(None),
            Some(res) => match res {
                Ok(k) => Ok(Some(k)),
                Err(e) => Err(e),
            },
        },
    }
}

/// Find the first location of `pattern` in a fully resident byte slice.
///
/// This is the in-memory convenience path: the match scanner is run at every
/// offset directly, with no chunking and no carry-over, so the pattern length
/// is not limited by the window capacity. Returns `Some` of the offset of the
/// first match, or `None` when the pattern matches nowhere; fails exactly
/// when the pattern is malformed or empty.
#[verifier::loop_isolation(false)]
pub fn find_pattern(bytes: &[u8], pattern: &str) -> (r: Result<Option<usize>, Error>)
    ensures
        match r {
            Ok(o) => {
                &&& pattern_valid(pattern@)
                &&& 1 <= spec_pattern(pattern@).len()
                &&& match o {
                    Some(i) => matches_at(bytes@, spec_pattern(pattern@), i as int) && forall|
                        j: int,
                    |
                        0 <= j < i ==> !matches_at(bytes@, spec_pattern(pattern@), j),
                    None => forall|j: int|
                        0 <= j ==> !matches_at(bytes@, spec_pattern(pattern@), j),
                }
            },
            Err(e) => {
                &&& (e.kind == ErrorKind::InvalidPatternToken <==> !pattern_valid(pattern@))
                &&& (e.kind == ErrorKind::EmptyPattern <==> pattern_valid(pattern@)
                    && spec_pattern(pattern@).len() == 0)
                &&& (e.kind == ErrorKind::InvalidPatternToken || e.kind == ErrorKind::EmptyPattern)
            },
        },
{
    let p = match Pattern::parse(pattern) {
        Ok(p) => p,
        Err(e) => {
            return Err(e);
        },
    };
    let l = p.len();
    if l == 0 {
        return Err(Error::empty_pattern());
    }
    let n = bytes.len();
    if n < l {
        return Ok(None);
    }
    let mut i: usize = 0;
    while i <= n - l
        invariant
            forall|j: int| 0 <= j < i ==> !matches_at(bytes@, spec_pattern(pattern@), j),
        decreases n - i,
    {
        if matches_from(bytes, i, &p) {
            return Ok(Some(i));
        }
        i = i + 1;
    }
    Ok(None)
}

/// List every location of `pattern` in a fully resident byte slice.
///
/// The in-memory counterpart of [`scan`]: the match scanner is run at every
/// offset directly, with no chunking, and the returned vector lists exactly
/// the match offsets in strictly ascending order. Fails exactly when the
/// pattern is malformed or empty. Over the same bytes and pattern it yields
/// the same offsets as [`scan`] (see [`lemma_match_listing_unique`]).
#[verifier::loop_isolation(false)]
pub fn scan_bytes(bytes: &[u8], pattern: &str) -> (r: Result<Vec<usize>, Error>)
    ensures
        match r {
            Ok(v) => {
                &&& pattern_valid(pattern@)
                &&& 1 <= spec_pattern(pattern@).len()
                &&& is_match_listing(bytes@, spec_pattern(pattern@), v@)
            },
            Err(e) => {
                &&& (e.kind == ErrorKind::InvalidPatternToken <==> !pattern_valid(pattern@))
                &&& (e.kind == ErrorKind::EmptyPattern <==> pattern_valid(pattern@)
                    && spec_pattern(pattern@).len() == 0)
                &&& (e.kind == ErrorKind::InvalidPatternToken || e.kind == ErrorKind::EmptyPattern)
            },
        },
{
    let p = match Pattern::parse(pattern) {
        Ok(p) => p,
        Err(e) => {
            return Err(e);
        },
    };
    let l = p.len();
    if l == 0 {
        return Err(Error::empty_pattern());
    }
    let mut out: Vec<usize> = Vec::new();
    let n = bytes.len();
    if n < l {
        return Ok(out);
    }
    let mut i: usize = 0;
    while i <= n - l
        invariant
            i <= n - l + 1,
            strictly_ascending(out@),
            forall|a: int|
                0 <= a < out@.len() ==> matches_at(
                    bytes@,
                    spec_pattern(pattern@),
                    #[trigger] out@[a] as int,
                ) && out@[a] < i,
            forall|j: int|
                0 <= j < i && #[trigger] matches_at(bytes@, spec_pattern(pattern@), j)
                    ==> out@.contains(j as usize),
        decreases n - i,
    {
        let ghost prev_out = out@;
        if matches_from(bytes, i, &p) {
            out.push(i);
            proof {
                assert(out@ == prev_out.push(i as usize));
                assert forall|j: int|
                    0 <= j < i + 1 && #[trigger] matches_at(
                        bytes@,
                        spec_pattern(pattern@),
                        j,
                    ) implies out@.contains(j as usize) by {
                    if j < i {
                        let a = choose|a: int|
                            0 <= a < prev_out.len() && prev_out[a] == j as usize;
                        assert(out@[a] == j as usize);
                    } else {
                        assert(out@[out@.len() - 1] == i as usize);
                    }
                }
            }
        }
        i = i + 1;
    }
    Ok(out)
}

} // verus!


