use crate::error::{Error, ErrorKind};
use crate::pattern::{
    matches_at, matches_from, pattern_valid, spec_pattern, token_matches, Pattern, PatternByte,
};
use crate::source::ByteSource;
use crate::CHUNK_SIZE;
use vstd::prelude::*;

verus! {

/// Lazy, pull-based producer of the locations of matches for a pattern found
/// within the byte stream of a source.
///
/// This struct implements the actual streaming logic, and is used by the
/// [`scan`](crate::scan) and [`scan_first_match`](crate::scan_first_match)
/// functions to locate matches. The stream is read in [`CHUNK_SIZE`]-byte
/// chunks into a fixed window; when the scan position runs out of lookahead
/// room, the tail of the window is carried over to its front before the next
/// read, so that matches straddling a chunk boundary are still found.
///
/// Each call to [`next`](Matches::next) produces the absolute offset of the
/// next match, in strictly ascending order, or reports that the stream is
/// exhausted or that a read failed. A read failure concludes the session
/// permanently: no further reads are attempted after one failure is reported.
pub struct Matches<S: ByteSource> {
    /// Source from which the byte stream to search is read.
    pub reader: S,
    /// Pattern to search for in the byte stream.
    pub pattern: Pattern,
    /// Fixed-capacity window over the stream.
    buf: Vec<u8>,
    /// Number of valid bytes at the front of the window.
    filled: usize,
    /// Scan position within the window: the next candidate offset.
    rel: usize,
    /// Absolute stream offset of the first byte of the window.
    abs: usize,
    /// Whether a read returned zero bytes: the source is exhausted.
    finished: bool,
    /// Whether a read failure was reported: no further items are produced.
    concluded: bool,
    /// The complete stream, as it stood when the session was created.
    full: Ghost<Seq<u8>>,
}

impl<S: ByteSource> Matches<S> {
    /// The complete stream being scanned, from its start.
    pub closed spec fn stream(self) -> Seq<u8> {
        self.full@
    }

    /// The absolute offset of the next candidate position to be examined.
    pub closed spec fn cursor(self) -> int {
        self.abs + self.rel
    }

    /// The matchers of the pattern being scanned for.
    pub closed spec fn pat(self) -> Seq<PatternByte> {
        self.pattern@
    }

    /// Whether the session has concluded after reporting a read failure.
    pub closed spec fn is_concluded(self) -> bool {
        self.concluded
    }

    /// Whether the session's source can ever report a read failure; see
    /// [`ByteSource::may_fail`]. When it cannot, no call to
    /// [`next`](Matches::next) returns an error.
    pub closed spec fn source_may_fail(self) -> bool {
        self.reader.may_fail()
    }

    /// Well-formedness: the window has the fixed capacity, the pattern fits
    /// in half of it, and (until a read failure concludes the session) the
    /// window holds the stream bytes at the window's absolute position, and
    /// the source holds the rest of the stream.
    pub closed spec fn wf(self) -> bool {
        &&& self.buf@.len() == CHUNK_SIZE
        &&& 1 <= self.pattern@.len()
        &&& 2 * self.pattern@.len() <= CHUNK_SIZE
        &&& (!self.concluded ==> {
            &&& self.rel <= self.filled <= CHUNK_SIZE
            &&& self.abs + self.filled <= self.full@.len()
            &&& self.full@.len() <= usize::MAX
            &&& self.buf@.subrange(0, self.filled as int) == self.full@.subrange(
                self.abs as int,
                self.abs + self.filled,
            )
            &&& self.reader.bytes() == self.full@.skip(self.abs + self.filled)
            &&& (self.finished ==> self.abs + self.filled == self.full@.len())
        })
    }

    /// Create a new session scanning the bytes of `reader` for `pattern`.
    ///
    /// Performs no read; fails exactly when the pattern is empty
    /// ([`ErrorKind::EmptyPattern`]) or longer than half the window capacity
    /// ([`ErrorKind::PatternTooLong`]).
    pub fn from_pattern(reader: S, pattern: Pattern) -> (r: Result<Self, Error>)
        requires
            reader.bytes().len() <= usize::MAX,
        ensures
            match r {
                Ok(m) => {
                    &&& m.wf() && !m.is_concluded()
                    &&& m.stream() == reader.bytes()
                    &&& m.cursor() == 0
                    &&& m.pat() == pattern@
                    &&& m.source_may_fail() == reader.may_fail()
                    &&& 1 <= pattern@.len() && 2 * pattern@.len() <= CHUNK_SIZE
                },
                Err(e) => {
                    &&& (e.kind == ErrorKind::EmptyPattern <==> pattern@.len() == 0)
                    &&& (e.kind == ErrorKind::PatternTooLong <==> 2 * pattern@.len() > CHUNK_SIZE)
                    &&& (e.kind == ErrorKind::EmptyPattern || e.kind == ErrorKind::PatternTooLong)
                },
            },
    {
        let l = pattern.len();
        if l == 0 {
            return Err(Error::empty_pattern());
        }
        if l > CHUNK_SIZE / 2 {
            return Err(Error::pattern_too_long());
        }
        let ghost full = reader.bytes();
        let buf: Vec<u8> = vec![0u8; CHUNK_SIZE];
        let m = Matches {
            reader,
            pattern,
            buf,
            filled: 0,
            rel: 0,
            abs: 0,
            finished: false,
            concluded: false,
            full: Ghost(full),
        };
        proof {
            assert(m.buf@.subrange(0, 0) =~= m.full@.subrange(0, 0));
            assert(m.reader.bytes() =~= m.full@.skip(0));
        }
        Ok(m)
    }

    /// Create a new session from a pattern string; see
    /// [`Pattern::parse`] for the syntax and [`Matches::from_pattern`] for
    /// the scanning constraints.
    pub fn from_pattern_str(reader: S, pattern: &str) -> (r: Result<Self, Error>)
        requires
            reader.bytes().len() <= usize::MAX,
        ensures
            match r {
                Ok(m) => {
                    &&& pattern_valid(pattern@)
                    &&& m.wf() && !m.is_concluded()
                    &&& m.stream() == reader.bytes()
                    &&& m.cursor() == 0
                    &&& m.pat() == spec_pattern(pattern@)
                    &&& m.source_may_fail() == reader.may_fail()
                    &&& 1 <= spec_pattern(pattern@).len()
                    &&& 2 * spec_pattern(pattern@).len() <= CHUNK_SIZE
                },
                Err(e) => {
                    &&& (e.kind == ErrorKind::InvalidPatternToken <==> !pattern_valid(pattern@))
                    &&& (e.kind == ErrorKind::EmptyPattern <==> pattern_valid(pattern@)
                        && spec_pattern(pattern@).len() == 0)
                    &&& (e.kind == ErrorKind::PatternTooLong <==> pattern_valid(pattern@) && 2
                        * spec_pattern(pattern@).len() > CHUNK_SIZE)
                    &&& (e.kind == ErrorKind::InvalidPatternToken || e.kind
                        == ErrorKind::EmptyPattern || e.kind == ErrorKind::PatternTooLong)
                },
            },
    {
        match Pattern::parse(pattern) {
            Ok(p) => Self::from_pattern(reader, p),
            Err(e) => Err(e),
        }
    }

    /// Produce the next match offset, or signal the end of the scan.
    ///
    /// Returns `Some(Ok(k))` where `k` is the absolute offset of the first
    /// match at or after the current cursor; `None` when the source is
    /// exhausted and no further match exists (or the session had already
    /// concluded); `Some(Err(_))` with [`ErrorKind::SourceReadFailure`],
    /// wrapping the message of the error the source returned, when a read
    /// fails. The cursor never moves backwards and a concluded session stays
    /// concluded, so no offset is ever produced twice, and after an error or
    /// exhaustion every later call returns `None`.
    pub fn next(&mut self) -> (r: Option<Result<usize, Error>>)
        requires
            old(self).wf(),
        ensures
            final(self).wf(),
            final(self).stream() == old(self).stream(),
            final(self).pat() == old(self).pat(),
            final(self).source_may_fail() == old(self).source_may_fail(),
            old(self).cursor() <= final(self).cursor(),
            old(self).is_concluded() ==> final(self).is_concluded(),
            match r {
                None => {
                    ||| old(self).is_concluded()
                    ||| (!final(self).is_concluded() && forall|j: int|
                        old(self).cursor() <= j ==> !matches_at(
                            old(self).stream(),
                            old(self).pat(),
                            j,
                        ))
                },
                Some(res) => match res {
                    Ok(k) => {
                        &&& !old(self).is_concluded() && !final(self).is_concluded()
                        &&& old(self).cursor() <= k
                        &&& matches_at(old(self).stream(), old(self).pat(), k as int)
                        &&& forall|j: int|
                            old(self).cursor() <= j < k ==> !matches_at(
                                old(self).stream(),
                                old(self).pat(),
                                j,
                            )
                        &&& final(self).cursor() == k + 1
                    },
                    Err(e) => {
                        &&& !old(self).is_concluded()
                        &&& final(self).is_concluded()
                        &&& old(self).source_may_fail()
                        &&& e.kind == ErrorKind::SourceReadFailure
                    },
                },
            },
    {
        if self.concluded {
            return None;
        }
        let ghost stream = self.full@;
        let ghost pat = self.pattern@;
        let ghost c0: int = self.abs + self.rel;
        loop
            invariant
                !self.concluded,
                self.wf(),
                self.full@ == stream,
                self.pattern@ == pat,
                stream == old(self).stream(),
                pat == old(self).pat(),
                c0 == old(self).cursor(),
                !old(self).is_concluded(),
                self.reader.may_fail() == old(self).source_may_fail(),
                c0 <= self.abs + self.rel,
                forall|j: int| c0 <= j < self.abs + self.rel ==> !matches_at(stream, pat, j),
            decreases
                    stream.len() - (self.abs + self.rel),
                    stream.len() - (self.abs + self.filled),
                    (if self.finished {
                        0int
                    } else {
                        1int
                    }),
        {
            let l = self.pattern.len();
            if self.rel + l <= self.filled {
                let i = self.rel;
                self.rel = i + 1;
                let hit = matches_from(self.buf.as_slice(), i, &self.pattern);
                proof {
                    lemma_window_match(
                        self.buf@,
                        stream,
                        pat,
                        self.abs as int,
                        self.filled as int,
                        i as int,
                    );
                }
                if hit {
                    return Some(Ok(self.abs + i));
                }
                proof {
                    assert(!matches_at(stream, pat, self.abs + i));
                }
            } else if self.finished {
                proof {
                    assert forall|j: int| self.abs + self.rel <= j implies !matches_at(
                        stream,
                        pat,
                        j,
                    ) by {
                        assert(stream.len() == self.abs + self.filled);
                    }
                }
                return None;
            } else {
                // Carry the unscanned tail of the window over to its front,
                // then read the next chunk in behind it.
                let tail = self.filled - self.rel;
                let ghost pre = *self;
                let mut j: usize = 0;
                while j < tail
                    invariant
                        j <= tail,
                        pre.rel <= pre.filled <= CHUNK_SIZE,
                        tail == pre.filled - pre.rel,
                        self.rel == pre.rel,
                        self.filled == pre.filled,
                        self.abs == pre.abs,
                        self.finished == pre.finished,
                        self.concluded == pre.concluded,
                        self.full == pre.full,
                        self.pattern == pre.pattern,
                        self.reader == pre.reader,
                        self.buf@.len() == CHUNK_SIZE,
                        forall|k: int| 0 <= k < j ==> self.buf@[k] == pre.buf@[pre.rel + k],
                        forall|k: int| j <= k < CHUNK_SIZE ==> self.buf@[k] == pre.buf@[k],
                    decreases tail - j,
                {
                    let b = self.buf[self.rel + j];
                    self.buf.set(j, b);
                    j = j + 1;
                }
                self.abs = self.abs + self.rel;
                self.rel = 0;
                self.filled = tail;
                proof {
                    assert forall|k: int| 0 <= k < tail implies self.buf@[k] == stream[self.abs
                        + k] by {
                        assert(self.buf@[k] == pre.buf@[pre.rel + k]);
                        assert(pre.buf@.subrange(0, pre.filled as int)[pre.rel + k]
                            == stream.subrange(pre.abs as int, pre.abs + pre.filled)[pre.rel + k]);
                    }
                    assert(self.buf@.subrange(0, tail as int) =~= stream.subrange(
                        self.abs as int,
                        self.abs + tail,
                    ));
                    assert(self.reader.bytes() == stream.skip(self.abs + tail));
                }
                let ghost before_read = *self;
                let r = self.reader.read_into(&mut self.buf, tail);
                match r {
                    Ok(n) => {
                        self.filled = tail + n;
                        if n == 0 {
                            self.finished = true;
                        }
                        proof {
                            let bytes0 = before_read.reader.bytes();
                            assert(bytes0 == stream.skip(self.abs + tail));
                            assert forall|k: int| 0 <= k < self.filled implies self.buf@[k]
                                == stream[self.abs + k] by {
                                if k < tail {
                                    assert(self.buf@.subrange(0, tail as int)[k]
                                        == before_read.buf@.subrange(0, tail as int)[k]);
                                    assert(before_read.buf@[k] == stream[self.abs + k]);
                                } else {
                                    assert(self.buf@.subrange(tail as int, tail + n)[k - tail]
                                        == bytes0.take(n as int)[k - tail]);
                                    assert(bytes0[k - tail] == stream[self.abs + k]);
                                }
                            }
                            assert(self.buf@.subrange(0, self.filled as int) =~= stream.subrange(
                                self.abs as int,
                                self.abs + self.filled,
                            ));
                            assert(self.reader.bytes() =~= stream.skip(self.abs + self.filled));
                            if n == 0 {
                                assert(bytes0.len() == 0);
                                assert(self.abs + self.filled == stream.len());
                            }
                        }
                    },
                    Err(e) => {
                        self.concluded = true;
                        self.finished = true;
                        return Some(Err(e.into_read_failure()));
                    },
                }
            }
        }
    }
}

/// A window that mirrors a piece of the stream matches the pattern at a
/// window offset exactly when the stream matches at the corresponding
/// absolute offset.
proof fn lemma_window_match(
    buf: Seq<u8>,
    stream: Seq<u8>,
    p: Seq<PatternByte>,
    base: int,
    filled: int,
    i: int,
)
    requires
        0 <= base,
        0 <= i,
        i + p.len() <= filled,
        filled <= buf.len(),
        base + filled <= stream.len(),
        buf.subrange(0, filled) == stream.subrange(base, base + filled),
    ensures
        matches_at(buf, p, i) == matches_at(stream, p, base + i),
{
    assert forall|k: int| 0 <= k < filled implies buf[k] == stream[base + k] by {
        assert(buf.subrange(0, filled)[k] == buf[k]);
        assert(stream.subrange(base, base + filled)[k] == stream[base + k]);
        assert(buf.subrange(0, filled)[k] == stream.subrange(base, base + filled)[k]);
    }
    if matches_at(buf, p, i) {
        assert forall|k: int| 0 <= k < p.len() implies #[trigger] token_matches(
            p[k],
            stream[base + i + k],
        ) by {
            assert(token_matches(p[k], buf[i + k]));
            assert(buf[i + k] == stream[base + (i + k)]);
        }
        assert(matches_at(stream, p, base + i));
    }
    if matches_at(stream, p, base + i) {
        assert forall|k: int| 0 <= k < p.len() implies #[trigger] token_matches(
            p[k],
            buf[i + k],
        ) by {
            assert(token_matches(p[k], stream[(base + i) + k]));
            assert(buf[i + k] == stream[base + (i + k)]);
        }
        assert(matches_at(buf, p, i));
    }
}

} // verus!
