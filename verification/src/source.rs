use crate::error::Error;
use vstd::prelude::*;

verus! {

/// A sequential byte producer: "read into a buffer, report the count, 0 = end
/// of source". The ghost view `bytes()` is the sequence of bytes the source
/// will still produce, in order, if no failure occurs.
pub trait ByteSource {
    /// The bytes this source will still produce, in order. An implementation
    /// whose stream cannot be stated may keep the default, which models an
    /// empty stream: scans over it still run, but their contracts say nothing
    /// about what such a source actually produces.
    open spec fn bytes(&self) -> Seq<u8> {
        Seq::empty()
    }

    /// Whether this source can ever report a read failure. The default says
    /// it can; a source that never fails may override this to `false`, and
    /// scans over it are then guaranteed to succeed once the pattern is
    /// accepted.
    open spec fn may_fail(&self) -> bool {
        true
    }

    /// Read up to `buf.len() - start` bytes into `buf[start..]` and report
    /// how many were read. The bytes before `start` and past the read region
    /// are left untouched; a count of 0 with room to read means the source is
    /// exhausted. A failure can only be reported by a source that
    /// [`may_fail`](ByteSource::may_fail).
    fn read_into(&mut self, buf: &mut Vec<u8>, start: usize) -> (r: Result<usize, Error>)
        requires
            start <= old(buf).len(),
        ensures
            final(buf)@.len() == old(buf)@.len(),
            final(self).may_fail() == old(self).may_fail(),
            match r {
                Ok(n) => {
                    &&& start + n <= final(buf)@.len()
                    &&& n <= old(self).bytes().len()
                    &&& final(buf)@.subrange(0, start as int) == old(buf)@.subrange(
                        0,
                        start as int,
                    )
                    &&& final(buf)@.subrange(start as int, start + n) == old(self).bytes().take(
                        n as int,
                    )
                    &&& final(buf)@.subrange(start + n, final(buf)@.len() as int) == old(
                        buf,
                    )@.subrange(start + n, final(buf)@.len() as int)
                    &&& final(self).bytes() == old(self).bytes().skip(n as int)
                    &&& (n == 0 && start < final(buf)@.len() ==> old(self).bytes().len() == 0)
                },
                Err(_) => old(self).may_fail() && final(self).bytes() == old(self).bytes(),
            },
    ;
}

/// An in-memory byte source: produces the bytes of a vector from front to
/// back, never failing. It plays the role of a cursor over resident bytes.
pub struct SliceSource {
    data: Vec<u8>,
    pos: usize,
}

impl SliceSource {
    /// A source that produces exactly the bytes of `data`.
    pub fn new(data: Vec<u8>) -> (s: Self)
        ensures
            s.bytes() == data@,
            s.bytes().len() <= usize::MAX,
    {
        let n = data.len();
        let s = SliceSource { data, pos: 0 };
        proof {
            assert(s.bytes() =~= s.data@);
            assert(n == s.data@.len());
        }
        s
    }
}

impl ByteSource for SliceSource {
    closed spec fn bytes(&self) -> Seq<u8> {
        if self.pos <= self.data@.len() {
            self.data@.skip(self.pos as int)
        } else {
            Seq::empty()
        }
    }

    /// An in-memory source never fails to read.
    open spec fn may_fail(&self) -> bool {
        false
    }

    fn read_into(&mut self, buf: &mut Vec<u8>, start: usize) -> (r: Result<usize, Error>) {
        let dlen = self.data.len();
        let blen = buf.len();
        let avail = if self.pos >= dlen {
            0
        } else {
            dlen - self.pos
        };
        let space = blen - start;
        let n = if avail < space {
            avail
        } else {
            space
        };
        let mut j: usize = 0;
        while j < n
            invariant
                j <= n,
                n <= avail,
                dlen == self.data@.len(),
                blen == buf@.len(),
                avail == if self.pos >= self.data@.len() {
                    0int
                } else {
                    self.data@.len() - self.pos
                },
                self == old(self),
                start + n <= buf@.len(),
                buf@.len() == old(buf)@.len(),
                forall|k: int| 0 <= k < j ==> #[trigger] buf@[start + k] == self.data@[self.pos
                    + k],
                forall|k: int|
                    0 <= k < buf@.len() && !(start <= k < start + j) ==> buf@[k] == old(buf)@[k],
            decreases n - j,
        {
            let b = self.data[self.pos + j];
            buf.set(start + j, b);
            j = j + 1;
        }
        proof {
            assert(buf@.subrange(0, start as int) =~= old(buf)@.subrange(0, start as int));
            assert forall|k: int| 0 <= k < n implies buf@[start + k] == old(self).bytes()[k] by {
                assert(buf@[start + k] == self.data@[self.pos + k]);
                assert(old(self).bytes()[k] == self.data@[self.pos + k]);
            }
            assert(buf@.subrange(start as int, start + n) =~= old(self).bytes().take(n as int));
            assert(buf@.subrange(start + n, buf@.len() as int) =~= old(buf)@.subrange(
                start + n,
                buf@.len() as int,
            ));
        }
        self.pos = self.pos + n;
        proof {
            assert(self.bytes() =~= old(self).bytes().skip(n as int));
        }
        Ok(n)
    }
}

} // verus!
