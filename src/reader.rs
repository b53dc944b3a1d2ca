use vstd::prelude::*;

use crate::ascii::{SPACE, TAB};

verus! {

/// Bytes that separate tokens without meaning anything.
pub open spec fn is_white_space(b: u8) -> bool {
    b == SPACE || b == TAB
}

/// The first index at or after `pos` that does not hold white space, else the length.
pub open spec fn skip_ws(buf: Seq<u8>, pos: int) -> int
    decreases buf.len() - pos,
{
    if pos >= buf.len() {
        buf.len() as int
    } else if is_white_space(buf[pos]) {
        skip_ws(buf, pos + 1)
    } else {
        pos
    }
}

pub proof fn lemma_skip_ws_bounds(buf: Seq<u8>, pos: int)
    requires
        0 <= pos <= buf.len(),
    ensures
        pos <= skip_ws(buf, pos) <= buf.len(),
        skip_ws(buf, skip_ws(buf, pos)) == skip_ws(buf, pos),
    decreases buf.len() - pos,
{
    if pos < buf.len() && is_white_space(buf[pos]) {
        lemma_skip_ws_bounds(buf, pos + 1);
    }
}

/// Where the cursor stands after skipping white space and then one `b` if it comes next.
pub open spec fn skip_ws_and_byte(buf: Seq<u8>, pos: int, b: u8) -> int {
    let p = skip_ws(buf, pos);
    if p < buf.len() && buf[p] == b {
        p + 1
    } else {
        p
    }
}

/// Whether a `b` comes next after white space.
pub open spec fn has_ws_and_byte(buf: Seq<u8>, pos: int, b: u8) -> bool {
    let p = skip_ws(buf, pos);
    p < buf.len() && buf[p] == b
}

/// A cursor over bytes in memory, with a stack of saved positions to come back to.
pub struct CheckpointReader {
    pub buf: Vec<u8>,
    pub pos: usize,
    pub checkpoints: Vec<usize>,
}

impl CheckpointReader {
    pub open spec fn wf(&self) -> bool {
        &&& self.pos <= self.buf@.len()
        &&& forall|i: int| 0 <= i < self.checkpoints@.len() ==> self.checkpoints@[i] <= self.buf@.len()
    }

    pub fn new(buf: Vec<u8>) -> (r: CheckpointReader)
        ensures
            r.wf(),
            r.buf@ == buf@,
            r.pos == 0,
            r.checkpoints@.len() == 0,
    {
        CheckpointReader { buf, pos: 0, checkpoints: Vec::new() }
    }

    pub fn eof(&self) -> (r: bool)
        requires
            self.wf(),
        ensures
            r == (self.pos >= self.buf@.len()),
    {
        self.pos >= self.buf.len()
    }

    /// The byte under the cursor, if any.
    pub fn position(&self) -> (r: Option<u8>)
        requires
            self.wf(),
        ensures
            self.pos < self.buf@.len() ==> r == Some(self.buf@[self.pos as int]),
            self.pos >= self.buf@.len() ==> r is None,
    {
        if self.pos < self.buf.len() {
            Some(self.buf[self.pos])
        } else {
            None
        }
    }

    /// Saves the cursor.
    pub fn push_checkpoint(&mut self)
        requires
            old(self).wf(),
        ensures
            final(self).wf(),
            final(self).buf == old(self).buf,
            final(self).pos == old(self).pos,
            final(self).checkpoints@ == old(self).checkpoints@.push(old(self).pos),
    {
        self.checkpoints.push(self.pos);
    }

    /// Moves the cursor back to the last saved position and forgets that position.
    pub fn pop_checkpoint(&mut self)
        requires
            old(self).wf(),
            old(self).checkpoints@.len() > 0,
        ensures
            final(self).wf(),
            final(self).buf == old(self).buf,
            final(self).pos == old(self).checkpoints@.last(),
            final(self).checkpoints@ == old(self).checkpoints@.drop_last(),
    {
        let p = self.checkpoints.pop().unwrap();
        self.pos = p;
    }

    /// Forgets the last saved position and keeps the cursor where it is.
    pub fn commit_checkpoint(&mut self)
        requires
            old(self).wf(),
            old(self).checkpoints@.len() > 0,
        ensures
            final(self).wf(),
            final(self).buf == old(self).buf,
            final(self).pos == old(self).pos,
            final(self).checkpoints@ == old(self).checkpoints@.drop_last(),
    {
        self.checkpoints.pop();
    }

    /// The bytes from the last saved position up to the cursor.
    pub fn checkpoint_buffer(&self) -> (r: Vec<u8>)
        requires
            self.wf(),
            self.checkpoints@.len() > 0,
            self.checkpoints@.last() <= self.pos,
        ensures
            r@ == self.buf@.subrange(self.checkpoints@.last() as int, self.pos as int),
    {
        let start = self.checkpoints[self.checkpoints.len() - 1];
        let mut out: Vec<u8> = Vec::new();
        let mut i = start;
        while i < self.pos
            invariant
                self.wf(),
                start <= i <= self.pos,
                start == self.checkpoints@.last(),
                out@ == self.buf@.subrange(start as int, i as int),
            decreases self.pos - i,
        {
            out.push(self.buf[i]);
            i = i + 1;
            assert(out@ == self.buf@.subrange(start as int, i as int));
        }
        out
    }

    /// Up to `n` bytes from the cursor on, without moving it.
    pub fn peek_n(&self, n: usize) -> (r: Vec<u8>)
        requires
            self.wf(),
        ensures
            r@ == self.buf@.subrange(
                self.pos as int,
                if self.pos + n <= self.buf@.len() {
                    self.pos + n
                } else {
                    self.buf@.len() as int
                },
            ),
    {
        let end = if n <= self.buf.len() - self.pos {
            self.pos + n
        } else {
            self.buf.len()
        };
        let mut out: Vec<u8> = Vec::new();
        let mut i = self.pos;
        while i < end
            invariant
                self.wf(),
                self.pos <= i <= end <= self.buf@.len(),
                out@ == self.buf@.subrange(self.pos as int, i as int),
            decreases end - i,
        {
            out.push(self.buf[i]);
            i = i + 1;
            assert(out@ == self.buf@.subrange(self.pos as int, i as int));
        }
        out
    }

    /// Skips white space; tells whether there was any.
    pub fn ignore_white_spaces(&mut self) -> (r: bool)
        requires
            old(self).wf(),
        ensures
            final(self).wf(),
            final(self).buf == old(self).buf,
            final(self).checkpoints == old(self).checkpoints,
            final(self).pos == skip_ws(old(self).buf@, old(self).pos as int),
            final(self).pos >= old(self).pos,
            r == (final(self).pos != old(self).pos),
    {
        proof {
            lemma_skip_ws_bounds(self.buf@, self.pos as int);
        }
        let start = self.pos;
        while self.pos < self.buf.len() && (self.buf[self.pos] == SPACE || self.buf[self.pos] == TAB)
            invariant
                self.wf(),
                self.buf == old(self).buf,
                self.checkpoints == old(self).checkpoints,
                start <= self.pos,
                skip_ws(self.buf@, start as int) == skip_ws(self.buf@, self.pos as int),
            decreases self.buf@.len() - self.pos,
        {
            self.pos = self.pos + 1;
        }
        self.pos != start
    }

    /// Skips white space, then one `b` if it comes next; tells whether it did.
    pub fn ignore_white_spaces_and_byte(&mut self, b: u8) -> (r: bool)
        requires
            old(self).wf(),
        ensures
            final(self).wf(),
            final(self).buf == old(self).buf,
            final(self).checkpoints == old(self).checkpoints,
            final(self).pos == skip_ws_and_byte(old(self).buf@, old(self).pos as int, b),
            final(self).pos >= skip_ws(old(self).buf@, old(self).pos as int) >= old(self).pos,
            r == has_ws_and_byte(old(self).buf@, old(self).pos as int, b),
    {
        self.ignore_white_spaces();
        if self.pos < self.buf.len() && self.buf[self.pos] == b {
            self.pos = self.pos + 1;
            true
        } else {
            false
        }
    }
}

} // verus!
