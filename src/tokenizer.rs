use vstd::prelude::*;

use crate::ascii::{CR, DOUBLE_QUOTE, LF, SINGLE_QUOTE};
use crate::format::CsvInputFormat;
use crate::state::CsvInputState;
use crate::state::ScanState;

verus! {

pub open spec fn is_quote(b: u8) -> bool {
    b == DOUBLE_QUOTE || b == SINGLE_QUOTE
}

/// A byte that the scan outside quotes stops at: a quote or a row terminator.
pub open spec fn is_event(b: u8, record_delimiter: Option<u8>) -> bool {
    is_quote(b) || match record_delimiter {
        Some(d) => b == d,
        None => b == CR || b == LF,
    }
}

/// The first index at or after `pos` that holds a quote byte, else the length.
pub open spec fn first_quote(buf: Seq<u8>, pos: int) -> int
    decreases buf.len() - pos,
{
    if pos >= buf.len() {
        buf.len() as int
    } else if is_quote(buf[pos]) {
        pos
    } else {
        first_quote(buf, pos + 1)
    }
}

/// The first index at or after `pos` that holds a quote or a row terminator, else the length.
pub open spec fn first_event(buf: Seq<u8>, pos: int, record_delimiter: Option<u8>) -> int
    decreases buf.len() - pos,
{
    if pos >= buf.len() {
        buf.len() as int
    } else if is_event(buf[pos], record_delimiter) {
        pos
    } else {
        first_event(buf, pos + 1, record_delimiter)
    }
}

pub proof fn lemma_first_quote_bounds(buf: Seq<u8>, pos: int)
    requires
        0 <= pos <= buf.len(),
    ensures
        pos <= first_quote(buf, pos) <= buf.len(),
        first_quote(buf, pos) < buf.len() ==> is_quote(buf[first_quote(buf, pos)]),
    decreases buf.len() - pos,
{
    if pos < buf.len() && !is_quote(buf[pos]) {
        lemma_first_quote_bounds(buf, pos + 1);
    }
}

pub proof fn lemma_first_event_bounds(buf: Seq<u8>, pos: int, rd: Option<u8>)
    requires
        0 <= pos <= buf.len(),
    ensures
        pos <= first_event(buf, pos, rd) <= buf.len(),
        first_event(buf, pos, rd) < buf.len() ==> is_event(buf[first_event(buf, pos, rd)], rd),
    decreases buf.len() - pos,
{
    if pos < buf.len() && !is_event(buf[pos], rd) {
        lemma_first_event_bounds(buf, pos + 1, rd);
    }
}

/// Finds the next quote byte at or after `pos`.
fn position_quote(buf: &[u8], pos: usize) -> (r: usize)
    requires
        pos <= buf@.len(),
    ensures
        r == first_quote(buf@, pos as int),
{
    let mut i = pos;
    while i < buf.len()
        invariant
            pos <= i <= buf@.len(),
            first_quote(buf@, pos as int) == first_quote(buf@, i as int),
        decreases buf@.len() - i,
    {
        if buf[i] == DOUBLE_QUOTE || buf[i] == SINGLE_QUOTE {
            return i;
        }
        i = i + 1;
    }
    i
}

/// Finds the next quote byte or row terminator at or after `pos`.
fn position_event(buf: &[u8], pos: usize, record_delimiter: Option<u8>) -> (r: usize)
    requires
        pos <= buf@.len(),
    ensures
        r == first_event(buf@, pos as int, record_delimiter),
{
    let mut i = pos;
    while i < buf.len()
        invariant
            pos <= i <= buf@.len(),
            first_event(buf@, pos as int, record_delimiter) == first_event(
                buf@,
                i as int,
                record_delimiter,
            ),
        decreases buf@.len() - i,
    {
        let b = buf[i];
        let hit = match record_delimiter {
            Some(d) => b == d,
            None => b == CR || b == LF,
        };
        if b == DOUBLE_QUOTE || b == SINGLE_QUOTE || hit {
            return i;
        }
        i = i + 1;
    }
    i
}

/// The counters stay within machine integers while `rest` more bytes are scanned.
pub open spec fn counters_fit(s: ScanState, rest: int) -> bool {
    &&& s.accepted_rows + rest <= usize::MAX
    &&& s.accepted_bytes + rest <= usize::MAX
}

/// Inside quotes: moves past the next quote byte, which closes the field whichever quote
/// byte opened it.
pub open spec fn close_quote_spec(buf: Seq<u8>, pos: int, s: ScanState) -> (int, ScanState) {
    let q = first_quote(buf, pos);
    if q < buf.len() {
        (q + 1, ScanState { quotes: 0, ..s })
    } else {
        (buf.len() as int, s)
    }
}

impl CsvInputFormat {
    /// Closes a row whose terminator is at `index`; `pair` is the byte that may follow
    /// the terminator as the second half of a CR/LF pair (0 for none).
    pub open spec fn accept_spec(
        &self,
        buf: Seq<u8>,
        pos: int,
        s: ScanState,
        index: int,
        pair: u8,
    ) -> (int, ScanState) {
        let rows = s.accepted_rows + 1;
        let bytes = s.accepted_bytes + (index - pos);
        let need = if rows >= self.min_accepted_rows || bytes + index >= self.min_accepted_bytes {
            false
        } else {
            s.need_more_data
        };
        let pending = if pair != 0 && buf.len() <= index + 1 {
            Some(pair)
        } else {
            s.ignore_if_first
        };
        let next = if pair != 0 && index + 1 < buf.len() && buf[index + 1] == pair {
            index + 2
        } else {
            index + 1
        };
        (
            next,
            ScanState {
                quotes: s.quotes,
                accepted_rows: rows,
                accepted_bytes: bytes,
                need_more_data: need,
                ignore_if_first: pending,
            },
        )
    }

    /// One move of the tokenizer from `pos`: inside quotes it looks for the closing quote;
    /// outside it looks for an opening quote or a row terminator.
    pub open spec fn step_spec(&self, buf: Seq<u8>, pos: int, s: ScanState) -> (int, ScanState) {
        if s.quotes != 0 {
            close_quote_spec(buf, pos, s)
        } else {
            let e = first_event(buf, pos, self.record_delimiter);
            if e >= buf.len() {
                (buf.len() as int, s)
            } else if is_quote(buf[e]) {
                (e + 1, ScanState { quotes: buf[e], ..s })
            } else if self.record_delimiter is Some {
                self.accept_spec(buf, pos, s, e, 0)
            } else if buf[e] == CR {
                self.accept_spec(buf, pos, s, e, LF)
            } else {
                self.accept_spec(buf, pos, s, e, CR)
            }
        }
    }

    /// Moves from `pos` until the buffer ends or a batching threshold is met.
    pub open spec fn scan_spec(&self, buf: Seq<u8>, pos: int, s: ScanState) -> (int, ScanState)
        decreases buf.len() - pos,
    {
        if pos >= buf.len() || !s.need_more_data {
            (pos, s)
        } else {
            let (p, t) = self.step_spec(buf, pos, s);
            if p <= pos {
                (pos, s)
            } else {
                self.scan_spec(buf, p, t)
            }
        }
    }

    /// Moves from `pos` until the header rows are all accepted (`Some` of the offset after
    /// them) or the buffer ends (`None`).
    pub open spec fn skip_spec(&self, buf: Seq<u8>, pos: int, s: ScanState) -> (Option<int>, ScanState)
        decreases buf.len() - pos,
    {
        if pos >= buf.len() {
            (None, s)
        } else {
            let (p, t) = self.step_spec(buf, pos, s);
            if p <= pos {
                (None, s)
            } else if t.accepted_rows == self.skip_rows {
                (Some(p), t)
            } else {
                self.skip_spec(buf, p, t)
            }
        }
    }

    /// Where `read_buf` starts scanning: past a pending byte that the buffer starts with.
    pub open spec fn read_start(buf: Seq<u8>, s: ScanState) -> int {
        if buf.len() > 0 && s.ignore_if_first == Some(buf[0]) {
            1
        } else {
            0
        }
    }

    /// The state that `read_buf` starts scanning with.
    pub open spec fn read_entry(buf: Seq<u8>, s: ScanState) -> ScanState {
        ScanState {
            need_more_data: true,
            ignore_if_first: if buf.len() > 0 {
                None
            } else {
                s.ignore_if_first
            },
            ..s
        }
    }

    fn accept_row(
        &self,
        buf: &[u8],
        pos: usize,
        state: &mut CsvInputState,
        index: usize,
        pair: u8,
    ) -> (r: usize)
        requires
            pos <= index < buf@.len(),
            counters_fit(old(state).scan_view(), buf@.len() - pos),
        ensures
            (r as int, final(state).scan_view()) == self.accept_spec(
                buf@,
                pos as int,
                old(state).scan_view(),
                index as int,
                pair,
            ),
            final(state).memory == old(state).memory,
            index < r <= buf@.len(),
            counters_fit(final(state).scan_view(), buf@.len() - r),
    {
        let len = buf.len();
        state.accepted_rows = state.accepted_rows + 1;
        state.accepted_bytes = state.accepted_bytes + (index - pos);
        if state.accepted_rows >= self.min_accepted_rows
            || state.accepted_bytes >= self.min_accepted_bytes
            || index >= self.min_accepted_bytes - state.accepted_bytes {
            state.need_more_data = false;
        }
        if pair != 0 {
            if len <= index + 1 {
                state.ignore_if_first = Some(pair);
            } else if buf[index + 1] == pair {
                return index + 2;
            }
        }
        index + 1
    }

    fn find_quotes(buf: &[u8], pos: usize, state: &mut CsvInputState) -> (r: usize)
        requires
            pos <= buf@.len(),
            old(state).quotes != 0,
        ensures
            final(state).memory == old(state).memory,
            pos <= r <= buf@.len(),
            (r as int, final(state).scan_view()) == close_quote_spec(
                buf@,
                pos as int,
                old(state).scan_view(),
            ),
    {
        proof {
            lemma_first_quote_bounds(buf@, pos as int);
        }
        let index = position_quote(buf, pos);
        if index != buf.len() {
            state.quotes = 0;
            return index + 1;
        }
        buf.len()
    }

    fn find_delimiter(&self, buf: &[u8], pos: usize, state: &mut CsvInputState) -> (r: usize)
        requires
            pos < buf@.len(),
            old(state).quotes == 0,
            counters_fit(old(state).scan_view(), buf@.len() - pos),
        ensures
            (r as int, final(state).scan_view()) == self.step_spec(
                buf@,
                pos as int,
                old(state).scan_view(),
            ),
            final(state).memory == old(state).memory,
            pos < r <= buf@.len(),
            counters_fit(final(state).scan_view(), buf@.len() - r),
    {
        proof {
            lemma_first_event_bounds(buf@, pos as int, self.record_delimiter);
        }
        let e = position_event(buf, pos, self.record_delimiter);
        if e == buf.len() {
            return buf.len();
        }
        let b = buf[e];
        if b == DOUBLE_QUOTE || b == SINGLE_QUOTE {
            state.quotes = b;
            return e + 1;
        }
        match self.record_delimiter {
            Some(_) => self.accept_row(buf, pos, state, e, 0),
            None => {
                if b == CR {
                    self.accept_row(buf, pos, state, e, LF)
                } else {
                    self.accept_row(buf, pos, state, e, CR)
                }
            },
        }
    }

    /// One move of the tokenizer.
    fn step(&self, buf: &[u8], pos: usize, state: &mut CsvInputState) -> (r: usize)
        requires
            pos < buf@.len(),
            counters_fit(old(state).scan_view(), buf@.len() - pos),
        ensures
            (r as int, final(state).scan_view()) == self.step_spec(
                buf@,
                pos as int,
                old(state).scan_view(),
            ),
            final(state).memory == old(state).memory,
            pos < r <= buf@.len(),
            counters_fit(final(state).scan_view(), buf@.len() - r),
    {
        if state.quotes != 0 {
            let r = Self::find_quotes(buf, pos, state);
            proof {
                lemma_first_quote_bounds(buf@, pos as int);
            }
            r
        } else {
            self.find_delimiter(buf, pos, state)
        }
    }

    /// Feeds one buffer: scans it until it ends or a batching threshold is met, appends the
    /// scanned prefix to the accumulated bytes and returns its length.
    pub fn read_buf(&self, buf: &[u8], state: &mut CsvInputState) -> (r: usize)
        requires
            counters_fit(old(state).scan_view(), buf@.len() as int),
        ensures
            ({
                let (end, s) = self.scan_spec(
                    buf@,
                    Self::read_start(buf@, old(state).scan_view()),
                    Self::read_entry(buf@, old(state).scan_view()),
                );
                &&& r as int == end
                &&& final(state).scan_view() == s
            }),
            final(state).memory@ == old(state).memory@ + buf@.subrange(0, r as int),
            r <= buf@.len(),
    {
        let mut index: usize = 0;
        if buf.len() > 0 {
            let pending = state.ignore_if_first;
            state.ignore_if_first = None;
            if let Some(first) = pending {
                if buf[0] == first {
                    index = 1;
                }
            }
        }
        state.need_more_data = true;
        let ghost start = index as int;
        let ghost entry = state.scan_view();
        assert(start == Self::read_start(buf@, old(state).scan_view()));
        assert(entry == Self::read_entry(buf@, old(state).scan_view()));
        while index < buf.len() && state.need_more_data
            invariant
                index <= buf@.len(),
                state.memory == old(state).memory,
                counters_fit(state.scan_view(), buf@.len() - index),
                self.scan_spec(buf@, start, entry) == self.scan_spec(
                    buf@,
                    index as int,
                    state.scan_view(),
                ),
            decreases buf@.len() - index,
        {
            index = self.step(buf, index, state);
        }
        state.memory.extend_from_slice(&buf[0..index]);
        index
    }

    /// Scans past the configured number of header rows and returns where the data starts;
    /// 0 when there are no header rows or the buffer holds fewer than them.
    pub fn skip_header(&self, buf: &[u8], state: &mut CsvInputState) -> (r: usize)
        requires
            counters_fit(old(state).scan_view(), buf@.len() as int),
        ensures
            final(state).memory == old(state).memory,
            self.skip_rows == 0 ==> r == 0 && final(state).scan_view() == old(state).scan_view(),
            self.skip_rows > 0 ==> ({
                let (found, s) = self.skip_spec(buf@, 0, old(state).scan_view());
                &&& final(state).scan_view() == s
                &&& r as int == match found {
                    Some(p) => p,
                    None => 0,
                }
            }),
    {
        if self.skip_rows > 0 {
            let mut index: usize = 0;
            while index < buf.len()
                invariant
                    self.skip_rows > 0,
                    index <= buf@.len(),
                    state.memory == old(state).memory,
                    counters_fit(state.scan_view(), buf@.len() - index),
                    self.skip_spec(buf@, 0, old(state).scan_view()) == self.skip_spec(
                        buf@,
                        index as int,
                        state.scan_view(),
                    ),
                decreases buf@.len() - index,
            {
                index = self.step(buf, index, state);
                if state.accepted_rows == self.skip_rows {
                    return index;
                }
            }
        }
        0
    }
}

impl CsvInputFormat {
    /// Every move of the tokenizer consumes at least one byte and accepts at most one row.
    pub proof fn lemma_step_progress(&self, buf: Seq<u8>, pos: int, s: ScanState)
        requires
            0 <= pos < buf.len(),
        ensures
            ({
                let (p, t) = self.step_spec(buf, pos, s);
                &&& pos < p <= buf.len()
                &&& s.accepted_rows <= t.accepted_rows <= s.accepted_rows + 1
                &&& t.accepted_rows == s.accepted_rows ==> t.need_more_data == s.need_more_data
                &&& t.accepted_rows != s.accepted_rows && t.accepted_rows >= self.min_accepted_rows
                    ==> !t.need_more_data
            }),
    {
        lemma_first_quote_bounds(buf, pos);
        lemma_first_event_bounds(buf, pos, self.record_delimiter);
    }

    /// Batching: scanning from a state below the row threshold never accepts more rows than
    /// the threshold; once it is reached the state asks for no more data; and a scan stops
    /// early only when it asks for no more data.
    pub proof fn lemma_scan_row_threshold(&self, buf: Seq<u8>, pos: int, s: ScanState)
        requires
            0 <= pos <= buf.len(),
            s.accepted_rows < self.min_accepted_rows,
        ensures
            ({
                let (end, t) = self.scan_spec(buf, pos, s);
                &&& pos <= end <= buf.len()
                &&& t.accepted_rows <= self.min_accepted_rows
                &&& t.accepted_rows == self.min_accepted_rows ==> !t.need_more_data
                &&& end == buf.len() || !t.need_more_data
            }),
        decreases buf.len() - pos,
    {
        if pos < buf.len() && s.need_more_data {
            self.lemma_step_progress(buf, pos, s);
            let (p, t) = self.step_spec(buf, pos, s);
            if t.accepted_rows < self.min_accepted_rows {
                self.lemma_scan_row_threshold(buf, p, t);
            }
        }
    }
}

impl CsvInputFormat {
    /// A scan that still asks for data has consumed its whole buffer. With `read_buf`
    /// appending exactly what it consumed, the bytes accumulated from chunks that trigger no
    /// flush are their concatenation, whatever the chunk boundaries.
    pub proof fn lemma_scan_consumes_buffer(&self, buf: Seq<u8>, pos: int, s: ScanState)
        requires
            0 <= pos <= buf.len(),
        ensures
            ({
                let (end, t) = self.scan_spec(buf, pos, s);
                &&& pos <= end <= buf.len()
                &&& t.need_more_data ==> end == buf.len()
            }),
        decreases buf.len() - pos,
    {
        if pos < buf.len() && s.need_more_data {
            self.lemma_step_progress(buf, pos, s);
            let (p, t) = self.step_spec(buf, pos, s);
            self.lemma_scan_consumes_buffer(buf, p, t);
        }
    }
}

impl CsvInputFormat {
    /// A CR/LF pair split between two buffers is one row terminator, as it is within one
    /// buffer: the CR that ends `buf` accepts one row and leaves the LF pending, and the next
    /// buffer starts past that LF; scanning `buf` and `next` as one buffer accepts the same
    /// single row and resumes after the LF.
    pub proof fn lemma_split_crlf(&self, buf: Seq<u8>, pos: int, s: ScanState, next: Seq<u8>)
        requires
            self.record_delimiter is None,
            s.quotes == 0,
            0 <= pos < buf.len(),
            buf.last() == CR,
            first_event(buf, pos, None) == buf.len() - 1,
            next.len() > 0,
            next[0] == LF,
        ensures
            ({
                let (p, t) = self.step_spec(buf, pos, s);
                let (pw, tw) = self.step_spec(buf + next, pos, s);
                &&& p == buf.len()
                &&& t.accepted_rows == s.accepted_rows + 1
                &&& t.ignore_if_first == Some(LF)
                &&& Self::read_start(next, t) == 1
                &&& Self::read_entry(next, t).ignore_if_first is None
                &&& pw == buf.len() + 1
                &&& tw.accepted_rows == s.accepted_rows + 1
                &&& tw.quotes == 0 && t.quotes == 0
            }),
    {
        let whole = buf + next;
        lemma_first_event_prefix(buf, next, pos, None);
        assert(whole[buf.len() - 1] == CR);
        assert(whole[buf.len() as int] == LF);
    }
}

/// Searching a longer buffer finds the same event when the shorter one holds it.
proof fn lemma_first_event_prefix(buf: Seq<u8>, next: Seq<u8>, pos: int, rd: Option<u8>)
    requires
        0 <= pos <= buf.len(),
        first_event(buf, pos, rd) < buf.len(),
    ensures
        first_event(buf + next, pos, rd) == first_event(buf, pos, rd),
    decreases buf.len() - pos,
{
    let whole = buf + next;
    assert(whole[pos] == buf[pos]);
    if !is_event(buf[pos], rd) {
        lemma_first_event_prefix(buf, next, pos + 1, rd);
    }
}

} // verus!
