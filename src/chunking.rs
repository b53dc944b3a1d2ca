use vstd::prelude::*;

use crate::format::CsvInputFormat;
use crate::state::ScanState;
use crate::tokenizer::{
    first_event, first_quote, is_event, is_quote, lemma_first_event_bounds, lemma_first_quote_bounds,
};

verus! {

/// Two tokenizer states that agree on everything but the byte counter.
pub open spec fn same_progress(a: ScanState, b: ScanState) -> bool {
    &&& a.quotes == b.quotes
    &&& a.accepted_rows == b.accepted_rows
    &&& a.ignore_if_first == b.ignore_if_first
    &&& a.need_more_data == b.need_more_data
}

/// No quote and no row terminator in `w[a..b]`.
pub open spec fn quiet(w: Seq<u8>, a: int, b: int, rd: Option<u8>) -> bool {
    forall|i: int| a <= i < b ==> !is_event(#[trigger] w[i], rd)
}

proof fn lemma_skip_quiet(w: Seq<u8>, a: int, b: int, rd: Option<u8>)
    requires
        0 <= a <= b <= w.len(),
        quiet(w, a, b, rd),
    ensures
        first_event(w, a, rd) == first_event(w, b, rd),
        first_quote(w, a) == first_quote(w, b),
    decreases b - a,
{
    if a < b {
        assert(!is_event(w[a], rd));
        lemma_skip_quiet(w, a + 1, b, rd);
    }
}

proof fn lemma_not_found_quiet(w: Seq<u8>, a: int, rd: Option<u8>)
    requires
        0 <= a <= w.len(),
        first_event(w, a, rd) == w.len(),
    ensures
        quiet(w, a, w.len() as int, rd),
    decreases w.len() - a,
{
    if a < w.len() {
        lemma_not_found_quiet(w, a + 1, rd);
    }
}

proof fn lemma_quote_not_found(w: Seq<u8>, a: int)
    requires
        0 <= a <= w.len(),
        first_quote(w, a) == w.len(),
    ensures
        forall|i: int| a <= i < w.len() ==> !is_quote(#[trigger] w[i]),
    decreases w.len() - a,
{
    if a < w.len() {
        lemma_quote_not_found(w, a + 1);
    }
}

proof fn lemma_search_suffix(b1: Seq<u8>, b2: Seq<u8>, k: int, rd: Option<u8>)
    requires
        0 <= k <= b2.len(),
    ensures
        first_event(b1 + b2, b1.len() + k, rd) == b1.len() + first_event(b2, k, rd),
        first_quote(b1 + b2, b1.len() + k) == b1.len() + first_quote(b2, k),
    decreases b2.len() - k,
{
    if k < b2.len() {
        assert((b1 + b2)[b1.len() + k] == b2[k]);
        lemma_search_suffix(b1, b2, k + 1, rd);
    }
}

proof fn lemma_search_prefix(b1: Seq<u8>, b2: Seq<u8>, p: int, rd: Option<u8>)
    requires
        0 <= p <= b1.len(),
    ensures
        first_event(b1, p, rd) < b1.len() ==> first_event(b1 + b2, p, rd) == first_event(b1, p, rd),
        first_quote(b1, p) < b1.len() ==> first_quote(b1 + b2, p) == first_quote(b1, p),
    decreases b1.len() - p,
{
    if p < b1.len() {
        assert((b1 + b2)[p] == b1[p]);
        lemma_search_prefix(b1, b2, p + 1, rd);
    }
}

impl CsvInputFormat {
    /// The counters cannot reach a batching threshold before position `total`.
    pub open spec fn out_of_reach(&self, u: ScanState, pos: int, total: int) -> bool {
        &&& u.accepted_rows + (total - pos) < self.min_accepted_rows
        &&& u.accepted_bytes + (total - pos) + total < self.min_accepted_bytes
    }

    /// Scanning `b1 + b2` from `a` runs like scanning `b2` from `k`, when the search from `a`
    /// finds what the search from `b1.len() + k` finds.
    proof fn lemma_shifted_scan(
        &self,
        b1: Seq<u8>,
        b2: Seq<u8>,
        a: int,
        k: int,
        u: ScanState,
        v: ScanState,
    )
        requires
            0 <= k <= b2.len(),
            0 <= a <= b1.len() + k,
            u.quotes != 0 ==> first_quote(b1 + b2, a) == first_quote(b1 + b2, b1.len() + k),
            u.quotes == 0 ==> first_event(b1 + b2, a, self.record_delimiter) == first_event(
                b1 + b2,
                b1.len() + k,
                self.record_delimiter,
            ),
            same_progress(u, v),
            u.need_more_data,
            u.ignore_if_first is None,
            self.out_of_reach(u, a, (b1 + b2).len() as int),
            self.out_of_reach(v, b1.len() + k, (b1 + b2).len() as int),
        ensures
            same_progress(self.scan_spec(b1 + b2, a, u).1, self.scan_spec(b2, k, v).1),
            self.scan_spec(b2, k, v).0 == b2.len(),
            self.scan_spec(b2, k, v).1.need_more_data,
        decreases b2.len() - k,
    {
        let w = b1 + b2;
        let n1 = b1.len() as int;
        let rd = self.record_delimiter;
        lemma_search_suffix(b1, b2, k, rd);
        lemma_first_event_bounds(b2, k, rd);
        lemma_first_quote_bounds(b2, k);
        if k == b2.len() {
            if a < w.len() {
                assert(first_event(w, w.len() as int, rd) == w.len());
                assert(first_quote(w, w.len() as int) == w.len());
                assert(self.step_spec(w, a, u) == (w.len() as int, u));
                assert(self.scan_spec(w, w.len() as int, u) == (w.len() as int, u));
                assert(self.scan_spec(w, a, u) == self.scan_spec(w, w.len() as int, u));
            }
        } else {
            let (pk, vk) = self.step_spec(b2, k, v);
            let (pa, ua) = self.step_spec(w, a, u);
            self.lemma_step_progress(b2, k, v);
            if a < w.len() {
                self.lemma_step_progress(w, a, u);
            }
            assert(pa == n1 + pk);
            assert(same_progress(ua, vk));
            assert(self.scan_spec(b2, k, v) == self.scan_spec(b2, pk, vk));
            assert(self.scan_spec(w, a, u) == self.scan_spec(w, pa, ua));
            if pk < b2.len() {
                assert(ua.need_more_data);
                assert(ua.ignore_if_first is None);
                self.lemma_shifted_scan(b1, b2, pa, pk, ua, vk);
            }
        }
    }
}

proof fn lemma_skip_no_quote(w: Seq<u8>, a: int, b: int)
    requires
        0 <= a <= b <= w.len(),
        forall|i: int| a <= i < b ==> !is_quote(#[trigger] w[i]),
    ensures
        first_quote(w, a) == first_quote(w, b),
    decreases b - a,
{
    if a < b {
        lemma_skip_no_quote(w, a + 1, b);
    }
}

impl CsvInputFormat {
    /// Scanning `b1` from `p` and then `b2` as the next buffer makes the progress that
    /// scanning `b1 + b2` from `p` makes.
    #[verifier::rlimit(60)]
    proof fn lemma_split_scan(&self, b1: Seq<u8>, b2: Seq<u8>, p: int, s: ScanState)
        requires
            0 <= p <= b1.len(),
            s.need_more_data,
            s.ignore_if_first is None,
            self.out_of_reach(s, p, (b1 + b2).len() as int),
        ensures
            ({
                let (e1, t1) = self.scan_spec(b1, p, s);
                let (e2, t2) = self.scan_spec(
                    b2,
                    Self::read_start(b2, t1),
                    Self::read_entry(b2, t1),
                );
                &&& e1 == b1.len()
                &&& e2 == b2.len()
                &&& t2.need_more_data
                &&& same_progress(t2, self.scan_spec(b1 + b2, p, s).1)
            }),
        decreases b1.len() - p,
    {
        let w = b1 + b2;
        let n1 = b1.len() as int;
        let rd = self.record_delimiter;
        if p == n1 {
            assert(Self::read_entry(b2, s) == s);
            self.lemma_shifted_scan(b1, b2, n1, 0, s, s);
        } else {
            lemma_search_prefix(b1, b2, p, rd);
            lemma_first_event_bounds(b1, p, rd);
            lemma_first_quote_bounds(b1, p);
            self.lemma_step_progress(b1, p, s);
            self.lemma_step_progress(w, p, s);
            let (p1, u1) = self.step_spec(b1, p, s);
            let (pw, uw) = self.step_spec(w, p, s);
            let missed = if s.quotes != 0 {
                first_quote(b1, p) == n1
            } else {
                first_event(b1, p, rd) == n1
            };
            if missed {
                assert(p1 == n1 && u1 == s);
                assert(self.scan_spec(b1, p, s) == self.scan_spec(b1, n1, s));
                assert(Self::read_entry(b2, s) == s);
                if s.quotes != 0 {
                    lemma_quote_not_found(b1, p);
                    assert forall|i: int| p <= i < n1 implies !is_quote(#[trigger] w[i]) by {
                        assert(w[i] == b1[i]);
                    }
                    lemma_skip_no_quote(w, p, n1);
                } else {
                    lemma_not_found_quiet(b1, p, rd);
                    assert forall|i: int| p <= i < n1 implies !is_event(#[trigger] w[i], rd) by {
                        assert(w[i] == b1[i]);
                    }
                    lemma_skip_quiet(w, p, n1, rd);
                }
                self.lemma_shifted_scan(b1, b2, p, 0, s, s);
            } else {
                let e = first_event(b1, p, rd);
                let split_pair = s.quotes == 0 && !is_quote(b1[e]) && rd is None && e + 1 == n1;
                if split_pair {
                    assert(self.scan_spec(b1, p, s) == self.scan_spec(b1, n1, u1));
                    if b2.len() == 0 {
                        assert(w =~= b1);
                        assert(Self::read_entry(b2, u1) == u1);
                    } else {
                        assert(w[n1] == b2[0]);
                        assert(pw == n1 + Self::read_start(b2, u1));
                        assert(same_progress(uw, Self::read_entry(b2, u1)));
                        assert(self.scan_spec(w, p, s) == self.scan_spec(w, pw, uw));
                        self.lemma_shifted_scan(
                            b1,
                            b2,
                            pw,
                            Self::read_start(b2, u1),
                            uw,
                            Self::read_entry(b2, u1),
                        );
                    }
                } else {
                    if s.quotes == 0 && !is_quote(b1[e]) && e + 1 < n1 {
                        assert(w[e + 1] == b1[e + 1]);
                    }
                    assert(p1 == pw && u1 == uw);
                    assert(self.scan_spec(b1, p, s) == self.scan_spec(b1, p1, u1));
                    assert(self.scan_spec(w, p, s) == self.scan_spec(w, p1, u1));
                    self.lemma_split_scan(b1, b2, p1, u1);
                }
            }
        }
    }

    /// Chunk boundaries do not change what the tokenizer finds. While no batching threshold
    /// can be reached, feeding `b1` and then `b2` to `read_buf` consumes each whole and ends
    /// with the quote state, accepted row count and pending byte that feeding `b1 + b2` at
    /// once gives, wherever the cut falls: inside a quoted field or between a CR and its LF.
    /// Each feed appends what it consumed, so the accumulated bytes, and with them what
    /// `deserialize_data` returns, are the same too.
    pub proof fn lemma_chunking(&self, b1: Seq<u8>, b2: Seq<u8>, s0: ScanState)
        requires
            b1.len() > 0,
            s0.accepted_rows + (b1 + b2).len() < self.min_accepted_rows,
            s0.accepted_bytes + 2 * (b1 + b2).len() < self.min_accepted_bytes,
        ensures
            ({
                let w = b1 + b2;
                let (ew, tw) = self.scan_spec(w, Self::read_start(w, s0), Self::read_entry(w, s0));
                let (e1, t1) = self.scan_spec(
                    b1,
                    Self::read_start(b1, s0),
                    Self::read_entry(b1, s0),
                );
                let (e2, t2) = self.scan_spec(
                    b2,
                    Self::read_start(b2, t1),
                    Self::read_entry(b2, t1),
                );
                &&& ew == w.len()
                &&& e1 == b1.len()
                &&& e2 == b2.len()
                &&& same_progress(t2, tw)
            }),
    {
        let w = b1 + b2;
        assert(w[0] == b1[0]);
        assert(Self::read_start(w, s0) == Self::read_start(b1, s0));
        assert(Self::read_entry(w, s0) == Self::read_entry(b1, s0));
        self.lemma_split_scan(b1, b2, Self::read_start(b1, s0), Self::read_entry(b1, s0));
        self.lemma_scan_consumes_buffer(w, Self::read_start(w, s0), Self::read_entry(w, s0));
    }
}

/// The bytes of all chunks, in order.
pub open spec fn concat_all(chunks: Seq<Seq<u8>>) -> Seq<u8>
    decreases chunks.len(),
{
    if chunks.len() == 0 {
        Seq::empty()
    } else {
        concat_all(chunks.drop_last()) + chunks.last()
    }
}

impl CsvInputFormat {
    /// What `read_buf` does with one buffer: where it stops and the state it leaves.
    pub open spec fn feed(&self, buf: Seq<u8>, s: ScanState) -> (int, ScanState) {
        self.scan_spec(buf, Self::read_start(buf, s), Self::read_entry(buf, s))
    }

    /// The state after `read_buf` is fed each chunk in turn.
    pub open spec fn feed_all(&self, chunks: Seq<Seq<u8>>, s: ScanState) -> ScanState
        decreases chunks.len(),
    {
        if chunks.len() == 0 {
            s
        } else {
            self.feed(chunks.last(), self.feed_all(chunks.drop_last(), s)).1
        }
    }

    /// Whether each feed of `feed_all` consumes its whole chunk.
    pub open spec fn feeds_consume_all(&self, chunks: Seq<Seq<u8>>, s: ScanState) -> bool
        decreases chunks.len(),
    {
        chunks.len() == 0 || (self.feeds_consume_all(chunks.drop_last(), s) && self.feed(
            chunks.last(),
            self.feed_all(chunks.drop_last(), s),
        ).0 == chunks.last().len())
    }

    /// Scans from states that differ only in their byte counters run alike while no
    /// threshold is in reach, and the counters grow by at most the bytes scanned.
    proof fn lemma_scan_congruent(&self, buf: Seq<u8>, pos: int, u: ScanState, v: ScanState)
        requires
            0 <= pos <= buf.len(),
            same_progress(u, v),
            u.need_more_data,
            self.out_of_reach(u, pos, buf.len() as int),
            self.out_of_reach(v, pos, buf.len() as int),
        ensures
            ({
                let (eu, tu) = self.scan_spec(buf, pos, u);
                let (ev, tv) = self.scan_spec(buf, pos, v);
                &&& eu == buf.len() && ev == buf.len()
                &&& same_progress(tu, tv)
                &&& tu.need_more_data
                &&& tu.accepted_rows <= u.accepted_rows + (buf.len() - pos)
                &&& tu.accepted_bytes <= u.accepted_bytes + (buf.len() - pos)
                &&& tv.accepted_rows <= v.accepted_rows + (buf.len() - pos)
                &&& tv.accepted_bytes <= v.accepted_bytes + (buf.len() - pos)
            }),
        decreases buf.len() - pos,
    {
        if pos < buf.len() {
            self.lemma_step_progress(buf, pos, u);
            self.lemma_step_progress(buf, pos, v);
            lemma_first_event_bounds(buf, pos, self.record_delimiter);
            lemma_first_quote_bounds(buf, pos);
            let (p, u1) = self.step_spec(buf, pos, u);
            let (q, v1) = self.step_spec(buf, pos, v);
            assert(p == q);
            assert(same_progress(u1, v1));
            assert(self.scan_spec(buf, pos, u) == self.scan_spec(buf, p, u1));
            assert(self.scan_spec(buf, pos, v) == self.scan_spec(buf, p, v1));
            self.lemma_scan_congruent(buf, p, u1, v1);
        }
    }

    /// Chunk boundaries do not change what the tokenizer finds, for any number of chunks.
    /// While no batching threshold can be reached, feeding the chunks one by one to
    /// `read_buf` consumes each whole and ends with the quote state, accepted row count,
    /// pending byte and wish for more data that feeding their concatenation at once gives.
    /// Each feed appends what it consumed, so the accumulated bytes, and with them what
    /// `deserialize_data` returns, are the same too.
    pub proof fn lemma_chunking_all(&self, chunks: Seq<Seq<u8>>, s0: ScanState)
        requires
            chunks.len() > 0,
            forall|i: int| 0 <= i < chunks.len() ==> (#[trigger] chunks[i]).len() > 0,
            s0.accepted_rows + concat_all(chunks).len() < self.min_accepted_rows,
            s0.accepted_bytes + 2 * concat_all(chunks).len() < self.min_accepted_bytes,
        ensures
            self.feeds_consume_all(chunks, s0),
            self.feed(concat_all(chunks), s0).0 == concat_all(chunks).len(),
            same_progress(self.feed_all(chunks, s0), self.feed(concat_all(chunks), s0).1),
            self.feed_all(chunks, s0).accepted_rows <= s0.accepted_rows + concat_all(chunks).len(),
            self.feed_all(chunks, s0).accepted_bytes <= s0.accepted_bytes + concat_all(
                chunks,
            ).len(),
            self.feed(concat_all(chunks), s0).1.accepted_rows <= s0.accepted_rows + concat_all(
                chunks,
            ).len(),
            self.feed(concat_all(chunks), s0).1.accepted_bytes <= s0.accepted_bytes + concat_all(
                chunks,
            ).len(),
        decreases chunks.len(),
    {
        let w = concat_all(chunks);
        {
            let init = chunks.drop_last();
            let last = chunks.last();
            let wi = concat_all(init);
            assert forall|i: int| 0 <= i < init.len() implies (#[trigger] init[i]).len() > 0 by {
                assert(init[i] == chunks[i]);
            }
            assert(last == chunks[chunks.len() - 1]);
            if init.len() > 0 {
                self.lemma_chunking_all(init, s0);
            }
            let a = self.feed_all(init, s0);
            let start = Self::read_start(last, a);
            let entry = Self::read_entry(last, a);
            if init.len() == 0 {
                assert(a == s0);
                assert(self.feeds_consume_all(init, s0));
                assert(w =~= last);
                self.lemma_scan_congruent(last, start, entry, entry);
            } else {
                let b = self.feed(wi, s0).1;
                assert(wi.len() > 0) by {
                    assert(init[init.len() - 1].len() > 0);
                    assert(wi == concat_all(init.drop_last()) + init.last());
                }
                self.lemma_chunking(wi, last, s0);
                assert(wi[0] == w[0]);
                self.lemma_scan_congruent(
                    last,
                    Self::read_start(last, b),
                    Self::read_entry(last, b),
                    Self::read_entry(last, b),
                );
                assert(Self::read_start(last, a) == Self::read_start(last, b));
                self.lemma_scan_congruent(last, start, entry, Self::read_entry(last, b));
            }
            assert(self.feed(last, a).0 == last.len());
            self.lemma_scan_congruent(
                w,
                Self::read_start(w, s0),
                Self::read_entry(w, s0),
                Self::read_entry(w, s0),
            );
        }
    }
}

} // verus!
