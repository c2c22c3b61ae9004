use vstd::prelude::*;

verus! {

/// The line terminator the buffer splits on.
pub const LINE_FEED: u8 = 10;

/// What `String::from_utf8_lossy` returns for a given byte sequence; the
/// result depends on the bytes alone.
pub uninterp spec fn lossy_decode(bytes: Seq<u8>) -> Seq<char>;

/// Relies on `String::from_utf8_lossy`: decodes bytes as UTF-8, substituting
/// the replacement character for invalid sequences; deterministic in its
/// argument.
#[verifier::external_body]
fn decode_lossy(bytes: &[u8]) -> (r: String)
    ensures
        r@ == lossy_decode(bytes@),
{
    String::from_utf8_lossy(bytes).into_owned()
}

/// Index of the first line feed in `s`, or -1 if there is none.
pub open spec fn find_nl(s: Seq<u8>) -> int
    decreases s.len(),
{
    if s.len() == 0 {
        -1
    } else if s[0] == LINE_FEED {
        0
    } else {
        let r = find_nl(s.drop_first());
        if r < 0 {
            -1
        } else {
            r + 1
        }
    }
}

/// The newline-terminated lines of `s`, in order, without their terminators.
pub open spec fn complete_lines(s: Seq<u8>) -> Seq<Seq<u8>>
    decreases s.len(),
    via complete_lines_decreases
{
    let i = find_nl(s);
    if i < 0 {
        Seq::empty()
    } else {
        seq![s.take(i)] + complete_lines(s.skip(i + 1))
    }
}

#[via_fn]
proof fn complete_lines_decreases(s: Seq<u8>) {
    lemma_find_nl_props(s);
}

/// What remains of `s` after its last line feed: the undelimited tail.
pub open spec fn tail_fragment(s: Seq<u8>) -> Seq<u8>
    decreases s.len(),
    via tail_fragment_decreases
{
    let i = find_nl(s);
    if i < 0 {
        s
    } else {
        tail_fragment(s.skip(i + 1))
    }
}

#[via_fn]
proof fn tail_fragment_decreases(s: Seq<u8>) {
    lemma_find_nl_props(s);
}

/// Each completed byte line, decoded.
pub open spec fn decoded_lines(bs: Seq<Seq<u8>>) -> Seq<Seq<char>> {
    bs.map_values(|b: Seq<u8>| lossy_decode(b))
}

/// FIFO eviction: keep the newest `cap` lines, dropping exactly the oldest.
pub open spec fn evict_to_cap(ls: Seq<Seq<char>>, cap: int) -> Seq<Seq<char>> {
    if ls.len() <= cap {
        ls
    } else {
        ls.skip(ls.len() - cap)
    }
}

/// Bounded FIFO eviction, spelt out: what survives never exceeds the
/// capacity, and is exactly the newest stretch of the pushed lines — after
/// `cap + k` lines the oldest `k` are gone and the remaining `cap` keep
/// their order.
pub proof fn lemma_evict_keeps_newest(ls: Seq<Seq<char>>, cap: int)
    requires
        0 < cap,
    ensures
        evict_to_cap(ls, cap).len() <= cap,
        evict_to_cap(ls, cap).len() == if ls.len() <= cap {
            ls.len() as int
        } else {
            cap
        },
        forall|i: int|
            0 <= i < evict_to_cap(ls, cap).len() ==> evict_to_cap(ls, cap)[i] == ls[ls.len()
                - evict_to_cap(ls, cap).len() + i],
{
}

proof fn lemma_find_nl_props(s: Seq<u8>)
    ensures
        -1 <= find_nl(s) < s.len(),
        find_nl(s) >= 0 ==> s[find_nl(s)] == LINE_FEED,
        forall|k: int| 0 <= k < find_nl(s) ==> s[k] != LINE_FEED,
        find_nl(s) < 0 ==> forall|k: int| 0 <= k < s.len() ==> s[k] != LINE_FEED,
    decreases s.len(),
{
    if s.len() == 0 {
    } else if s[0] == LINE_FEED {
    } else {
        lemma_find_nl_props(s.drop_first());
        assert forall|k: int| 0 <= k < find_nl(s) implies s[k] != LINE_FEED by {
            if k > 0 {
                assert(s.drop_first()[k - 1] == s[k]);
            }
        }
        if find_nl(s) < 0 {
            assert forall|k: int| 0 <= k < s.len() implies s[k] != LINE_FEED by {
                if k > 0 {
                    assert(s.drop_first()[k - 1] == s[k]);
                }
            }
        }
    }
}

proof fn lemma_find_nl_at(s: Seq<u8>, k: int)
    requires
        0 <= k < s.len(),
        s[k] == LINE_FEED,
        forall|j: int| 0 <= j < k ==> s[j] != LINE_FEED,
    ensures
        find_nl(s) == k,
    decreases s.len(),
{
    if k == 0 {
    } else {
        assert forall|j: int| 0 <= j < k - 1 implies s.drop_first()[j] != LINE_FEED by {
            assert(s.drop_first()[j] == s[j + 1]);
        }
        assert(s.drop_first()[k - 1] == s[k]);
        lemma_find_nl_at(s.drop_first(), k - 1);
    }
}

proof fn lemma_find_nl_append(u: Seq<u8>, v: Seq<u8>)
    requires
        find_nl(u) >= 0,
    ensures
        find_nl(u + v) == find_nl(u),
{
    lemma_find_nl_props(u);
    let k = find_nl(u);
    assert((u + v)[k] == u[k]);
    assert forall|j: int| 0 <= j < k implies (u + v)[j] != LINE_FEED by {
        assert((u + v)[j] == u[j]);
    }
    lemma_find_nl_at(u + v, k);
}

/// Splitting a stream is compositional: the lines of `u + v` are the lines of
/// `u` followed by the lines of `u`'s tail fragment prefixed to `v`, and the
/// tail fragments agree likewise.
proof fn lemma_split_append(u: Seq<u8>, v: Seq<u8>)
    ensures
        complete_lines(u + v) == complete_lines(u) + complete_lines(tail_fragment(u) + v),
        tail_fragment(u + v) == tail_fragment(tail_fragment(u) + v),
    decreases u.len(),
{
    lemma_find_nl_props(u);
    let i = find_nl(u);
    if i < 0 {
        assert(tail_fragment(u) + v =~= u + v);
        assert(complete_lines(u) + complete_lines(u + v) =~= complete_lines(u + v));
    } else {
        lemma_find_nl_append(u, v);
        assert((u + v).take(i) =~= u.take(i));
        assert((u + v).skip(i + 1) =~= u.skip(i + 1) + v);
        lemma_split_append(u.skip(i + 1), v);
        assert(complete_lines(u + v) =~= seq![u.take(i)] + complete_lines(u.skip(i + 1) + v));
        assert(complete_lines(u) + complete_lines(tail_fragment(u) + v) =~= seq![u.take(i)]
            + (complete_lines(u.skip(i + 1)) + complete_lines(tail_fragment(u.skip(i + 1)) + v)));
    }
}

proof fn lemma_no_nl(s: Seq<u8>)
    requires
        forall|k: int| 0 <= k < s.len() ==> s[k] != LINE_FEED,
    ensures
        complete_lines(s) == Seq::<Seq<u8>>::empty(),
        tail_fragment(s) == s,
{
    lemma_find_nl_props(s);
    if find_nl(s) >= 0 {
        assert(s[find_nl(s)] == LINE_FEED);
        assert(false);
    }
}

proof fn lemma_evict_compose(x: Seq<Seq<char>>, y: Seq<Seq<char>>, cap: int)
    requires
        0 < cap,
    ensures
        evict_to_cap(evict_to_cap(x, cap) + y, cap) == evict_to_cap(x + y, cap),
{
    let ex = evict_to_cap(x, cap);
    if x.len() <= cap {
        assert(ex + y =~= x + y);
    } else {
        let d = x.len() - cap;
        assert(ex + y =~= (x + y).skip(d));
        if ex.len() + y.len() <= cap {
            assert(evict_to_cap(ex + y, cap) =~= evict_to_cap(x + y, cap));
        } else {
            assert(evict_to_cap(ex + y, cap) =~= evict_to_cap(x + y, cap));
        }
    }
}

/// Chunk invariance: ingesting a byte stream in two chunks leaves exactly the
/// stored lines and trailing fragment that ingesting the concatenation in one
/// call leaves, whatever the split. Starting from stored lines `ls` and
/// pending fragment `p`, the left-hand sides are the state after `a` then `b`,
/// the right-hand sides the state after `a + b` at once.
pub proof fn lemma_ingest_chunk_invariant(
    ls: Seq<Seq<char>>,
    p: Seq<u8>,
    a: Seq<u8>,
    b: Seq<u8>,
    cap: int,
)
    requires
        0 < cap,
        ls.len() <= cap,
    ensures
        evict_to_cap(
            evict_to_cap(ls + decoded_lines(complete_lines(p + a)), cap) + decoded_lines(
                complete_lines(tail_fragment(p + a) + b),
            ),
            cap,
        ) == evict_to_cap(ls + decoded_lines(complete_lines(p + (a + b))), cap),
        tail_fragment(tail_fragment(p + a) + b) == tail_fragment(p + (a + b)),
{
    assert(p + (a + b) =~= (p + a) + b);
    lemma_split_append(p + a, b);
    let ca = complete_lines(p + a);
    let cb = complete_lines(tail_fragment(p + a) + b);
    assert(decoded_lines(ca + cb) =~= decoded_lines(ca) + decoded_lines(cb));
    lemma_evict_compose(ls + decoded_lines(ca), decoded_lines(cb), cap);
    assert((ls + decoded_lines(ca)) + decoded_lines(cb) =~= ls + decoded_lines(ca + cb));
    assert(evict_to_cap(ls + decoded_lines(ca), cap) =~= evict_to_cap(
        evict_to_cap(ls, cap) + decoded_lines(ca),
        cap,
    ));
}

/// Default bound on stored lines.
pub const DEFAULT_CAPACITY: usize = 2000;

/// The scroll offset after new lines arrive: a pinned viewer keeps looking at
/// the same content (the offset grows with the appended lines, clamped to the
/// oldest); an unpinned viewer keeps a numeric offset, so at offset 0 the view
/// follows the tail.
pub open spec fn follow_offset(off: int, pinned: bool, appended: int, new_len: int) -> int {
    if pinned {
        if off + appended <= new_len {
            off + appended
        } else {
            new_len
        }
    } else {
        if off <= new_len {
            off
        } else {
            new_len
        }
    }
}

/// A scroll request clamped to the stored range: past the oldest line pins at
/// the oldest, past the newest pins at 0.
pub open spec fn clamp_offset(off: int, delta: int, len: int) -> int {
    let t = off + delta;
    if t < 0 {
        0
    } else if t > len {
        len
    } else {
        t
    }
}

/// The window `visible_lines` returns: up to `h` lines ending `off` lines
/// from the newest, oldest first.
pub open spec fn visible_window(lines: Seq<Seq<char>>, off: int, h: int) -> Seq<Seq<char>> {
    let end = lines.len() - off;
    let start = if h <= end {
        end - h
    } else {
        0
    };
    lines.subrange(start, end)
}

/// Bounded, line-oriented scrollback: decoded lines oldest to newest, the
/// undelimited trailing fragment, a capacity that evicts FIFO, and a movable
/// viewport offset counted in lines from the newest.
pub struct ScrollbackBuffer {
    lines: Vec<String>,
    partial: Vec<u8>,
    capacity: usize,
    offset: usize,
    pinned: bool,
}

impl ScrollbackBuffer {
    /// The stored lines, oldest first.
    pub closed spec fn lines_view(self) -> Seq<Seq<char>> {
        self.lines@.map_values(|s: String| s@)
    }

    /// The pending bytes after the last line feed.
    pub closed spec fn partial_view(self) -> Seq<u8> {
        self.partial@
    }

    pub closed spec fn cap(self) -> int {
        self.capacity as int
    }

    pub closed spec fn off(self) -> int {
        self.offset as int
    }

    pub closed spec fn pinned_flag(self) -> bool {
        self.pinned
    }

    pub open spec fn wf(self) -> bool {
        &&& 1 <= self.cap()
        &&& self.lines_view().len() <= self.cap()
        &&& self.off() <= self.lines_view().len()
    }

    /// An empty buffer; a zero capacity request is clamped to one line.
    pub fn new(capacity: usize) -> (r: ScrollbackBuffer)
        ensures
            r.wf(),
            r.cap() == if capacity >= 1 {
                capacity as int
            } else {
                1
            },
            r.lines_view() == Seq::<Seq<char>>::empty(),
            r.partial_view() == Seq::<u8>::empty(),
            r.off() == 0,
            !r.pinned_flag(),
    {
        let r = ScrollbackBuffer {
            lines: Vec::new(),
            partial: Vec::new(),
            capacity: if capacity >= 1 {
                capacity
            } else {
                1
            },
            offset: 0,
            pinned: false,
        };
        proof {
            assert(r.lines_view() =~= Seq::<Seq<char>>::empty());
        }
        r
    }

    /// An empty buffer with the default capacity.
    pub fn with_default_capacity() -> (r: ScrollbackBuffer)
        ensures
            r.wf(),
            r.cap() == DEFAULT_CAPACITY as int,
            r.lines_view() == Seq::<Seq<char>>::empty(),
            r.partial_view() == Seq::<u8>::empty(),
            r.off() == 0,
            !r.pinned_flag(),
    {
        Self::new(DEFAULT_CAPACITY)
    }

    pub fn line_count(&self) -> (r: usize)
        ensures
            r as int == self.lines_view().len(),
    {
        self.lines.len()
    }

    pub fn scroll_offset(&self) -> (r: usize)
        ensures
            r as int == self.off(),
    {
        self.offset
    }

    pub fn capacity(&self) -> (r: usize)
        ensures
            r as int == self.cap(),
    {
        self.capacity
    }

    /// A copy of the pending bytes after the last line feed.
    pub fn pending_fragment(&self) -> (r: Vec<u8>)
        ensures
            r@ == self.partial_view(),
    {
        vstd::slice::slice_to_vec(self.partial.as_slice())
    }

    pub fn is_pinned(&self) -> (r: bool)
        ensures
            r == self.pinned_flag(),
    {
        self.pinned
    }

    /// Isolate the viewport from (or rejoin it to) the tail.
    pub fn set_pinned(&mut self, pinned: bool)
        ensures
            final(self).pinned_flag() == pinned,
            final(self).lines_view() == old(self).lines_view(),
            final(self).partial_view() == old(self).partial_view(),
            final(self).cap() == old(self).cap(),
            final(self).off() == old(self).off(),
    {
        self.pinned = pinned;
    }

    /// Drop everything stored; capacity and pinning survive. Safe at any
    /// time, e.g. on session restart.
    pub fn clear(&mut self)
        requires
            old(self).wf(),
        ensures
            final(self).wf(),
            final(self).lines_view() == Seq::<Seq<char>>::empty(),
            final(self).partial_view() == Seq::<u8>::empty(),
            final(self).off() == 0,
            final(self).cap() == old(self).cap(),
            final(self).pinned_flag() == old(self).pinned_flag(),
    {
        self.lines.clear();
        self.partial.clear();
        self.offset = 0;
        proof {
            assert(self.lines_view() =~= Seq::<Seq<char>>::empty());
        }
    }

    /// Append one completed line, evicting the oldest if full. The viewport
    /// offset is untouched.
    fn push_line(&mut self, line: String)
        requires
            old(self).wf(),
        ensures
            final(self).wf(),
            final(self).lines_view() == evict_to_cap(
                old(self).lines_view().push(line@),
                old(self).cap(),
            ),
            final(self).lines_view().len() >= old(self).lines_view().len(),
            final(self).partial_view() == old(self).partial_view(),
            final(self).cap() == old(self).cap(),
            final(self).off() == old(self).off(),
            final(self).pinned_flag() == old(self).pinned_flag(),
    {
        let ghost before = self.lines@;
        if self.lines.len() >= self.capacity {
            self.lines.remove(0);
            self.lines.push(line);
            proof {
                assert(self.lines_view() =~= evict_to_cap(
                    before.map_values(|s: String| s@).push(line@),
                    self.capacity as int,
                ));
            }
        } else {
            self.lines.push(line);
            proof {
                assert(self.lines_view() =~= before.map_values(|s: String| s@).push(line@));
            }
        }
    }

    /// Append one already-decoded line, as `ingest` would a newline-terminated
    /// chunk; used for status lines such as a session-ended notice.
    pub fn append_line(&mut self, line: String)
        requires
            old(self).wf(),
        ensures
            final(self).wf(),
            final(self).lines_view() == evict_to_cap(
                old(self).lines_view().push(line@),
                old(self).cap(),
            ),
            final(self).partial_view() == old(self).partial_view(),
            final(self).cap() == old(self).cap(),
            final(self).pinned_flag() == old(self).pinned_flag(),
            final(self).off() == follow_offset(
                old(self).off(),
                old(self).pinned_flag(),
                1,
                final(self).lines_view().len() as int,
            ),
    {
        self.push_line(line);
        if self.pinned {
            if self.offset < self.lines.len() {
                self.offset = self.offset + 1;
            }
        }
    }

    /// Feed raw session output. The pending fragment plus `bytes` is split on
    /// line feeds; each completed byte line is decoded (UTF-8, lossy) and
    /// stored, evicting FIFO past capacity; the undelimited tail becomes the
    /// new pending fragment. Safe under arbitrary chunking: see
    /// `lemma_ingest_chunk_invariant`.
    pub fn ingest(&mut self, bytes: &[u8])
        requires
            old(self).wf(),
        ensures
            final(self).wf(),
            final(self).lines_view() == evict_to_cap(
                old(self).lines_view() + decoded_lines(
                    complete_lines(old(self).partial_view() + bytes@),
                ),
                old(self).cap(),
            ),
            final(self).partial_view() == tail_fragment(old(self).partial_view() + bytes@),
            final(self).cap() == old(self).cap(),
            final(self).pinned_flag() == old(self).pinned_flag(),
            final(self).off() == follow_offset(
                old(self).off(),
                old(self).pinned_flag(),
                complete_lines(old(self).partial_view() + bytes@).len() as int,
                final(self).lines_view().len() as int,
            ),
    {
        let ghost orig = *self;
        let mut data: Vec<u8> = vstd::slice::slice_to_vec(self.partial.as_slice());
        let more: Vec<u8> = vstd::slice::slice_to_vec(bytes);
        let mut j: usize = 0;
        while j < more.len()
            invariant
                j <= more.len(),
                more@ == bytes@,
                data@ == orig.partial@ + more@.take(j as int),
            decreases more.len() - j,
        {
            data.push(more[j]);
            proof {
                assert(orig.partial@ + more@.take(j as int) + seq![more@[j as int]]
                    =~= orig.partial@ + more@.take(j + 1));
            }
            j = j + 1;
        }
        proof {
            assert(data@ =~= orig.partial_view() + bytes@);
        }
        let ghost all = data@;

        let mut start: usize = 0;
        let mut i: usize = 0;
        let mut pushed: usize = 0;
        while i < data.len()
            invariant
                start <= i <= data.len(),
                pushed <= start,
                all == data@,
                self.capacity == orig.capacity,
                self.pinned == orig.pinned,
                self.offset == orig.offset,
                self.partial@ == orig.partial@,
                orig.wf(),
                self.wf(),
                self.lines_view().len() >= orig.lines_view().len(),
                forall|k: int| start <= k < i ==> all[k] != LINE_FEED,
                tail_fragment(all.take(start as int)) == Seq::<u8>::empty(),
                pushed as int == complete_lines(all.take(start as int)).len(),
                self.lines_view() == evict_to_cap(
                    orig.lines_view() + decoded_lines(complete_lines(all.take(start as int))),
                    orig.cap(),
                ),
            decreases data.len() - i,
        {
            if data[i] == LINE_FEED {
                let line = decode_lossy(vstd::slice::slice_subrange(data.as_slice(), start, i));
                proof {
                    lemma_ingest_step(all, start as int, i as int);
                    assert(decoded_lines(complete_lines(all.take(start as int))).push(line@)
                        =~= decoded_lines(complete_lines(all.take(i + 1))));
                    lemma_evict_compose(
                        orig.lines_view() + decoded_lines(complete_lines(all.take(start as int))),
                        seq![line@],
                        orig.cap(),
                    );
                    assert(evict_to_cap(
                        orig.lines_view() + decoded_lines(complete_lines(all.take(start as int))),
                        orig.cap(),
                    ).push(line@) =~= evict_to_cap(
                        orig.lines_view() + decoded_lines(complete_lines(all.take(start as int))),
                        orig.cap(),
                    ) + seq![line@]);
                    assert((orig.lines_view() + decoded_lines(
                        complete_lines(all.take(start as int)),
                    )) + seq![line@] =~= orig.lines_view() + decoded_lines(
                        complete_lines(all.take(i + 1)),
                    ));
                }
                self.push_line(line);
                pushed = pushed + 1;
                start = i + 1;
            }
            i = i + 1;
        }
        proof {
            lemma_ingest_finish(all, start as int);
        }
        let rest = vstd::slice::slice_subrange(data.as_slice(), start, data.len());
        self.partial = vstd::slice::slice_to_vec(rest);
        if self.pinned {
            let room = self.lines.len() - self.offset;
            if pushed > room {
                self.offset = self.lines.len();
            } else {
                self.offset = self.offset + pushed;
            }
        }
    }

    /// Move the viewport by `delta` lines (positive toward the oldest),
    /// clamped to the stored range.
    pub fn scroll(&mut self, delta: i64)
        requires
            old(self).wf(),
        ensures
            final(self).wf(),
            final(self).off() == clamp_offset(
                old(self).off(),
                delta as int,
                old(self).lines_view().len() as int,
            ),
            final(self).lines_view() == old(self).lines_view(),
            final(self).partial_view() == old(self).partial_view(),
            final(self).cap() == old(self).cap(),
            final(self).pinned_flag() == old(self).pinned_flag(),
    {
        if delta >= 0 {
            let room: usize = self.lines.len() - self.offset;
            if delta as u64 > room as u64 {
                self.offset = self.lines.len();
            } else {
                self.offset = self.offset + delta as usize;
            }
        } else {
            let mag: u64 = ((0i64 - (delta + 1)) as u64) + 1;
            if mag > self.offset as u64 {
                self.offset = 0;
            } else {
                self.offset = self.offset - mag as usize;
            }
        }
    }

    /// A read-only snapshot of up to `viewport_height` lines, ending
    /// `scroll_offset` lines from the newest, oldest first.
    pub fn visible_lines(&self, viewport_height: usize) -> (r: Vec<String>)
        requires
            self.wf(),
        ensures
            r@.map_values(|s: String| s@) == visible_window(
                self.lines_view(),
                self.off(),
                viewport_height as int,
            ),
    {
        let end: usize = self.lines.len() - self.offset;
        let start: usize = if viewport_height <= end {
            end - viewport_height
        } else {
            0
        };
        let mut r: Vec<String> = Vec::new();
        let mut k: usize = start;
        proof {
            assert(r@.map_values(|s: String| s@) =~= self.lines_view().subrange(
                start as int,
                start as int,
            ));
        }
        while k < end
            invariant
                start <= k <= end <= self.lines@.len(),
                r@.map_values(|s: String| s@) == self.lines_view().subrange(
                    start as int,
                    k as int,
                ),
            decreases end - k,
        {
            let line = self.lines[k].clone();
            proof {
                assert(line@ == self.lines_view()[k as int]);
            }
            r.push(line);
            proof {
                assert(self.lines_view().subrange(start as int, k + 1)
                    =~= self.lines_view().subrange(start as int, k as int).push(
                    self.lines_view()[k as int],
                ));
                assert(r@.map_values(|s: String| s@) =~= self.lines_view().subrange(
                    start as int,
                    k + 1,
                ));
            }
            k = k + 1;
        }
        r
    }
}

proof fn lemma_ingest_step(all: Seq<u8>, start: int, i: int)
    requires
        0 <= start <= i < all.len(),
        forall|k: int| start <= k < i ==> all[k] != LINE_FEED,
        all[i] == LINE_FEED,
        tail_fragment(all.take(start)) == Seq::<u8>::empty(),
    ensures
        complete_lines(all.take(i + 1)) == complete_lines(all.take(start)).push(
            all.subrange(start, i),
        ),
        tail_fragment(all.take(i + 1)) == Seq::<u8>::empty(),
{
    let a = all.take(start);
    let b = all.subrange(start, i + 1);
    assert(all.take(i + 1) =~= a + b);
    assert(b[i - start] == LINE_FEED);
    assert forall|j: int| 0 <= j < i - start implies b[j] != LINE_FEED by {
        assert(b[j] == all[start + j]);
    }
    lemma_find_nl_at(b, i - start);
    assert(b.skip(i - start + 1) =~= Seq::<u8>::empty());
    assert(complete_lines(Seq::<u8>::empty()) =~= Seq::<Seq<u8>>::empty());
    assert(complete_lines(b) =~= seq![b.take(i - start)]);
    assert(b.take(i - start) =~= all.subrange(start, i));
    lemma_split_append(a, b);
    assert(tail_fragment(a) + b =~= b);
    assert(complete_lines(a) + seq![all.subrange(start, i)] =~= complete_lines(a).push(
        all.subrange(start, i),
    ));
    assert(tail_fragment(b) == tail_fragment(b.skip(i - start + 1)));
}

proof fn lemma_ingest_finish(all: Seq<u8>, start: int)
    requires
        0 <= start <= all.len(),
        forall|k: int| start <= k < all.len() ==> all[k] != LINE_FEED,
        tail_fragment(all.take(start)) == Seq::<u8>::empty(),
    ensures
        complete_lines(all) == complete_lines(all.take(start)),
        tail_fragment(all) == all.skip(start),
{
    let a = all.take(start);
    let b = all.skip(start);
    assert(all =~= a + b);
    assert forall|j: int| 0 <= j < b.len() implies b[j] != LINE_FEED by {
        assert(b[j] == all[start + j]);
    }
    lemma_no_nl(b);
    lemma_split_append(a, b);
    assert(tail_fragment(a) + b =~= b);
    assert(complete_lines(a) + Seq::<Seq<u8>>::empty() =~= complete_lines(a));
}

} // verus!
