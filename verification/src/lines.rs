//! Line-delimited splitting of a byte stream.
//!
//! A child's output stream is a plain byte sequence. It is re-emitted line by
//! line: each segment runs up to and including a newline byte, and a final
//! run of bytes without a trailing newline forms one last partial segment.
//! `LineSplitter` performs that split incrementally, as bytes arrive.

use vstd::prelude::*;

verus! {

/// The newline byte that delimits lines.
pub open spec fn nl() -> u8 {
    10u8
}

/// Index of the first newline byte in `s`, or `s.len()` if there is none.
pub open spec fn first_nl(s: Seq<u8>) -> nat
    decreases s.len(),
{
    if s.len() == 0 {
        0
    } else if s[0] == nl() {
        0
    } else {
        1 + first_nl(s.drop_first())
    }
}

/// What `first_nl` returns: an index within bounds, with no newline before it,
/// and a newline at it unless the whole of `s` is newline-free.
pub proof fn lemma_first_nl(s: Seq<u8>)
    ensures
        first_nl(s) <= s.len(),
        forall|k: int| 0 <= k < first_nl(s) ==> s[k] != nl(),
        first_nl(s) < s.len() ==> s[first_nl(s) as int] == nl(),
    decreases s.len(),
{
    if s.len() == 0 {
    } else if s[0] == nl() {
    } else {
        lemma_first_nl(s.drop_first());
        assert forall|k: int| 0 <= k < first_nl(s) implies s[k] != nl() by {
            if k > 0 {
                assert(s.drop_first()[k - 1] == s[k]);
                assert(k - 1 < first_nl(s.drop_first()));
            }
        }
        if first_nl(s) < s.len() {
            assert(s.drop_first()[first_nl(s.drop_first()) as int] == s[first_nl(s) as int]);
        }
    }
}

/// Conversely: an index with no newline before it and a newline at it (or the
/// length, when `s` is newline-free) is exactly `first_nl(s)`.
pub proof fn lemma_first_nl_at(s: Seq<u8>, m: int)
    requires
        0 <= m <= s.len(),
        forall|k: int| 0 <= k < m ==> s[k] != nl(),
        m < s.len() ==> s[m] == nl(),
    ensures
        first_nl(s) == m,
    decreases m,
{
    if s.len() == 0 {
    } else if m == 0 {
    } else {
        assert(s[0] != nl());
        assert forall|k: int| 0 <= k < m - 1 implies s.drop_first()[k] != nl() by {
            assert(s.drop_first()[k] == s[k + 1]);
        }
        if m - 1 < s.drop_first().len() {
            assert(s.drop_first()[m - 1] == s[m]);
        }
        lemma_first_nl_at(s.drop_first(), m - 1);
    }
}

/// The newline-delimited segments of `s`, in order. Every segment but
/// possibly the last ends with a newline; a trailing newline-free run of
/// bytes forms a final partial segment.
pub open spec fn line_segments(s: Seq<u8>) -> Seq<Seq<u8>>
    decreases s.len(),
{
    if s.len() == 0 {
        Seq::empty()
    } else {
        let i = first_nl(s) as int;
        if i < s.len() {
            seq![s.subrange(0, i + 1)] + line_segments(s.subrange(i + 1, s.len() as int))
        } else {
            seq![s]
        }
    }
}

/// The concatenation of a sequence of segments.
pub open spec fn concat_segs(segs: Seq<Seq<u8>>) -> Seq<u8>
    decreases segs.len(),
{
    if segs.len() == 0 {
        Seq::empty()
    } else {
        segs[0] + concat_segs(segs.drop_first())
    }
}

/// The number of newline bytes in `s`.
pub open spec fn count_nl(s: Seq<u8>) -> nat
    decreases s.len(),
{
    if s.len() == 0 {
        0
    } else {
        (if s[0] == nl() {
            1nat
        } else {
            0nat
        }) + count_nl(s.drop_first())
    }
}

/// `count_nl` through the eyes of `first_nl`: either `s` is newline-free, or
/// it has one newline at `first_nl(s)` and the rest lie beyond it.
proof fn lemma_count_nl_split(s: Seq<u8>)
    ensures
        first_nl(s) == s.len() ==> count_nl(s) == 0,
        first_nl(s) < s.len() ==> count_nl(s) == 1 + count_nl(
            s.subrange(first_nl(s) as int + 1, s.len() as int),
        ),
    decreases s.len(),
{
    if s.len() == 0 {
    } else if s[0] == nl() {
        assert(s.subrange(1, s.len() as int) =~= s.drop_first());
    } else {
        lemma_count_nl_split(s.drop_first());
        lemma_first_nl(s);
        if first_nl(s) < s.len() {
            let i = first_nl(s) as int;
            assert(first_nl(s.drop_first()) == i - 1);
            assert(s.drop_first().subrange(i - 1 + 1, s.drop_first().len() as int) =~= s.subrange(
                i + 1,
                s.len() as int,
            ));
        }
    }
}

/// Law: splitting a byte stream into newline-delimited segments loses and
/// invents nothing. The segments concatenate back to the exact stream, and
/// their number is the newline count, plus one when a trailing partial line
/// remains.
pub proof fn lemma_segments_reconstruct(s: Seq<u8>)
    ensures
        concat_segs(line_segments(s)) == s,
        line_segments(s).len() == count_nl(s) + (if s.len() > 0 && s.last() != nl() {
            1nat
        } else {
            0nat
        }),
    decreases s.len(),
{
    lemma_first_nl(s);
    lemma_count_nl_split(s);
    if s.len() == 0 {
        assert(concat_segs(line_segments(s)) =~= s);
    } else {
        let i = first_nl(s) as int;
        if i < s.len() {
            let head = s.subrange(0, i + 1);
            let tail = s.subrange(i + 1, s.len() as int);
            lemma_segments_reconstruct(tail);
            let segs = line_segments(s);
            assert(segs == seq![head] + line_segments(tail));
            assert(segs[0] == head);
            assert(segs.drop_first() =~= line_segments(tail));
            assert(concat_segs(segs) == head + concat_segs(line_segments(tail)));
            assert(head + tail =~= s);
            if tail.len() == 0 {
                assert(s.last() == s[i] == nl());
            } else {
                assert(tail.last() == s.last());
            }
        } else {
            assert(line_segments(s) == seq![s]);
            assert(seq![s].drop_first() =~= Seq::<Seq<u8>>::empty());
            assert(concat_segs(Seq::<Seq<u8>>::empty()) =~= Seq::<u8>::empty());
            assert(concat_segs(seq![s]) == seq![s][0] + concat_segs(seq![s].drop_first()));
            assert(concat_segs(line_segments(s)) =~= s);
            assert(s.last() != nl()) by {
                assert(s.len() - 1 < first_nl(s));
            }
        }
    }
}

/// Law: splitting may pause at any complete-line boundary. When `s` is empty
/// or ends with a newline — as the part already handed out by an incremental
/// split always does — the segments of `s + t` are the segments of `s`
/// followed by the segments of `t`. Feeding a stream piecewise therefore
/// yields exactly the segments of the whole stream.
pub proof fn lemma_segments_append(s: Seq<u8>, t: Seq<u8>)
    requires
        s.len() == 0 || s.last() == nl(),
    ensures
        line_segments(s + t) == line_segments(s) + line_segments(t),
    decreases s.len(),
{
    lemma_first_nl(s);
    if s.len() == 0 {
        assert(s + t =~= t);
        assert(Seq::<Seq<u8>>::empty() + line_segments(t) =~= line_segments(t));
    } else {
        let i = first_nl(s) as int;
        assert(i < s.len()) by {
            if i == s.len() {
                assert(s[s.len() - 1] != nl());
            }
        }
        let u = s + t;
        assert forall|k: int| 0 <= k < i implies u[k] != nl() by {
            assert(u[k] == s[k]);
        }
        assert(u[i] == s[i]);
        lemma_first_nl_at(u, i);
        let s_tail = s.subrange(i + 1, s.len() as int);
        assert(u.subrange(0, i + 1) =~= s.subrange(0, i + 1));
        assert(u.subrange(i + 1, u.len() as int) =~= s_tail + t);
        if s_tail.len() > 0 {
            assert(s_tail.last() == s.last());
        }
        lemma_segments_append(s_tail, t);
        assert(line_segments(u) == seq![s.subrange(0, i + 1)] + (line_segments(s_tail)
            + line_segments(t)));
        assert(line_segments(s) + line_segments(t) =~= seq![s.subrange(0, i + 1)] + (line_segments(
            s_tail,
        ) + line_segments(t)));
    }
}

/// Every segment is non-empty and holds a newline only as its last byte.
pub proof fn lemma_segments_shape(s: Seq<u8>)
    ensures
        forall|j: int|
            0 <= j < line_segments(s).len() ==> #[trigger] line_segments(s)[j].len() > 0,
        forall|j: int, k: int|
            0 <= j < line_segments(s).len() && 0 <= k < line_segments(s)[j].len() - 1
                ==> #[trigger] line_segments(s)[j][k] != nl(),
    decreases s.len(),
{
    lemma_first_nl(s);
    if s.len() == 0 {
    } else {
        let i = first_nl(s) as int;
        if i < s.len() {
            let head = s.subrange(0, i + 1);
            let tail = s.subrange(i + 1, s.len() as int);
            lemma_segments_shape(tail);
            let segs = line_segments(s);
            assert(segs == seq![head] + line_segments(tail));
            assert forall|j: int| 0 <= j < segs.len() implies #[trigger] segs[j].len() > 0 by {
                if j == 0 {
                    assert(segs[j] == head);
                } else {
                    assert(segs[j] == line_segments(tail)[j - 1]);
                }
            }
            assert forall|j: int, k: int|
                0 <= j < segs.len() && 0 <= k < segs[j].len() - 1 implies #[trigger] segs[j][k]
                != nl() by {
                if j == 0 {
                    assert(segs[j] == head);
                    assert(head[k] == s[k]);
                    assert(k < i);
                } else {
                    assert(segs[j] == line_segments(tail)[j - 1]);
                }
            }
        } else {
            assert(line_segments(s) == seq![s]);
        }
    }
}

/// Incremental line splitter: the read buffer of one annotation task. Bytes
/// are fed in as they arrive; completed lines come out, and a trailing
/// partial line waits in the buffer for more bytes or for end-of-stream.
pub struct LineSplitter {
    buf: Vec<u8>,
}

impl LineSplitter {
    /// The bytes of a partial line received so far but not yet emitted.
    pub closed spec fn pending(self) -> Seq<u8> {
        self.buf@
    }

    /// The buffer never holds a newline: a newline completes a line at once.
    pub closed spec fn inv(self) -> bool {
        forall|k: int| 0 <= k < self.buf@.len() ==> self.buf@[k] != nl()
    }

    pub fn new() -> (r: Self)
        ensures
            r.inv(),
            r.pending() == Seq::<u8>::empty(),
    {
        LineSplitter { buf: Vec::new() }
    }

    /// Feed the next bytes read from the stream. Returns the newly completed
    /// segments, in order: exactly the line segments of the bytes seen so far
    /// and not yet handed out, except for a trailing partial line, which
    /// stays pending.
    pub fn feed(&mut self, bytes: &Vec<u8>) -> (segs: Vec<Vec<u8>>)
        requires
            old(self).inv(),
        ensures
            final(self).inv(),
            ({
                let c = old(self).pending() + bytes@;
                let all = line_segments(c);
                if c.len() > 0 && c.last() != nl() {
                    &&& all.len() > 0
                    &&& final(self).pending() == all.last()
                    &&& crate::bytes::views_of(segs@) == all.drop_last()
                } else {
                    &&& final(self).pending() == Seq::<u8>::empty()
                    &&& crate::bytes::views_of(segs@) == all
                }
            }),
    {
        let ghost c = old(self).buf@ + bytes@;
        let ghost old_len = old(self).buf@.len() as int;
        let mut cur: Vec<u8> = Vec::new();
        cur.append(&mut self.buf);
        let mut segs: Vec<Vec<u8>> = Vec::new();
        let ghost mut start: int = 0;
        let mut i: usize = 0;
        proof {
            assert(cur@ =~= c.subrange(start, old_len + i as int));
            assert(crate::bytes::views_of(segs@) =~= Seq::<Seq<u8>>::empty());
            assert(c.subrange(0, c.len() as int) =~= c);
            assert(Seq::<Seq<u8>>::empty() + line_segments(c) =~= line_segments(c));
        }
        while i < bytes.len()
            invariant
                0 <= i <= bytes@.len(),
                c == old(self).buf@ + bytes@,
                old_len == old(self).buf@.len() as int,
                self.buf@.len() == 0,
                0 <= start <= old_len + i as int,
                cur@ == c.subrange(start, old_len + i as int),
                forall|k: int| 0 <= k < cur@.len() ==> cur@[k] != nl(),
                start > 0 ==> c[start - 1] == nl(),
                line_segments(c) == crate::bytes::views_of(segs@) + line_segments(
                    c.subrange(start, c.len() as int),
                ),
            decreases bytes@.len() - i,
        {
            let ghost p = old_len + i as int;
            let b = bytes[i];
            proof {
                assert(c[p] == bytes@[i as int]);
            }
            cur.push(b);
            i = i + 1;
            assert(cur@ =~= c.subrange(start, p + 1));
            if b == 10u8 {
                proof {
                    let suffix = c.subrange(start, c.len() as int);
                    assert forall|k: int| 0 <= k < p - start implies suffix[k] != nl() by {
                        assert(suffix[k] == c.subrange(start, p)[k]);
                        assert(c.subrange(start, p) =~= cur@.subrange(0, p - start));
                    }
                    assert(suffix[p - start] == nl());
                    lemma_first_nl_at(suffix, p - start);
                    assert(line_segments(suffix) == seq![suffix.subrange(0, p - start + 1)]
                        + line_segments(suffix.subrange(p - start + 1, suffix.len() as int)));
                    assert(suffix.subrange(0, p - start + 1) =~= cur@);
                    assert(suffix.subrange(p - start + 1, suffix.len() as int) =~= c.subrange(
                        p + 1,
                        c.len() as int,
                    ));
                }
                let ghost segs_pre = segs@;
                segs.push(cur);
                cur = Vec::new();
                proof {
                    assert(crate::bytes::views_of(segs@) =~= crate::bytes::views_of(segs_pre)
                        + seq![c.subrange(start, p + 1)]);
                    start = p + 1;
                    assert(line_segments(c) =~= crate::bytes::views_of(segs@) + line_segments(
                        c.subrange(start, c.len() as int),
                    ));
                    assert(cur@ =~= c.subrange(start, p + 1));
                }
            }
        }
        proof {
            let suffix = c.subrange(start, c.len() as int);
            assert(cur@ =~= suffix);
            if cur@.len() > 0 {
                lemma_first_nl_at(suffix, suffix.len() as int);
                assert(line_segments(suffix) == seq![suffix]);
                assert(line_segments(c) == crate::bytes::views_of(segs@) + seq![suffix]);
                assert(line_segments(c).last() == suffix);
                assert(crate::bytes::views_of(segs@) =~= line_segments(c).drop_last());
                assert(c.last() == cur@[cur@.len() - 1]);
            } else {
                assert(start == c.len() as int);
                assert(suffix =~= Seq::<u8>::empty());
                assert(crate::bytes::views_of(segs@) =~= line_segments(c));
                if c.len() > 0 {
                    assert(c[start - 1] == nl());
                    assert(c.last() == nl());
                }
            }
        }
        self.buf = cur;
        segs
    }

    /// End of stream: hand out the final partial line, if any.
    pub fn take_pending(&mut self) -> (last: Option<Vec<u8>>)
        requires
            old(self).inv(),
        ensures
            final(self).inv(),
            final(self).pending() == Seq::<u8>::empty(),
            match last {
                Some(seg) => old(self).pending().len() > 0 && seg@ == old(self).pending(),
                None => old(self).pending().len() == 0,
            },
    {
        if self.buf.len() == 0 {
            None
        } else {
            let mut v: Vec<u8> = Vec::new();
            v.append(&mut self.buf);
            Some(v)
        }
    }
}

} // verus!
