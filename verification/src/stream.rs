use vstd::prelude::*;
use crate::color::Rgb;
use crate::codec::{
    board_data_len, header_invalid, parse_incomplete, parse_payload, parse_used, rgb_at, scan_used,
    try_parse_packet, DecodeError, LedBoard, LED_PACKET_FRAMING,
};
use crate::zones::{slider_to_drum_pads, zone_color};

verus! {

/// Offset of the first frame marker byte in `w`, if any.
pub open spec fn find_marker(w: Seq<u8>) -> Option<int>
    decreases w.len(),
{
    if w.len() == 0 {
        None
    } else if w[0] == LED_PACKET_FRAMING {
        Some(0)
    } else {
        match find_marker(w.skip(1)) {
            None => None,
            Some(p) => Some(p + 1),
        }
    }
}

/// The slider payload of a decoded board-2 byte sequence, in physical order:
/// physical LED `i` is wire triple `30 - i`.
pub open spec fn slider_of(d: Seq<u8>) -> Seq<Rgb> {
    Seq::new(31, |i: int| rgb_at(d, 30 - i))
}

/// The 8-zone pad summary derived from a decoded board-2 byte sequence.
pub open spec fn summary_of(d: Seq<u8>) -> Seq<Rgb> {
    Seq::new(8, |z: int| zone_color(slider_of(d), z))
}

/// The outcome of running the synchronization loop once over a receive
/// buffer: the bytes left in the buffer, and the pad summary to emit, if any.
pub struct PollStep {
    pub window: Seq<u8>,
    pub emit: Option<Seq<Rgb>>,
}

/// What one run of the synchronization loop does to the receive buffer `w`,
/// given the last summary forwarded to the light sink. Bytes before the first
/// frame marker are discarded as garbage; a malformed header drops one byte
/// and resynchronizes; an incomplete frame stops the loop to wait for more
/// input; a decoded packet is removed from the buffer, and if it is a slider
/// packet whose summary differs from the last one forwarded, that summary is
/// emitted.
pub open spec fn poll_spec(w: Seq<u8>, last: Option<Seq<Rgb>>) -> PollStep
    decreases w.len(),
    via poll_spec_dec
{
    match find_marker(w) {
        None => PollStep { window: w, emit: None },
        Some(p) => {
            let w2 = w.skip(p);
            if header_invalid(w2) {
                poll_spec(w2.skip(1), last)
            } else if parse_incomplete(w2) {
                PollStep { window: w2, emit: None }
            } else {
                let w3 = w2.skip(parse_used(w2));
                if w2[1] == 2 {
                    let pads = summary_of(parse_payload(w2));
                    if last != Some(pads) {
                        PollStep { window: w3, emit: Some(pads) }
                    } else {
                        poll_spec(w3, last)
                    }
                } else {
                    poll_spec(w3, last)
                }
            }
        },
    }
}

#[via_fn]
proof fn poll_spec_dec(w: Seq<u8>, last: Option<Seq<Rgb>>) {
    match find_marker(w) {
        None => {},
        Some(p) => {
            lemma_find_marker_props(w);
            let w2 = w.skip(p);
            if !header_invalid(w2) {
                lemma_scan_used_bounds(w2.skip(2), board_data_len(w2[1] as int));
            }
        },
    }
}

/// The raw byte count of a scan is never negative and never exceeds the
/// input length.
proof fn lemma_scan_used_bounds(s: Seq<u8>, target: int)
    ensures
        0 <= scan_used(s, target) <= s.len(),
    decreases s.len(),
{
    if target <= 0 || s.len() == 0 {
    } else if s[0] == crate::codec::LED_PACKET_ESCAPE {
        if s.len() > 1 {
            lemma_scan_used_bounds(s.skip(2), target - 1);
        }
    } else {
        lemma_scan_used_bounds(s.skip(1), target - 1);
    }
}

/// A found marker offset is in range, holds the frame marker, and nothing
/// before it does.
proof fn lemma_find_marker_props(w: Seq<u8>)
    ensures
        match find_marker(w) {
            Some(p) => 0 <= p < w.len() && w[p] == LED_PACKET_FRAMING && (forall|i: int|
                0 <= i < p ==> w[i] != LED_PACKET_FRAMING),
            None => forall|i: int| 0 <= i < w.len() ==> w[i] != LED_PACKET_FRAMING,
        },
    decreases w.len(),
{
    if w.len() == 0 {
    } else if w[0] == LED_PACKET_FRAMING {
    } else {
        lemma_find_marker_props(w.skip(1));
        match find_marker(w.skip(1)) {
            Some(p) => {
                assert(w[p + 1] == w.skip(1)[p]);
                assert forall|i: int| 0 <= i < p + 1 implies w[i] != LED_PACKET_FRAMING by {
                    if i > 0 {
                        assert(w[i] == w.skip(1)[i - 1]);
                    }
                }
            },
            None => {
                assert forall|i: int| 0 <= i < w.len() implies w[i] != LED_PACKET_FRAMING by {
                    if i > 0 {
                        assert(w[i] == w.skip(1)[i - 1]);
                    }
                }
            },
        }
    }
}

/// The offset of the first frame marker determines `find_marker`.
proof fn lemma_find_marker_unique(w: Seq<u8>, p: int)
    requires
        0 <= p < w.len(),
        w[p] == LED_PACKET_FRAMING,
        forall|i: int| 0 <= i < p ==> w[i] != LED_PACKET_FRAMING,
    ensures
        find_marker(w) == Some(p),
    decreases w.len(),
{
    if p > 0 {
        lemma_find_marker_unique(w.skip(1), p - 1);
    }
}

/// A buffer without the frame marker has no marker to find.
proof fn lemma_find_marker_none(w: Seq<u8>)
    requires
        forall|i: int| 0 <= i < w.len() ==> w[i] != LED_PACKET_FRAMING,
    ensures
        find_marker(w) == None::<int>,
    decreases w.len(),
{
    if w.len() > 0 {
        lemma_find_marker_none(w.skip(1));
    }
}

/// Skipping to the first frame marker does not change what the
/// synchronization loop does.
proof fn lemma_poll_skip_to_marker(w: Seq<u8>, last: Option<Seq<Rgb>>, p: int)
    requires
        find_marker(w) == Some(p),
    ensures
        poll_spec(w, last) == poll_spec(w.skip(p), last),
{
    lemma_find_marker_props(w);
    let w2 = w.skip(p);
    lemma_find_marker_unique(w2, 0);
    assert(w2.skip(0) =~= w2);
}

/// Law: garbage bytes standing before a frame marker are skipped, and the
/// loop then behaves exactly as it would on the buffer that starts at the
/// marker.
pub proof fn lemma_garbage_skipped(g: Seq<u8>, w: Seq<u8>, last: Option<Seq<Rgb>>)
    requires
        forall|i: int| 0 <= i < g.len() ==> g[i] != LED_PACKET_FRAMING,
        w.len() > 0,
        w[0] == LED_PACKET_FRAMING,
    ensures
        poll_spec(g + w, last) == poll_spec(w, last),
{
    let gw = g + w;
    assert(gw[g.len() as int] == LED_PACKET_FRAMING);
    assert(forall|i: int| 0 <= i < g.len() ==> gw[i] == g[i]);
    lemma_find_marker_unique(gw, g.len() as int);
    lemma_poll_skip_to_marker(gw, last, g.len() as int);
    assert(gw.skip(g.len() as int) =~= w);
}

/// Law: the loop never emits the summary it last forwarded; a repeated
/// identical pad state is deduplicated.
pub proof fn lemma_poll_dedup(w: Seq<u8>, last: Option<Seq<Rgb>>)
    ensures
        poll_spec(w, last).emit matches Some(p) ==> last != Some(p),
    decreases w.len(),
{
    match find_marker(w) {
        None => {},
        Some(p) => {
            lemma_find_marker_props(w);
            let w2 = w.skip(p);
            if header_invalid(w2) {
                lemma_poll_dedup(w2.skip(1), last);
            } else if parse_incomplete(w2) {
            } else {
                lemma_scan_used_bounds(w2.skip(2), board_data_len(w2[1] as int));
                let w3 = w2.skip(parse_used(w2));
                if w2[1] == 2 {
                    let pads = summary_of(parse_payload(w2));
                    if last != Some(pads) {
                    } else {
                        lemma_poll_dedup(w3, last);
                    }
                } else {
                    lemma_poll_dedup(w3, last);
                }
            }
        },
    }
}

/// Removes the first `n` bytes of `v`, keeping the rest in order.
fn drop_front(v: &mut Vec<u8>, n: usize)
    requires
        n <= old(v)@.len(),
    ensures
        final(v)@ == old(v)@.skip(n as int),
{
    let len = v.len();
    let mut r: Vec<u8> = Vec::new();
    let mut i: usize = n;
    while i < len
        invariant
            n <= i <= len,
            len == v@.len(),
            v@ == old(v)@,
            r@.len() == i - n,
            forall|j: int| 0 <= j < i - n ==> r@[j] == v@[n + j],
        decreases len - i,
    {
        r.push(v[i]);
        i = i + 1;
    }
    proof {
        assert(r@ =~= old(v)@.skip(n as int));
    }
    *v = r;
}

/// Compares two pad summaries by value.
fn pads_equal(a: &Vec<Rgb>, b: &Vec<Rgb>) -> (r: bool)
    ensures
        r == (a@ == b@),
{
    if a.len() != b.len() {
        return false;
    }
    let mut i: usize = 0;
    let len = a.len();
    while i < len
        invariant
            i <= len,
            len == a@.len(),
            a@.len() == b@.len(),
            forall|j: int| 0 <= j < i ==> a@[j] == b@[j],
        decreases len - i,
    {
        if a[i] != b[i] {
            return false;
        }
        i = i + 1;
    }
    proof {
        assert(a@ =~= b@);
    }
    true
}

/// Finds the offset of the first frame marker byte in `v`.
fn find_marker_exec(v: &Vec<u8>) -> (r: Option<usize>)
    ensures
        match r {
            Some(p) => find_marker(v@) == Some(p as int),
            None => find_marker(v@) == None::<int>,
        },
{
    let len = v.len();
    let mut i: usize = 0;
    while i < len
        invariant
            i <= len,
            len == v@.len(),
            forall|j: int| 0 <= j < i ==> v@[j] != LED_PACKET_FRAMING,
        decreases len - i,
    {
        if v[i] == LED_PACKET_FRAMING {
            proof {
                lemma_find_marker_unique(v@, i as int);
            }
            return Some(i);
        }
        i = i + 1;
    }
    proof {
        lemma_find_marker_none(v@);
    }
    None
}

/// Owns the growable receive buffer and the last pad summary forwarded to
/// the light sink, and runs the frame synchronization loop over them.
pub struct StreamDecoder {
    window: Vec<u8>,
    last_sent: Option<Vec<Rgb>>,
}

impl StreamDecoder {
    /// The bytes currently held in the receive buffer.
    pub closed spec fn window_view(&self) -> Seq<u8> {
        self.window@
    }

    /// The last pad summary recorded as forwarded, if any.
    pub closed spec fn last_view(&self) -> Option<Seq<Rgb>> {
        match self.last_sent {
            Some(v) => Some(v@),
            None => None,
        }
    }

    /// A recorded summary always holds exactly 8 pad colors.
    pub closed spec fn wf(&self) -> bool {
        match self.last_sent {
            Some(v) => v@.len() == 8,
            None => true,
        }
    }

    /// A fresh decoder: empty buffer, nothing forwarded yet.
    pub fn new() -> (s: Self)
        ensures
            s.wf(),
            s.window_view() == Seq::<u8>::empty(),
            s.last_view() == None::<Seq<Rgb>>,
    {
        StreamDecoder { window: Vec::new(), last_sent: None }
    }

    /// Appends newly read bytes at the tail of the receive buffer.
    pub fn push_bytes(&mut self, data: &[u8])
        requires
            old(self).wf(),
        ensures
            final(self).wf(),
            final(self).window_view() == old(self).window_view() + data@,
            final(self).last_view() == old(self).last_view(),
    {
        let len = data.len();
        let mut i: usize = 0;
        while i < len
            invariant
                i <= len,
                len == data@.len(),
                self.window@ == old(self).window@ + data@.take(i as int),
                self.last_sent == old(self).last_sent,
            decreases len - i,
        {
            proof {
                assert((old(self).window@ + data@.take(i as int)).push(data@[i as int]) =~= old(
                    self,
                ).window@ + data@.take(i + 1));
            }
            self.window.push(data[i]);
            i = i + 1;
        }
        proof {
            assert(data@.take(len as int) =~= data@);
        }
    }

    /// True exactly when `pads` equals the last summary recorded as
    /// forwarded.
    pub fn same_as_last(&self, pads: &Vec<Rgb>) -> (r: bool)
        ensures
            r == (self.last_view() == Some(pads@)),
    {
        match &self.last_sent {
            None => false,
            Some(last) => pads_equal(last, pads),
        }
    }

    /// Records `pads` as the summary last forwarded to the light sink. The
    /// caller invokes this only after the sink accepted the summary, so a
    /// failed send is retried by the next differing poll.
    pub fn record_sent(&mut self, pads: Vec<Rgb>)
        requires
            old(self).wf(),
            pads@.len() == 8,
        ensures
            final(self).wf(),
            final(self).window_view() == old(self).window_view(),
            final(self).last_view() == Some(pads@),
    {
        self.last_sent = Some(pads);
    }

    /// Runs the synchronization loop once over the receive buffer: skips
    /// garbage before the first frame marker, drops one byte on a malformed
    /// header, stops on an incomplete frame, removes each decoded frame, and
    /// returns the first slider pad summary that differs from the last one
    /// recorded as forwarded, or `None` when the buffer is exhausted or
    /// waiting for more input. The buffer afterwards and the returned summary
    /// are exactly what `poll_spec` states.
    pub fn poll(&mut self) -> (r: Option<Vec<Rgb>>)
        requires
            old(self).wf(),
        ensures
            final(self).wf(),
            final(self).last_view() == old(self).last_view(),
            final(self).window_view() == poll_spec(
                old(self).window_view(),
                old(self).last_view(),
            ).window,
            (match r {
                Some(v) => Some(v@),
                None => None::<Seq<Rgb>>,
            }) == poll_spec(old(self).window_view(), old(self).last_view()).emit,
            r matches Some(v) ==> v@.len() == 8,
    {
        let ghost last0 = old(self).last_view();
        let ghost step0 = poll_spec(old(self).window_view(), last0);
        while self.window.len() > 0
            invariant
                self.wf(),
                self.last_view() == last0,
                poll_spec(self.window_view(), last0) == step0,
                last0 == old(self).last_view(),
                step0 == poll_spec(old(self).window_view(), old(self).last_view()),
            decreases self.window_view().len(),
        {
            let ghost w1 = self.window@;
            match find_marker_exec(&self.window) {
                None => {
                    return None;
                },
                Some(pos) => {
                    proof {
                        lemma_find_marker_props(w1);
                        lemma_poll_skip_to_marker(w1, last0, pos as int);
                    }
                    drop_front(&mut self.window, pos);
                    let ghost w2 = self.window@;
                    proof {
                        assert(w2[0] == LED_PACKET_FRAMING);
                        lemma_find_marker_unique(w2, 0);
                        assert(w2.skip(0) =~= w2);
                    }
                    match try_parse_packet(self.window.as_slice()) {
                        Err(DecodeError::Incomplete) => {
                            proof {
                                assert(poll_spec(w2, last0) == PollStep {
                                    window: w2,
                                    emit: None::<Seq<Rgb>>,
                                });
                            }
                            return None;
                        },
                        Err(DecodeError::Invalid) => {
                            proof {
                                assert(poll_spec(w2, last0) == poll_spec(w2.skip(1), last0));
                            }
                            drop_front(&mut self.window, 1);
                        },
                        Ok((packet, used)) => {
                            let ghost d = parse_payload(w2);
                            let ghost w3 = w2.skip(used as int);
                            proof {
                                assert(used as int == parse_used(w2));
                            }
                            drop_front(&mut self.window, used);
                            match packet.payload {
                                LedBoard::Slider(leds) => {
                                    proof {
                                        assert(w2[1] == 2);
                                        assert(leds@ =~= slider_of(d));
                                    }
                                    let pads = slider_to_drum_pads(&leds);
                                    proof {
                                        assert(pads@ =~= summary_of(d));
                                    }
                                    let dup = self.same_as_last(&pads);
                                    if !dup {
                                        proof {
                                            assert(poll_spec(w2, last0) == PollStep {
                                                window: w3,
                                                emit: Some(pads@),
                                            });
                                        }
                                        return Some(pads);
                                    }
                                    proof {
                                        assert(poll_spec(w2, last0) == poll_spec(w3, last0));
                                    }
                                },
                                LedBoard::BillboardLeft(..) => {
                                    proof {
                                        assert(w2[1] == 0);
                                        assert(poll_spec(w2, last0) == poll_spec(w3, last0));
                                    }
                                },
                                LedBoard::BillboardRight(..) => {
                                    proof {
                                        assert(w2[1] == 1);
                                        assert(poll_spec(w2, last0) == poll_spec(w3, last0));
                                    }
                                },
                            }
                        },
                    }
                },
            }
        }
        proof {
            assert(self.window_view().len() == 0);
            assert(find_marker(self.window_view()) == None::<int>);
        }
        None
    }
}

} // verus!
