use vstd::prelude::*;
use crate::color::Rgb;

verus! {

/// Leading byte of every frame on the wire.
pub const LED_PACKET_FRAMING: u8 = 0xE0;
/// Escape marker: the byte after it is stuffed and decodes to its value plus one.
pub const LED_PACKET_ESCAPE: u8 = 0xD0;
/// Number of board indices the protocol addresses.
pub const LED_BOARDS_TOTAL: u8 = 3;

/// A decode attempt that did not produce a packet: either the header is
/// malformed (`Invalid`, resynchronize by dropping a byte) or the buffer does
/// not yet hold the whole frame (`Incomplete`, wait for more input).
#[derive(Debug, Clone, Copy, PartialEq, Eq, Structural)]
pub enum DecodeError {
    Invalid,
    Incomplete,
}

/// The payload of one frame, shaped by the board it addresses.
///
/// Board 0 (billboard left) is allotted 159 decoded bytes on the wire, which
/// is exactly its 53 main colors; no side colors fit in that budget, so its
/// side array is always empty. Board 1 (billboard right) is allotted 189
/// decoded bytes = 63 colors: 60 main plus 3 side. Board 2 (slider) carries
/// 31 colors, stored here in physical order, which is the reverse of wire
/// order.
#[derive(Debug)]
pub enum LedBoard {
    BillboardLeft(Vec<Rgb>, Vec<Rgb>),
    BillboardRight(Vec<Rgb>, Vec<Rgb>),
    Slider(Vec<Rgb>),
}

/// A decoded frame: the board index it addresses and its payload.
#[derive(Debug)]
pub struct LedPacket {
    pub board: u8,
    pub payload: LedBoard,
}

/// Decoded value of the byte that follows an escape marker.
pub open spec fn unescape(b: u8) -> u8 {
    ((b as int + 1) % 256) as u8
}

/// Wire value that a stuffed byte is written as: the inverse of `unescape`.
pub open spec fn wrap_dec(b: u8) -> u8 {
    ((b as int + 255) % 256) as u8
}

/// Bytes that carry protocol meaning and are therefore stuffed by an encoder.
pub open spec fn needs_escape(b: u8) -> bool {
    b == LED_PACKET_FRAMING || b == LED_PACKET_ESCAPE
}

/// The canonical byte-stuffing encoder: protocol-significant bytes are
/// replaced by the escape marker followed by the value decremented by one
/// (wrapping), all other bytes are copied verbatim.
pub open spec fn stuff(p: Seq<u8>) -> Seq<u8>
    decreases p.len(),
{
    if p.len() == 0 {
        Seq::empty()
    } else if needs_escape(p[0]) {
        seq![LED_PACKET_ESCAPE, wrap_dec(p[0])] + stuff(p.skip(1))
    } else {
        seq![p[0]] + stuff(p.skip(1))
    }
}

/// De-stuffed bytes of `s`, scanning left to right and stopping as soon as
/// `target` decoded bytes have been produced or the input runs out. An escape
/// marker standing last in the input contributes nothing.
pub open spec fn scan_decoded(s: Seq<u8>, target: int) -> Seq<u8>
    decreases s.len(),
{
    if target <= 0 || s.len() == 0 {
        Seq::empty()
    } else if s[0] == LED_PACKET_ESCAPE {
        if s.len() == 1 {
            Seq::empty()
        } else {
            seq![unescape(s[1])] + scan_decoded(s.skip(2), target - 1)
        }
    } else {
        seq![s[0]] + scan_decoded(s.skip(1), target - 1)
    }
}

/// Raw input bytes consumed by the scan of `scan_decoded(s, target)`.
pub open spec fn scan_used(s: Seq<u8>, target: int) -> int
    decreases s.len(),
{
    if target <= 0 || s.len() == 0 {
        0
    } else if s[0] == LED_PACKET_ESCAPE {
        if s.len() == 1 {
            1
        } else {
            2 + scan_used(s.skip(2), target - 1)
        }
    } else {
        1 + scan_used(s.skip(1), target - 1)
    }
}

/// De-stuffing a whole slice never produces more bytes than it reads, so a
/// target of the input length never cuts the scan short: this is the plain
/// de-stuffer over all of `s`.
pub open spec fn destuff_all(s: Seq<u8>) -> Seq<u8> {
    scan_decoded(s, s.len() as int)
}

/// Expected decoded payload length for each board index: LED count times
/// three channels.
pub open spec fn board_data_len(board: int) -> int {
    if board == 0 {
        159
    } else if board == 1 {
        189
    } else {
        93
    }
}

/// The color stored in decoded triple `i`: the wire stores channels in the
/// order blue, red, green.
pub open spec fn rgb_at(d: Seq<u8>, i: int) -> Rgb {
    Rgb { r: d[3 * i + 1], g: d[3 * i + 2], b: d[3 * i] }
}

/// The header conditions under which a decode attempt fails as `Invalid`:
/// fewer than two bytes, a first byte that is not the frame marker, or a
/// board index the protocol does not address.
pub open spec fn header_invalid(buf: Seq<u8>) -> bool {
    buf.len() < 2 || buf[0] != LED_PACKET_FRAMING || buf[1] >= LED_BOARDS_TOTAL
}

/// The decoded payload that a decode attempt on `buf` scans out (meaningful
/// when the header is well formed).
pub open spec fn parse_payload(buf: Seq<u8>) -> Seq<u8> {
    scan_decoded(buf.skip(2), board_data_len(buf[1] as int))
}

/// A decode attempt on `buf` fails as `Incomplete`: the header is well formed
/// but the buffer runs out before the board's decoded length is reached
/// (including the case of a trailing escape marker with no byte after it).
pub open spec fn parse_incomplete(buf: Seq<u8>) -> bool {
    &&& !header_invalid(buf)
    &&& parse_payload(buf).len() < board_data_len(buf[1] as int)
}

/// A decode attempt on `buf` succeeds.
pub open spec fn parse_ok(buf: Seq<u8>) -> bool {
    &&& !header_invalid(buf)
    &&& !parse_incomplete(buf)
}

/// Total raw bytes a successful decode attempt on `buf` consumes: the frame
/// marker, the board byte, and every scanned payload byte including escape
/// markers.
pub open spec fn parse_used(buf: Seq<u8>) -> int {
    2 + scan_used(buf.skip(2), board_data_len(buf[1] as int))
}

/// `payload` is the correct shaping of the decoded byte sequence `d` for
/// `board`: billboards split into main and side colors in order, the slider
/// is reversed into physical order.
pub open spec fn payload_matches(payload: LedBoard, board: int, d: Seq<u8>) -> bool {
    match payload {
        LedBoard::BillboardLeft(main, side) => {
            &&& board == 0
            &&& main@.len() == 53
            &&& side@.len() == 0
            &&& forall|i: int| 0 <= i < 53 ==> main@[i] == rgb_at(d, i)
        },
        LedBoard::BillboardRight(main, side) => {
            &&& board == 1
            &&& main@.len() == 60
            &&& side@.len() == 3
            &&& forall|i: int| 0 <= i < 60 ==> main@[i] == rgb_at(d, i)
            &&& forall|i: int| 0 <= i < 3 ==> side@[i] == rgb_at(d, 60 + i)
        },
        LedBoard::Slider(leds) => {
            &&& board == 2
            &&& leds@.len() == 31
            &&& forall|i: int| 0 <= i < 31 ==> leds@[i] == rgb_at(d, 30 - i)
        },
    }
}

/// Removes escape sequences from a raw slice: bytes are copied verbatim,
/// except that an escape marker is dropped and the byte after it is emitted
/// incremented by one (wrapping). An escape marker standing last in the slice
/// is dropped without a substitute; detecting that as an incomplete read is
/// the frame decoder's job, not this function's.
pub fn destuff(data: &[u8]) -> (r: Vec<u8>)
    ensures
        r@ == destuff_all(data@),
{
    let ghost s = data@;
    let mut r: Vec<u8> = Vec::new();
    let mut i: usize = 0;
    proof {
        assert(s.skip(0) =~= s);
        assert(Seq::<u8>::empty() + scan_decoded(s, s.len() as int) =~= scan_decoded(
            s,
            s.len() as int,
        ));
    }
    while i < data.len()
        invariant
            i <= s.len(),
            r@.len() <= i,
            s == data@,
            destuff_all(s) == r@ + scan_decoded(s.skip(i as int), s.len() - r@.len()),
        decreases s.len() - i,
    {
        proof {
            assert(s.len() - r@.len() > 0);
        }
        let b = data[i];
        if b == LED_PACKET_ESCAPE {
            if i + 1 >= data.len() {
                proof {
                    assert(s.skip(i as int).len() == 1);
                    assert(r@ + scan_decoded(s.skip(i as int), s.len() - r@.len()) =~= r@);
                }
                return r;
            }
            let f = data[i + 1];
            let v = if f == 255 { 0 } else { f + 1 };
            proof {
                assert(v == unescape(f));
                assert(s.skip(i as int)[0] == b);
                assert(s.skip(i as int)[1] == f);
                assert(s.skip(i as int).skip(2) =~= s.skip(i + 2));
                assert(scan_decoded(s.skip(i as int), s.len() - r@.len()) == seq![v] + scan_decoded(
                    s.skip(i + 2),
                    s.len() - r@.len() - 1,
                ));
                assert(r@ + (seq![v] + scan_decoded(s.skip(i + 2), s.len() - r@.len() - 1)) =~= (r@
                    + seq![v]) + scan_decoded(s.skip(i + 2), s.len() - r@.len() - 1));
            }
            r.push(v);
            i = i + 2;
        } else {
            proof {
                assert(s.skip(i as int)[0] == b);
                assert(s.skip(i as int).skip(1) =~= s.skip(i + 1));
                assert(r@ + (seq![b] + scan_decoded(s.skip(i + 1), s.len() - r@.len() - 1)) =~= (r@
                    + seq![b]) + scan_decoded(s.skip(i + 1), s.len() - r@.len() - 1));
            }
            r.push(b);
            i = i + 1;
        }
    }
    proof {
        assert(s.skip(i as int).len() == 0);
        assert(r@ + scan_decoded(s.skip(i as int), s.len() - r@.len()) =~= r@);
    }
    r
}

/// Groups a flat decoded byte sequence into colors, three bytes per color in
/// wire channel order (blue, red, green); a truncated trailing group of fewer
/// than three bytes is dropped.
pub fn bytes_to_rgb_vec(data: &[u8]) -> (r: Vec<Rgb>)
    ensures
        r@.len() == data@.len() / 3,
        forall|i: int| 0 <= i < r@.len() ==> r@[i] == rgb_at(data@, i),
{
    let len = data.len();
    let n = len / 3;
    let mut r: Vec<Rgb> = Vec::new();
    let mut i: usize = 0;
    while i < n
        invariant
            i <= n,
            len == data@.len(),
            n == data@.len() / 3,
            3 * n <= len,
            r@.len() == i,
            forall|j: int| 0 <= j < i ==> r@[j] == rgb_at(data@, j),
        decreases n - i,
    {
        let c = Rgb { r: data[3 * i + 1], g: data[3 * i + 2], b: data[3 * i] };
        r.push(c);
        i = i + 1;
    }
    r
}

/// Copies `count` colors of `v` starting at `start` into a fresh vector.
fn sub_colors(v: &Vec<Rgb>, start: usize, count: usize) -> (r: Vec<Rgb>)
    requires
        start + count <= v@.len(),
    ensures
        r@.len() == count,
        forall|i: int| 0 <= i < count ==> r@[i] == v@[start + i],
{
    let vlen = v.len();
    let mut r: Vec<Rgb> = Vec::new();
    let mut i: usize = 0;
    while i < count
        invariant
            i <= count,
            vlen == v@.len(),
            start + count <= vlen,
            r@.len() == i,
            forall|j: int| 0 <= j < i ==> r@[j] == v@[start + j],
        decreases count - i,
    {
        r.push(v[start + i]);
        i = i + 1;
    }
    r
}

/// Returns the colors of `leds` in reverse order: physical LED 0 of the
/// slider is the last element in wire order.
pub fn reverse_slider_leds(leds: Vec<Rgb>) -> (r: Vec<Rgb>)
    ensures
        r@.len() == leds@.len(),
        forall|i: int| 0 <= i < r@.len() ==> r@[i] == leds@[leds@.len() - 1 - i],
{
    let n = leds.len();
    let mut r: Vec<Rgb> = Vec::new();
    let mut i: usize = 0;
    while i < n
        invariant
            i <= n,
            n == leds@.len(),
            r@.len() == i,
            forall|j: int| 0 <= j < i ==> r@[j] == leds@[n - 1 - j],
        decreases n - i,
    {
        r.push(leds[n - 1 - i]);
        i = i + 1;
    }
    r
}

/// Attempts one decode against the head of the receive buffer.
///
/// Fails as `Invalid` exactly when the header is malformed: fewer than two
/// bytes, a first byte other than the frame marker, or a board index of three
/// or more. Fails as `Incomplete` exactly when the header is well formed but
/// the buffer runs out before the board's decoded length is reached. On
/// success, returns the packet together with the total number of raw bytes
/// consumed, never consuming beyond the scanned frame.
pub fn try_parse_packet(buf: &[u8]) -> (r: Result<(LedPacket, usize), DecodeError>)
    ensures
        (r == Err::<(LedPacket, usize), DecodeError>(DecodeError::Invalid)) <==> header_invalid(
            buf@,
        ),
        (r == Err::<(LedPacket, usize), DecodeError>(DecodeError::Incomplete)) <==> parse_incomplete(
            buf@,
        ),
        r matches Ok(p) ==> {
            &&& parse_ok(buf@)
            &&& p.0.board == buf@[1]
            &&& payload_matches(p.0.payload, buf@[1] as int, parse_payload(buf@))
            &&& p.1 == parse_used(buf@)
            &&& 2 <= p.1 <= buf@.len()
        },
{
    let ghost s = buf@;
    if buf.len() < 2 || buf[0] != LED_PACKET_FRAMING {
        return Err(DecodeError::Invalid);
    }
    let board = buf[1];
    if board >= LED_BOARDS_TOTAL {
        return Err(DecodeError::Invalid);
    }
    let expected_data_len: usize = if board == 0 {
        159
    } else if board == 1 {
        189
    } else {
        93
    };
    let ghost target = board_data_len(board as int);
    let mut decoded: Vec<u8> = Vec::new();
    let mut i: usize = 2;
    while i < buf.len() && decoded.len() < expected_data_len
        invariant
            2 <= i <= s.len(),
            s == buf@,
            s.len() >= 2,
            s[0] == LED_PACKET_FRAMING,
            board == s[1],
            board < LED_BOARDS_TOTAL,
            expected_data_len == target,
            target == board_data_len(board as int),
            decoded@.len() <= expected_data_len,
            decoded@.len() <= i - 2,
            scan_decoded(s.skip(2), target) == decoded@ + scan_decoded(
                s.skip(i as int),
                target - decoded@.len(),
            ),
            scan_used(s.skip(2), target) == (i - 2) + scan_used(
                s.skip(i as int),
                target - decoded@.len(),
            ),
        decreases s.len() - i,
    {
        let b = buf[i];
        if b == LED_PACKET_ESCAPE {
            if i + 1 >= buf.len() {
                proof {
                    assert(s.skip(i as int).len() == 1);
                    assert(s.skip(i as int)[0] == b);
                    assert(scan_decoded(s.skip(i as int), target - decoded@.len())
                        == Seq::<u8>::empty());
                    assert(parse_payload(s) =~= decoded@);
                }
                return Err(DecodeError::Incomplete);
            }
            let f = buf[i + 1];
            let v = if f == 255 { 0 } else { f + 1 };
            proof {
                assert(v == unescape(f));
                assert(s.skip(i as int)[0] == b);
                assert(s.skip(i as int)[1] == f);
                assert(s.skip(i as int).skip(2) =~= s.skip(i + 2));
                assert(decoded@ + (seq![v] + scan_decoded(s.skip(i + 2), target - decoded@.len() - 1))
                    =~= (decoded@ + seq![v]) + scan_decoded(s.skip(i + 2), target - decoded@.len() - 1));
            }
            decoded.push(v);
            i = i + 2;
        } else {
            proof {
                assert(s.skip(i as int)[0] == b);
                assert(s.skip(i as int).skip(1) =~= s.skip(i + 1));
                assert(decoded@ + (seq![b] + scan_decoded(s.skip(i + 1), target - decoded@.len() - 1))
                    =~= (decoded@ + seq![b]) + scan_decoded(s.skip(i + 1), target - decoded@.len() - 1));
            }
            decoded.push(b);
            i = i + 1;
        }
    }
    if decoded.len() < expected_data_len {
        proof {
            assert(s.skip(i as int).len() == 0);
            assert(scan_decoded(s.skip(i as int), target - decoded@.len()) == Seq::<u8>::empty());
            assert(parse_payload(s) =~= decoded@);
        }
        return Err(DecodeError::Incomplete);
    }
    proof {
        assert(decoded@.len() == target);
        assert(scan_decoded(s.skip(i as int), 0) == Seq::<u8>::empty());
        assert(scan_used(s.skip(i as int), 0) == 0);
        assert(parse_payload(s) =~= decoded@);
        assert(parse_used(s) == i);
    }
    let rgb_vec = bytes_to_rgb_vec(decoded.as_slice());
    let payload = if board == 0 {
        let main = sub_colors(&rgb_vec, 0, 53);
        let side: Vec<Rgb> = Vec::new();
        LedBoard::BillboardLeft(main, side)
    } else if board == 1 {
        let main = sub_colors(&rgb_vec, 0, 60);
        let side = sub_colors(&rgb_vec, 60, 3);
        LedBoard::BillboardRight(main, side)
    } else {
        LedBoard::Slider(reverse_slider_leds(rgb_vec))
    };
    Ok((LedPacket { board, payload }, i))
}

/// Law: the byte-stuffing encoder and the de-stuffing scan round-trip
/// losslessly. Scanning the stuffed form of any payload for exactly the
/// payload's length yields the payload back (so in particular the decoded
/// length equals the payload length), and consumes exactly the stuffed bytes.
pub proof fn lemma_stuff_roundtrip(p: Seq<u8>)
    ensures
        scan_decoded(stuff(p), p.len() as int) == p,
        scan_decoded(stuff(p), p.len() as int).len() == p.len(),
        scan_used(stuff(p), p.len() as int) == stuff(p).len(),
    decreases p.len(),
{
    if p.len() == 0 {
        assert(scan_decoded(stuff(p), 0) =~= p);
    } else {
        lemma_stuff_roundtrip(p.skip(1));
        let t = stuff(p);
        if needs_escape(p[0]) {
            assert(t == seq![LED_PACKET_ESCAPE, wrap_dec(p[0])] + stuff(p.skip(1)));
            assert(t[0] == LED_PACKET_ESCAPE);
            assert(t[1] == wrap_dec(p[0]));
            assert(t.len() >= 2);
            assert(t.skip(2) =~= stuff(p.skip(1)));
            assert(unescape(wrap_dec(p[0])) == p[0]) by {
                let v = p[0] as int;
                assert((v + 255) % 256 == if v == 0 {
                    255int
                } else {
                    v - 1
                });
                assert(((if v == 0 {
                    255int
                } else {
                    v - 1
                }) + 1) % 256 == v);
            }
            assert(scan_decoded(t, p.len() as int) == seq![p[0]] + scan_decoded(
                stuff(p.skip(1)),
                p.len() - 1,
            ));
            assert(seq![p[0]] + p.skip(1) =~= p);
        } else {
            assert(t == seq![p[0]] + stuff(p.skip(1)));
            assert(t[0] == p[0]);
            assert(t[0] != LED_PACKET_ESCAPE);
            assert(t.skip(1) =~= stuff(p.skip(1)));
            assert(scan_decoded(t, p.len() as int) == seq![p[0]] + scan_decoded(
                stuff(p.skip(1)),
                p.len() - 1,
            ));
            assert(seq![p[0]] + p.skip(1) =~= p);
        }
    }
}

/// Law: framing a stuffed payload of a board's exact decoded length yields a
/// buffer that decodes successfully back to that payload, consuming the whole
/// frame.
pub proof fn lemma_frame_roundtrip(board: u8, p: Seq<u8>)
    requires
        board < LED_BOARDS_TOTAL,
        p.len() == board_data_len(board as int),
    ensures
        ({
            let frame = seq![LED_PACKET_FRAMING, board] + stuff(p);
            &&& parse_ok(frame)
            &&& parse_payload(frame) == p
            &&& parse_used(frame) == frame.len()
        }),
{
    let frame = seq![LED_PACKET_FRAMING, board] + stuff(p);
    assert(frame[0] == LED_PACKET_FRAMING);
    assert(frame[1] == board);
    assert(frame.skip(2) =~= stuff(p));
    lemma_stuff_roundtrip(p);
}

/// Law: a frame whose board byte addresses no known board is rejected as
/// `Invalid`, whatever bytes follow the header.
pub proof fn lemma_bad_board_invalid(buf: Seq<u8>)
    requires
        buf.len() >= 2,
        buf[1] >= LED_BOARDS_TOTAL,
    ensures
        header_invalid(buf),
        !parse_incomplete(buf),
        !parse_ok(buf),
{
}

} // verus!
