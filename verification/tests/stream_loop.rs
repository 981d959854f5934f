use chunimidi::color::Rgb;
use chunimidi::stream::StreamDecoder;

/// A complete slider frame whose 31 LEDs all carry the same wire triple
/// `(b, r, g)`.
fn uniform_slider_frame(b: u8, r: u8, g: u8) -> Vec<u8> {
    let mut buf = vec![0xE0u8, 0x02];
    for _ in 0..31 {
        buf.push(b);
        buf.push(r);
        buf.push(g);
    }
    buf
}

#[test]
fn slider_frame_produces_summary() {
    let mut dec = StreamDecoder::new();
    dec.push_bytes(&uniform_slider_frame(1, 2, 3));
    let pads = dec.poll().expect("a summary should be emitted");
    assert_eq!(pads, vec![Rgb { r: 2, g: 3, b: 1 }; 8]);
    assert!(dec.poll().is_none());
}

#[test]
fn garbage_before_marker_is_skipped() {
    let mut dec = StreamDecoder::new();
    let mut bytes = vec![0x01u8, 0x42, 0x99, 0xD0, 0x17];
    bytes.extend_from_slice(&uniform_slider_frame(9, 8, 7));
    dec.push_bytes(&bytes);
    let pads = dec.poll().expect("the frame after the garbage should decode");
    assert_eq!(pads, vec![Rgb { r: 8, g: 7, b: 9 }; 8]);
}

#[test]
fn bad_header_resynchronizes_one_byte_at_a_time() {
    let mut dec = StreamDecoder::new();
    // A stray frame marker with a bad board byte, then a real frame.
    let mut bytes = vec![0xE0u8, 0x47];
    bytes.extend_from_slice(&uniform_slider_frame(5, 6, 7));
    dec.push_bytes(&bytes);
    let pads = dec.poll().expect("the real frame should decode");
    assert_eq!(pads, vec![Rgb { r: 6, g: 7, b: 5 }; 8]);
}

#[test]
fn incomplete_frame_waits_for_more_bytes() {
    let mut dec = StreamDecoder::new();
    let frame = uniform_slider_frame(10, 20, 30);
    dec.push_bytes(&frame[..40]);
    assert!(dec.poll().is_none());
    dec.push_bytes(&frame[40..]);
    let pads = dec.poll().expect("the completed frame should decode");
    assert_eq!(pads, vec![Rgb { r: 20, g: 30, b: 10 }; 8]);
}

#[test]
fn identical_summaries_are_emitted_only_once() {
    let mut dec = StreamDecoder::new();
    dec.push_bytes(&uniform_slider_frame(1, 2, 3));
    let pads = dec.poll().expect("first summary should be emitted");
    dec.record_sent(pads);
    // The same pad state again: deduplicated.
    dec.push_bytes(&uniform_slider_frame(1, 2, 3));
    assert!(dec.poll().is_none());
    // A differing state goes through.
    dec.push_bytes(&uniform_slider_frame(4, 5, 6));
    let pads2 = dec.poll().expect("a differing summary should be emitted");
    assert_eq!(pads2, vec![Rgb { r: 5, g: 6, b: 4 }; 8]);
}

#[test]
fn unsent_summary_is_offered_again() {
    // If the sink rejected the first summary, nothing is recorded, and the
    // same pad state is offered again on the next frame.
    let mut dec = StreamDecoder::new();
    dec.push_bytes(&uniform_slider_frame(1, 2, 3));
    let first = dec.poll().expect("first summary should be emitted");
    dec.push_bytes(&uniform_slider_frame(1, 2, 3));
    let second = dec.poll().expect("unrecorded summary should be offered again");
    assert_eq!(first, second);
}

#[test]
fn billboard_frames_emit_nothing() {
    let mut dec = StreamDecoder::new();
    let mut buf = vec![0xE0u8, 0x00];
    for _ in 0..159 {
        buf.push(0x10);
    }
    dec.push_bytes(&buf);
    assert!(dec.poll().is_none());
}
