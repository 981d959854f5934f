use chunimidi::codec::{bytes_to_rgb_vec, destuff, reverse_slider_leds, try_parse_packet};
use chunimidi::codec::{DecodeError, LedBoard};
use chunimidi::color::Rgb;

/// Byte-stuffs a payload the way the wire format prescribes: protocol
/// bytes (0xE0, 0xD0) are written as the escape marker followed by the
/// value minus one, wrapping.
fn stuff_bytes(payload: &[u8]) -> Vec<u8> {
    let mut out = Vec::new();
    for &b in payload {
        if b == 0xE0 || b == 0xD0 {
            out.push(0xD0);
            out.push(b.wrapping_sub(1));
        } else {
            out.push(b);
        }
    }
    out
}

#[test]
fn destuff_roundtrips_plain_bytes() {
    let payload: Vec<u8> = (0u8..100).collect();
    let encoded = stuff_bytes(&payload);
    assert_eq!(destuff(&encoded), payload);
}

#[test]
fn destuff_roundtrips_edge_bytes() {
    // Protocol-significant values and the wrap case 0xFF.
    let payload = vec![0xD0u8, 0xE0, 0xFF, 0x00, 0xCF, 0xDF, 0xD0, 0xE0];
    let encoded = stuff_bytes(&payload);
    assert_eq!(destuff(&encoded).len(), payload.len());
    assert_eq!(destuff(&encoded), payload);
}

#[test]
fn destuff_escaped_ff_wraps_to_zero() {
    assert_eq!(destuff(&[0xD0, 0xFF]), vec![0x00]);
}

#[test]
fn destuff_drops_trailing_escape() {
    assert_eq!(destuff(&[1, 2, 0xD0]), vec![1, 2]);
}

#[test]
fn bytes_to_rgb_vec_reorders_channels_and_drops_partial_triple() {
    let rgb = bytes_to_rgb_vec(&[1, 2, 3, 4, 5, 6, 7]);
    assert_eq!(rgb.len(), 2);
    assert_eq!(rgb[0], Rgb { r: 2, g: 3, b: 1 });
    assert_eq!(rgb[1], Rgb { r: 5, g: 6, b: 4 });
}

#[test]
fn reverse_slider_leds_reverses() {
    let leds: Vec<Rgb> = (0u8..31).map(|i| Rgb { r: i, g: 0, b: 0 }).collect();
    let rev = reverse_slider_leds(leds);
    assert_eq!(rev.len(), 31);
    assert_eq!(rev[0].r, 30);
    assert_eq!(rev[30].r, 0);
}

#[test]
fn slider_frame_decodes_with_reversal_and_reorder() {
    // Frame marker, board 2, then 93 distinct byte values with no
    // 0xD0/0xE0 present.
    let mut buf = vec![0xE0u8, 0x02];
    for v in 0u8..93 {
        buf.push(v);
    }
    let (packet, used) = try_parse_packet(&buf).expect("frame should decode");
    assert_eq!(used, 95);
    assert_eq!(packet.board, 2);
    match packet.payload {
        LedBoard::Slider(leds) => {
            assert_eq!(leds.len(), 31);
            // Physical index 0 is wire triple 30 (bytes 90,91,92), with the
            // wire channel order blue, red, green.
            assert_eq!(leds[0], Rgb { r: 91, g: 92, b: 90 });
            // Physical index 30 is wire triple 0 (bytes 0,1,2).
            assert_eq!(leds[30], Rgb { r: 1, g: 2, b: 0 });
        }
        _ => panic!("expected a slider payload"),
    }
}

#[test]
fn one_short_frame_is_incomplete_then_decodes() {
    let mut buf = vec![0xE0u8, 0x02];
    for v in 0u8..92 {
        buf.push(v);
    }
    assert!(matches!(try_parse_packet(&buf), Err(DecodeError::Incomplete)));
    buf.push(92);
    let (packet, used) = try_parse_packet(&buf).expect("frame should decode");
    assert_eq!(used, 95);
    assert_eq!(packet.board, 2);
}

#[test]
fn dangling_escape_is_incomplete() {
    let mut buf = vec![0xE0u8, 0x02];
    for v in 0u8..92 {
        buf.push(v);
    }
    buf.push(0xD0);
    assert!(matches!(try_parse_packet(&buf), Err(DecodeError::Incomplete)));
}

#[test]
fn board_byte_three_or_more_is_invalid_whatever_follows() {
    assert!(matches!(
        try_parse_packet(&[0xE0, 0x03]),
        Err(DecodeError::Invalid)
    ));
    let mut buf = vec![0xE0u8, 0x03];
    for v in 0u8..200 {
        buf.push(v);
    }
    assert!(matches!(try_parse_packet(&buf), Err(DecodeError::Invalid)));
    let mut buf2 = vec![0xE0u8, 0xFF];
    buf2.extend_from_slice(&[1, 2, 3]);
    assert!(matches!(try_parse_packet(&buf2), Err(DecodeError::Invalid)));
}

#[test]
fn short_or_unsynchronized_buffers_are_invalid() {
    assert!(matches!(try_parse_packet(&[]), Err(DecodeError::Invalid)));
    assert!(matches!(try_parse_packet(&[0xE0]), Err(DecodeError::Invalid)));
    assert!(matches!(
        try_parse_packet(&[0x12, 0x02, 0xE0]),
        Err(DecodeError::Invalid)
    ));
}

#[test]
fn escaped_slider_frame_roundtrips() {
    // A payload holding every kind of awkward byte, stuffed onto the wire.
    let mut payload = Vec::new();
    for i in 0u8..93 {
        payload.push(match i % 4 {
            0 => 0xE0,
            1 => 0xD0,
            2 => 0xFF,
            _ => i,
        });
    }
    let mut buf = vec![0xE0u8, 0x02];
    let stuffed = stuff_bytes(&payload);
    buf.extend_from_slice(&stuffed);
    let (packet, used) = try_parse_packet(&buf).expect("frame should decode");
    assert_eq!(used, 2 + stuffed.len());
    match packet.payload {
        LedBoard::Slider(leds) => {
            // Physical LED 30 is wire triple 0: payload bytes 0,1,2.
            assert_eq!(
                leds[30],
                Rgb { r: payload[1], g: payload[2], b: payload[0] }
            );
        }
        _ => panic!("expected a slider payload"),
    }
}

#[test]
fn billboard_frames_decode_into_their_shapes() {
    // Board 0: 159 decoded bytes = 53 colors, all main; the wire allots it
    // no side colors.
    let mut buf0 = vec![0xE0u8, 0x00];
    for i in 0..159u16 {
        buf0.push((i % 0xC0) as u8);
    }
    let (packet0, used0) = try_parse_packet(&buf0).expect("board 0 should decode");
    assert_eq!(used0, 161);
    assert_eq!(packet0.board, 0);
    match packet0.payload {
        LedBoard::BillboardLeft(main, side) => {
            assert_eq!(main.len(), 53);
            assert_eq!(side.len(), 0);
            assert_eq!(main[0], Rgb { r: 1, g: 2, b: 0 });
        }
        _ => panic!("expected a left billboard payload"),
    }

    // Board 1: 189 decoded bytes = 63 colors: 60 main, 3 side.
    let mut buf1 = vec![0xE0u8, 0x01];
    for i in 0..189u16 {
        buf1.push((i % 0xC0) as u8);
    }
    let (packet1, used1) = try_parse_packet(&buf1).expect("board 1 should decode");
    assert_eq!(used1, 191);
    assert_eq!(packet1.board, 1);
    match packet1.payload {
        LedBoard::BillboardRight(main, side) => {
            assert_eq!(main.len(), 60);
            assert_eq!(side.len(), 3);
            // Side color 0 is decoded triple 60: bytes 180,181,182.
            assert_eq!(
                side[0],
                Rgb {
                    r: (181 % 0xC0) as u8,
                    g: (182 % 0xC0) as u8,
                    b: (180 % 0xC0) as u8
                }
            );
        }
        _ => panic!("expected a right billboard payload"),
    }
}
