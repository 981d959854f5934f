use vstd::prelude::*;
use crate::color::Rgb;

verus! {

/// Number of entries in the controller's color palette; a pad velocity is an
/// index into it.
pub const PALETTE_SIZE: u8 = 52;

/// The controller's fixed color palette: the color that pad velocity `i`
/// lights.
pub open spec fn palette_rgb(i: int) -> Rgb {
    if i == 0 {
        Rgb { r: 0, g: 0, b: 0 }
    } else if i == 1 {
        Rgb { r: 128, g: 128, b: 128 }
    } else if i == 2 {
        Rgb { r: 192, g: 192, b: 192 }
    } else if i == 3 {
        Rgb { r: 255, g: 255, b: 255 }
    } else if i == 4 {
        Rgb { r: 255, g: 192, b: 192 }
    } else if i == 5 {
        Rgb { r: 255, g: 0, b: 0 }
    } else if i == 6 {
        Rgb { r: 192, g: 0, b: 0 }
    } else if i == 7 {
        Rgb { r: 128, g: 0, b: 0 }
    } else if i == 8 {
        Rgb { r: 255, g: 192, b: 128 }
    } else if i == 9 {
        Rgb { r: 255, g: 128, b: 0 }
    } else if i == 10 {
        Rgb { r: 192, g: 96, b: 0 }
    } else if i == 11 {
        Rgb { r: 128, g: 64, b: 0 }
    } else if i == 12 {
        Rgb { r: 255, g: 255, b: 128 }
    } else if i == 13 {
        Rgb { r: 255, g: 255, b: 0 }
    } else if i == 14 {
        Rgb { r: 192, g: 192, b: 0 }
    } else if i == 15 {
        Rgb { r: 128, g: 128, b: 0 }
    } else if i == 16 {
        Rgb { r: 192, g: 255, b: 128 }
    } else if i == 17 {
        Rgb { r: 128, g: 255, b: 0 }
    } else if i == 18 {
        Rgb { r: 96, g: 192, b: 0 }
    } else if i == 19 {
        Rgb { r: 64, g: 128, b: 0 }
    } else if i == 20 {
        Rgb { r: 192, g: 255, b: 192 }
    } else if i == 21 {
        Rgb { r: 0, g: 255, b: 0 }
    } else if i == 22 {
        Rgb { r: 0, g: 192, b: 0 }
    } else if i == 23 {
        Rgb { r: 0, g: 128, b: 0 }
    } else if i == 24 {
        Rgb { r: 128, g: 255, b: 192 }
    } else if i == 25 {
        Rgb { r: 0, g: 255, b: 128 }
    } else if i == 26 {
        Rgb { r: 0, g: 192, b: 96 }
    } else if i == 27 {
        Rgb { r: 0, g: 128, b: 64 }
    } else if i == 28 {
        Rgb { r: 128, g: 255, b: 255 }
    } else if i == 29 {
        Rgb { r: 0, g: 255, b: 255 }
    } else if i == 30 {
        Rgb { r: 0, g: 192, b: 192 }
    } else if i == 31 {
        Rgb { r: 0, g: 128, b: 128 }
    } else if i == 32 {
        Rgb { r: 128, g: 192, b: 255 }
    } else if i == 33 {
        Rgb { r: 0, g: 128, b: 255 }
    } else if i == 34 {
        Rgb { r: 0, g: 96, b: 192 }
    } else if i == 35 {
        Rgb { r: 0, g: 64, b: 128 }
    } else if i == 36 {
        Rgb { r: 128, g: 128, b: 255 }
    } else if i == 37 {
        Rgb { r: 0, g: 0, b: 255 }
    } else if i == 38 {
        Rgb { r: 0, g: 0, b: 192 }
    } else if i == 39 {
        Rgb { r: 0, g: 0, b: 128 }
    } else if i == 40 {
        Rgb { r: 192, g: 128, b: 255 }
    } else if i == 41 {
        Rgb { r: 128, g: 0, b: 255 }
    } else if i == 42 {
        Rgb { r: 96, g: 0, b: 192 }
    } else if i == 43 {
        Rgb { r: 64, g: 0, b: 128 }
    } else if i == 44 {
        Rgb { r: 255, g: 128, b: 255 }
    } else if i == 45 {
        Rgb { r: 255, g: 0, b: 255 }
    } else if i == 46 {
        Rgb { r: 192, g: 0, b: 192 }
    } else if i == 47 {
        Rgb { r: 128, g: 0, b: 128 }
    } else if i == 48 {
        Rgb { r: 255, g: 128, b: 192 }
    } else if i == 49 {
        Rgb { r: 255, g: 0, b: 128 }
    } else if i == 50 {
        Rgb { r: 192, g: 0, b: 96 }
    } else {
        Rgb { r: 128, g: 0, b: 64 }
    }
}

/// Squared Euclidean distance between two colors in RGB space. Comparing
/// squared distances orders colors exactly as comparing the distances
/// themselves, since squaring is strictly monotonic on non-negative values.
pub open spec fn dist2(a: Rgb, b: Rgb) -> int {
    (a.r - b.r) * (a.r - b.r) + (a.g - b.g) * (a.g - b.g) + (a.b - b.b) * (a.b - b.b)
}

/// The palette entry for velocity `i`.
fn palette_color(i: u8) -> (c: Rgb)
    requires
        i < PALETTE_SIZE,
    ensures
        c == palette_rgb(i as int),
{
    if i == 0 {
        Rgb { r: 0, g: 0, b: 0 }
    } else if i == 1 {
        Rgb { r: 128, g: 128, b: 128 }
    } else if i == 2 {
        Rgb { r: 192, g: 192, b: 192 }
    } else if i == 3 {
        Rgb { r: 255, g: 255, b: 255 }
    } else if i == 4 {
        Rgb { r: 255, g: 192, b: 192 }
    } else if i == 5 {
        Rgb { r: 255, g: 0, b: 0 }
    } else if i == 6 {
        Rgb { r: 192, g: 0, b: 0 }
    } else if i == 7 {
        Rgb { r: 128, g: 0, b: 0 }
    } else if i == 8 {
        Rgb { r: 255, g: 192, b: 128 }
    } else if i == 9 {
        Rgb { r: 255, g: 128, b: 0 }
    } else if i == 10 {
        Rgb { r: 192, g: 96, b: 0 }
    } else if i == 11 {
        Rgb { r: 128, g: 64, b: 0 }
    } else if i == 12 {
        Rgb { r: 255, g: 255, b: 128 }
    } else if i == 13 {
        Rgb { r: 255, g: 255, b: 0 }
    } else if i == 14 {
        Rgb { r: 192, g: 192, b: 0 }
    } else if i == 15 {
        Rgb { r: 128, g: 128, b: 0 }
    } else if i == 16 {
        Rgb { r: 192, g: 255, b: 128 }
    } else if i == 17 {
        Rgb { r: 128, g: 255, b: 0 }
    } else if i == 18 {
        Rgb { r: 96, g: 192, b: 0 }
    } else if i == 19 {
        Rgb { r: 64, g: 128, b: 0 }
    } else if i == 20 {
        Rgb { r: 192, g: 255, b: 192 }
    } else if i == 21 {
        Rgb { r: 0, g: 255, b: 0 }
    } else if i == 22 {
        Rgb { r: 0, g: 192, b: 0 }
    } else if i == 23 {
        Rgb { r: 0, g: 128, b: 0 }
    } else if i == 24 {
        Rgb { r: 128, g: 255, b: 192 }
    } else if i == 25 {
        Rgb { r: 0, g: 255, b: 128 }
    } else if i == 26 {
        Rgb { r: 0, g: 192, b: 96 }
    } else if i == 27 {
        Rgb { r: 0, g: 128, b: 64 }
    } else if i == 28 {
        Rgb { r: 128, g: 255, b: 255 }
    } else if i == 29 {
        Rgb { r: 0, g: 255, b: 255 }
    } else if i == 30 {
        Rgb { r: 0, g: 192, b: 192 }
    } else if i == 31 {
        Rgb { r: 0, g: 128, b: 128 }
    } else if i == 32 {
        Rgb { r: 128, g: 192, b: 255 }
    } else if i == 33 {
        Rgb { r: 0, g: 128, b: 255 }
    } else if i == 34 {
        Rgb { r: 0, g: 96, b: 192 }
    } else if i == 35 {
        Rgb { r: 0, g: 64, b: 128 }
    } else if i == 36 {
        Rgb { r: 128, g: 128, b: 255 }
    } else if i == 37 {
        Rgb { r: 0, g: 0, b: 255 }
    } else if i == 38 {
        Rgb { r: 0, g: 0, b: 192 }
    } else if i == 39 {
        Rgb { r: 0, g: 0, b: 128 }
    } else if i == 40 {
        Rgb { r: 192, g: 128, b: 255 }
    } else if i == 41 {
        Rgb { r: 128, g: 0, b: 255 }
    } else if i == 42 {
        Rgb { r: 96, g: 0, b: 192 }
    } else if i == 43 {
        Rgb { r: 64, g: 0, b: 128 }
    } else if i == 44 {
        Rgb { r: 255, g: 128, b: 255 }
    } else if i == 45 {
        Rgb { r: 255, g: 0, b: 255 }
    } else if i == 46 {
        Rgb { r: 192, g: 0, b: 192 }
    } else if i == 47 {
        Rgb { r: 128, g: 0, b: 128 }
    } else if i == 48 {
        Rgb { r: 255, g: 128, b: 192 }
    } else if i == 49 {
        Rgb { r: 255, g: 0, b: 128 }
    } else if i == 50 {
        Rgb { r: 192, g: 0, b: 96 }
    } else {
        Rgb { r: 128, g: 0, b: 64 }
    }
}

/// Squared color distance, computed in machine integers.
fn dist2_exec(a: Rgb, b: Rgb) -> (d: u32)
    ensures
        d == dist2(a, b),
{
    let dr = a.r as i32 - b.r as i32;
    let dg = a.g as i32 - b.g as i32;
    let db = a.b as i32 - b.b as i32;
    proof {
        assert(0 <= dr * dr <= 65025) by (nonlinear_arith)
            requires
                -255 <= dr <= 255,
        ;
        assert(0 <= dg * dg <= 65025) by (nonlinear_arith)
            requires
                -255 <= dg <= 255,
        ;
        assert(0 <= db * db <= 65025) by (nonlinear_arith)
            requires
                -255 <= db <= 255,
        ;
    }
    (dr * dr + dg * dg + db * db) as u32
}

/// Maps a color to the velocity of the nearest palette entry, measured by
/// Euclidean distance in RGB space; among equally near entries the lowest
/// velocity wins.
pub fn rgb_to_launchkey_velocity(rgb: Rgb) -> (v: u8)
    ensures
        v < PALETTE_SIZE,
        forall|j: int|
            0 <= j < PALETTE_SIZE ==> dist2(rgb, palette_rgb(v as int)) <= dist2(
                rgb,
                palette_rgb(j),
            ),
        forall|j: int| 0 <= j < v ==> dist2(rgb, palette_rgb(v as int)) < dist2(rgb, palette_rgb(j)),
{
    let mut best_velocity: u8 = 0;
    let mut best_distance: u32 = dist2_exec(rgb, palette_color(0));
    let mut i: u8 = 1;
    while i < PALETTE_SIZE
        invariant
            1 <= i <= PALETTE_SIZE,
            best_velocity < i,
            best_distance == dist2(rgb, palette_rgb(best_velocity as int)),
            forall|j: int| 0 <= j < i ==> best_distance <= dist2(rgb, palette_rgb(j)),
            forall|j: int| 0 <= j < best_velocity ==> best_distance < dist2(rgb, palette_rgb(j)),
        decreases PALETTE_SIZE - i,
    {
        let d = dist2_exec(rgb, palette_color(i));
        if d < best_distance {
            best_distance = d;
            best_velocity = i;
        }
        i = i + 1;
    }
    best_velocity
}

/// Builds the note-on messages that light the bottom drum pads with the 8
/// zone colors: status byte `0x90` (note on, channel 1), note numbers `0x70`
/// through `0x77`, and as velocity the palette index nearest the zone's
/// color (lowest index among ties).
pub fn launchkey_note_messages(drum_pads: &Vec<Rgb>) -> (msgs: Vec<(u8, u8, u8)>)
    requires
        drum_pads@.len() == 8,
    ensures
        msgs@.len() == 8,
        forall|i: int|
            0 <= i < 8 ==> ({
                let m = #[trigger] msgs@[i];
                &&& m.0 == 0x90u8
                &&& m.1 == 0x70 + i
                &&& m.2 < PALETTE_SIZE
                &&& forall|j: int|
                    0 <= j < PALETTE_SIZE ==> dist2(drum_pads@[i], palette_rgb(m.2 as int))
                        <= dist2(drum_pads@[i], #[trigger] palette_rgb(j))
                &&& forall|j: int|
                    0 <= j < m.2 ==> dist2(drum_pads@[i], palette_rgb(m.2 as int)) < dist2(
                        drum_pads@[i],
                        #[trigger] palette_rgb(j),
                    )
            }),
{
    let mut msgs: Vec<(u8, u8, u8)> = Vec::new();
    let mut i: usize = 0;
    while i < 8
        invariant
            i <= 8,
            drum_pads@.len() == 8,
            msgs@.len() == i,
            forall|k: int|
                0 <= k < i ==> ({
                    let m = #[trigger] msgs@[k];
                    &&& m.0 == 0x90u8
                    &&& m.1 == 0x70 + k
                    &&& m.2 < PALETTE_SIZE
                    &&& forall|j: int|
                        0 <= j < PALETTE_SIZE ==> dist2(drum_pads@[k], palette_rgb(m.2 as int))
                            <= dist2(drum_pads@[k], #[trigger] palette_rgb(j))
                    &&& forall|j: int|
                        0 <= j < m.2 ==> dist2(drum_pads@[k], palette_rgb(m.2 as int)) < dist2(
                            drum_pads@[k],
                            #[trigger] palette_rgb(j),
                        )
                }),
        decreases 8 - i,
    {
        let velocity = rgb_to_launchkey_velocity(drum_pads[i]);
        let pad_note: u8 = 0x70 + i as u8;
        msgs.push((0x90u8, pad_note, velocity));
        i = i + 1;
    }
    msgs
}

} // verus!
