use vstd::prelude::*;
use crate::color::Rgb;

verus! {

/// Number of physical LEDs on the slider board.
pub const SLIDER_LEDS: usize = 31;
/// Number of derived pad zones.
pub const PAD_ZONES: usize = 8;

/// Sum of the red channels of `s[from..to]`.
pub open spec fn sum_r(s: Seq<Rgb>, from: int, to: int) -> int
    decreases to - from,
{
    if from >= to {
        0
    } else {
        s[from].r + sum_r(s, from + 1, to)
    }
}

/// Sum of the green channels of `s[from..to]`.
pub open spec fn sum_g(s: Seq<Rgb>, from: int, to: int) -> int
    decreases to - from,
{
    if from >= to {
        0
    } else {
        s[from].g + sum_g(s, from + 1, to)
    }
}

/// Sum of the blue channels of `s[from..to]`.
pub open spec fn sum_b(s: Seq<Rgb>, from: int, to: int) -> int
    decreases to - from,
{
    if from >= to {
        0
    } else {
        s[from].b + sum_b(s, from + 1, to)
    }
}

/// First LED index of zone `z`.
pub open spec fn zone_start(z: int) -> int {
    4 * z
}

/// One past the last LED index of zone `z`: zones cover four LEDs each except
/// the last, which covers the remaining three.
pub open spec fn zone_end(z: int) -> int {
    if 4 * z + 4 < 31 {
        4 * z + 4
    } else {
        31
    }
}

/// The color of zone `z` of the slider sequence `s`: the per-channel
/// arithmetic mean, with truncating integer division, over the zone's LEDs.
pub open spec fn zone_color(s: Seq<Rgb>, z: int) -> Rgb {
    let from = zone_start(z);
    let to = zone_end(z);
    let n = to - from;
    Rgb {
        r: (sum_r(s, from, to) / n) as u8,
        g: (sum_g(s, from, to) / n) as u8,
        b: (sum_b(s, from, to) / n) as u8,
    }
}

/// Collapses the 31 physical slider LEDs into 8 pad zones by block-averaging
/// groups of up to four LEDs per zone.
pub fn slider_to_drum_pads(leds: &Vec<Rgb>) -> (r: Vec<Rgb>)
    requires
        leds@.len() == 31,
    ensures
        r@.len() == 8,
        forall|z: int| 0 <= z < 8 ==> r@[z] == zone_color(leds@, z),
{
    let mut drum_pads: Vec<Rgb> = Vec::new();
    let mut z: usize = 0;
    while z < 8
        invariant
            z <= 8,
            leds@.len() == 31,
            drum_pads@.len() == z,
            forall|k: int| 0 <= k < z ==> drum_pads@[k] == zone_color(leds@, k),
        decreases 8 - z,
    {
        let start_led: usize = z * 4;
        let end_led: usize = if start_led + 4 < 31 {
            start_led + 4
        } else {
            31
        };
        let mut total_r: u32 = 0;
        let mut total_g: u32 = 0;
        let mut total_b: u32 = 0;
        let mut j: usize = start_led;
        while j < end_led
            invariant
                leds@.len() == 31,
                start_led <= j <= end_led,
                end_led <= 31,
                end_led - start_led <= 4,
                total_r == sum_r(leds@, start_led as int, j as int),
                total_g == sum_g(leds@, start_led as int, j as int),
                total_b == sum_b(leds@, start_led as int, j as int),
                total_r <= 255 * (j - start_led),
                total_g <= 255 * (j - start_led),
                total_b <= 255 * (j - start_led),
            decreases end_led - j,
        {
            proof {
                lemma_sum_snoc(leds@, start_led as int, j as int);
            }
            total_r = total_r + leds[j].r as u32;
            total_g = total_g + leds[j].g as u32;
            total_b = total_b + leds[j].b as u32;
            j = j + 1;
        }
        let count: u32 = (end_led - start_led) as u32;
        proof {
            assert(4 * z < 31);
            assert(start_led as int == zone_start(z as int));
            assert(end_led as int == zone_end(z as int));
            assert(count >= 3);
        }
        let pad = Rgb {
            r: (total_r / count) as u8,
            g: (total_g / count) as u8,
            b: (total_b / count) as u8,
        };
        proof {
            assert(total_r / count <= 255) by (nonlinear_arith)
                requires
                    count >= 1,
                    total_r <= 255 * count,
            ;
            assert(total_g / count <= 255) by (nonlinear_arith)
                requires
                    count >= 1,
                    total_g <= 255 * count,
            ;
            assert(total_b / count <= 255) by (nonlinear_arith)
                requires
                    count >= 1,
                    total_b <= 255 * count,
            ;
            assert(pad == zone_color(leds@, z as int));
        }
        drum_pads.push(pad);
        z = z + 1;
    }
    drum_pads
}

/// Extending a channel sum one element to the right adds that element's
/// channel value.
proof fn lemma_sum_snoc(s: Seq<Rgb>, from: int, j: int)
    requires
        from <= j,
    ensures
        sum_r(s, from, j + 1) == sum_r(s, from, j) + s[j].r,
        sum_g(s, from, j + 1) == sum_g(s, from, j) + s[j].g,
        sum_b(s, from, j + 1) == sum_b(s, from, j) + s[j].b,
    decreases j - from,
{
    if from < j {
        lemma_sum_snoc(s, from + 1, j);
    } else {
        assert(sum_r(s, j + 1, j + 1) == 0);
        assert(sum_g(s, j + 1, j + 1) == 0);
        assert(sum_b(s, j + 1, j + 1) == 0);
    }
}

/// A channel sum over a range of identical colors is the range's length times
/// the channel value.
proof fn lemma_sum_const(s: Seq<Rgb>, from: int, to: int, c: Rgb)
    requires
        from <= to,
        forall|i: int| from <= i < to ==> s[i] == c,
    ensures
        sum_r(s, from, to) == (to - from) * c.r,
        sum_g(s, from, to) == (to - from) * c.g,
        sum_b(s, from, to) == (to - from) * c.b,
    decreases to - from,
{
    if from < to {
        lemma_sum_const(s, from + 1, to, c);
        assert((to - from) * (c.r as int) == (to - from - 1) * c.r + c.r) by (nonlinear_arith);
        assert((to - from) * (c.g as int) == (to - from - 1) * c.g + c.g) by (nonlinear_arith);
        assert((to - from) * (c.b as int) == (to - from - 1) * c.b + c.b) by (nonlinear_arith);
    } else {
        assert(sum_r(s, from, to) == 0);
    }
}

/// A channel sum only reads the elements of its range.
proof fn lemma_sum_congruent(s: Seq<Rgb>, t: Seq<Rgb>, from: int, to: int)
    requires
        forall|i: int| from <= i < to ==> s[i] == t[i],
    ensures
        sum_r(s, from, to) == sum_r(t, from, to),
        sum_g(s, from, to) == sum_g(t, from, to),
        sum_b(s, from, to) == sum_b(t, from, to),
    decreases to - from,
{
    if from < to {
        lemma_sum_congruent(s, t, from + 1, to);
    }
}

/// Law: a slider of 31 identical colors reduces to 8 zones all equal to that
/// color.
pub proof fn lemma_uniform_slider(s: Seq<Rgb>, c: Rgb)
    requires
        s.len() == 31,
        forall|i: int| 0 <= i < 31 ==> s[i] == c,
    ensures
        forall|z: int| 0 <= z < 8 ==> zone_color(s, z) == c,
{
    assert forall|z: int| 0 <= z < 8 implies zone_color(s, z) == c by {
        let from = zone_start(z);
        let to = zone_end(z);
        let n = to - from;
        lemma_sum_const(s, from, to, c);
        assert(n * (c.r as int) / n == c.r) by (nonlinear_arith)
            requires
                3 <= n <= 4,
                0 <= c.r < 256,
        ;
        assert(n * (c.g as int) / n == c.g) by (nonlinear_arith)
            requires
                3 <= n <= 4,
                0 <= c.g < 256,
        ;
        assert(n * (c.b as int) / n == c.b) by (nonlinear_arith)
            requires
                3 <= n <= 4,
                0 <= c.b < 256,
        ;
    }
}

/// Law: a zone's color depends only on the LEDs the zone covers; in
/// particular, two sliders that differ only at the last LED (index 30, part
/// of the three-element last zone) agree on the colors of the first seven
/// zones.
pub proof fn lemma_zone_local(s: Seq<Rgb>, t: Seq<Rgb>, z: int)
    requires
        0 <= z < 8,
        forall|i: int| zone_start(z) <= i < zone_end(z) ==> s[i] == t[i],
    ensures
        zone_color(s, z) == zone_color(t, z),
{
    lemma_sum_congruent(s, t, zone_start(z), zone_end(z));
}

/// Law: changing only LED 30 leaves zones 0 through 6 unchanged.
pub proof fn lemma_last_led_only_last_zone(s: Seq<Rgb>, t: Seq<Rgb>)
    requires
        s.len() == 31,
        t.len() == 31,
        forall|i: int| 0 <= i < 30 ==> s[i] == t[i],
    ensures
        forall|z: int| 0 <= z < 7 ==> zone_color(s, z) == zone_color(t, z),
{
    assert forall|z: int| 0 <= z < 7 implies zone_color(s, z) == zone_color(t, z) by {
        lemma_zone_local(s, t, z);
    }
}

} // verus!
