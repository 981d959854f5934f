use chunimidi::color::Rgb;
use chunimidi::zones::slider_to_drum_pads;

#[test]
fn uniform_slider_reduces_to_uniform_zones() {
    let c = Rgb { r: 10, g: 200, b: 33 };
    let leds = vec![c; 31];
    let pads = slider_to_drum_pads(&leds);
    assert_eq!(pads.len(), 8);
    for pad in pads {
        assert_eq!(pad, c);
    }
}

#[test]
fn single_differing_last_led_only_affects_last_zone() {
    let c = Rgb { r: 90, g: 90, b: 90 };
    let d = Rgb { r: 0, g: 255, b: 90 };
    let mut leds = vec![c; 31];
    leds[30] = d;
    let pads = slider_to_drum_pads(&leds);
    for z in 0..7 {
        assert_eq!(pads[z], c);
    }
    // The last zone covers LEDs 28, 29, 30: the mean of (90, 90, 0) red,
    // (90, 90, 255) green and (90, 90, 90) blue, truncating.
    assert_eq!(pads[7], Rgb { r: 60, g: 145, b: 90 });
}

#[test]
fn zone_average_truncates() {
    let mut leds = vec![Rgb { r: 0, g: 0, b: 0 }; 31];
    // Zone 0 covers LEDs 0 through 3.
    leds[0] = Rgb { r: 1, g: 10, b: 255 };
    leds[1] = Rgb { r: 1, g: 11, b: 255 };
    leds[2] = Rgb { r: 1, g: 12, b: 255 };
    leds[3] = Rgb { r: 0, g: 13, b: 254 };
    let pads = slider_to_drum_pads(&leds);
    // (1+1+1+0)/4 = 0, (10+11+12+13)/4 = 11, (255+255+255+254)/4 = 254.
    assert_eq!(pads[0], Rgb { r: 0, g: 11, b: 254 });
    // The untouched zones average to black.
    assert_eq!(pads[4], Rgb { r: 0, g: 0, b: 0 });
}
