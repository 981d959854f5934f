use chunimidi::color::Rgb;
use chunimidi::palette::{launchkey_note_messages, rgb_to_launchkey_velocity};

#[test]
fn exact_palette_colors_map_to_their_velocity() {
    assert_eq!(rgb_to_launchkey_velocity(Rgb { r: 0, g: 0, b: 0 }), 0);
    assert_eq!(rgb_to_launchkey_velocity(Rgb { r: 255, g: 255, b: 255 }), 3);
    assert_eq!(rgb_to_launchkey_velocity(Rgb { r: 255, g: 0, b: 0 }), 5);
    assert_eq!(rgb_to_launchkey_velocity(Rgb { r: 0, g: 255, b: 0 }), 21);
    assert_eq!(rgb_to_launchkey_velocity(Rgb { r: 0, g: 0, b: 255 }), 37);
    assert_eq!(rgb_to_launchkey_velocity(Rgb { r: 255, g: 0, b: 255 }), 45);
}

#[test]
fn near_colors_map_to_the_nearest_entry() {
    assert_eq!(rgb_to_launchkey_velocity(Rgb { r: 250, g: 5, b: 3 }), 5);
    assert_eq!(rgb_to_launchkey_velocity(Rgb { r: 3, g: 2, b: 1 }), 0);
}

#[test]
fn ties_keep_the_lowest_velocity() {
    // (160,160,160) lies exactly midway between dark gray (128,128,128) and
    // light gray (192,192,192), squared distance 3*32*32 from both; the
    // lower velocity, 1, wins the tie.
    assert_eq!(rgb_to_launchkey_velocity(Rgb { r: 160, g: 160, b: 160 }), 1);
}

#[test]
fn note_messages_light_the_bottom_pads() {
    let pads = vec![Rgb { r: 0, g: 255, b: 0 }; 8];
    let msgs = launchkey_note_messages(&pads);
    assert_eq!(msgs.len(), 8);
    for (i, msg) in msgs.iter().enumerate() {
        assert_eq!(*msg, (0x90, 0x70 + i as u8, 21));
    }
}
