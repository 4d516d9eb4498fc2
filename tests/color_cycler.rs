use led_animation::{pixel_decrement, pixel_increment, ColorCycler, PixelColor, Rgb8};

#[test]
fn increment_within_range_stores_sum() {
    let mut v: u8 = 250;
    assert_eq!(pixel_increment(&mut v, 5), Ok(()));
    assert_eq!(v, 255);
}

#[test]
fn increment_past_255_fails_and_keeps_value() {
    let mut v: u8 = 251;
    assert_eq!(pixel_increment(&mut v, 5), Err(()));
    assert_eq!(v, 251);
}

#[test]
fn decrement_within_range_stores_difference() {
    let mut v: u8 = 5;
    assert_eq!(pixel_decrement(&mut v, 5), Ok(()));
    assert_eq!(v, 0);
}

#[test]
fn decrement_below_zero_fails_and_keeps_value() {
    let mut v: u8 = 4;
    assert_eq!(pixel_decrement(&mut v, 5), Err(()));
    assert_eq!(v, 4);
}

#[test]
fn full_handoff_from_red_to_green_with_step_one() {
    let mut c = ColorCycler::new(Rgb8::new(255, 0, 0), PixelColor::Green, 1);
    for t in 1..=255u32 {
        c.advance();
        assert_eq!(c.color, Rgb8::new(255 - t as u8, t as u8, 0));
        assert_eq!(c.phase, PixelColor::Green);
    }
    assert_eq!(c.color, Rgb8::new(0, 255, 0));
    c.advance();
    assert_eq!(c.color, Rgb8::new(0, 255, 0));
    assert_eq!(c.phase, PixelColor::Blue);
}

#[test]
fn handoff_from_full_red_still_raising_red_takes_one_more_tick() {
    let mut c = ColorCycler::new(Rgb8::new(255, 0, 0), PixelColor::Red, 1);
    c.advance();
    assert_eq!(c.color, Rgb8::new(255, 0, 0));
    assert_eq!(c.phase, PixelColor::Green);
    for _ in 0..255 {
        c.advance();
    }
    assert_eq!(c.color, Rgb8::new(0, 255, 0));
}

#[test]
fn uneven_step_peaks_at_largest_multiple() {
    let mut c = ColorCycler::new(Rgb8::new(0, 0, 0), PixelColor::Red, 7);
    for _ in 0..36 {
        c.advance();
        assert_eq!(c.phase, PixelColor::Red);
    }
    assert_eq!(c.color, Rgb8::new(252, 0, 0));
    c.advance();
    assert_eq!(c.color, Rgb8::new(252, 0, 0));
    assert_eq!(c.phase, PixelColor::Green);
    c.advance();
    assert_eq!(c.color, Rgb8::new(245, 7, 0));
}

#[test]
fn uneven_step_runs_the_whole_wheel() {
    let mut c = ColorCycler::new(Rgb8::new(0, 0, 0), PixelColor::Red, 100);
    let expected = [
        (Rgb8::new(100, 0, 0), PixelColor::Red),
        (Rgb8::new(200, 0, 0), PixelColor::Red),
        (Rgb8::new(200, 0, 0), PixelColor::Green),
        (Rgb8::new(100, 100, 0), PixelColor::Green),
        (Rgb8::new(0, 200, 0), PixelColor::Green),
        (Rgb8::new(0, 200, 0), PixelColor::Blue),
        (Rgb8::new(0, 100, 100), PixelColor::Blue),
        (Rgb8::new(0, 0, 200), PixelColor::Blue),
        (Rgb8::new(0, 0, 200), PixelColor::Red),
        (Rgb8::new(100, 0, 100), PixelColor::Red),
    ];
    for (color, phase) in expected {
        c.advance();
        assert_eq!(c.color, color);
        assert_eq!(c.phase, phase);
    }
}

#[test]
fn lowered_channel_stops_at_zero() {
    let mut c = ColorCycler::new(Rgb8::new(0, 9, 3), PixelColor::Red, 5);
    c.advance();
    assert_eq!(c.color, Rgb8::new(5, 9, 0));
    assert_eq!(c.phase, PixelColor::Red);
}

#[test]
fn zero_step_never_changes() {
    let mut c = ColorCycler::new(Rgb8::new(1, 2, 3), PixelColor::Blue, 0);
    for _ in 0..10 {
        c.advance();
    }
    assert_eq!(c, ColorCycler::new(Rgb8::new(1, 2, 3), PixelColor::Blue, 0));
}
