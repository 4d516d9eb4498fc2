use led_animation::{Direction, Rgb8, Rgb8BasicPixelSequenceAnimation, RgbLedAnimation};

fn red() -> Rgb8 {
    Rgb8::new(255, 0, 0)
}

fn green() -> Rgb8 {
    Rgb8::new(0, 255, 0)
}

fn blue() -> Rgb8 {
    Rgb8::new(0, 0, 255)
}

#[test]
fn starts_with_the_pattern_repeated() {
    let a = Rgb8BasicPixelSequenceAnimation::new(7, vec![red(), green(), blue()], Direction::Forward);
    assert_eq!(a.pixels(), &vec![red(), green(), blue(), red(), green(), blue(), red()]);
}

#[test]
fn forward_tick_moves_pattern_one_pixel() {
    let mut a = Rgb8BasicPixelSequenceAnimation::new(6, vec![red(), green(), blue()], Direction::Forward);
    a.next_frame();
    assert_eq!(a.pixels(), &vec![blue(), red(), green(), blue(), red(), green()]);
}

#[test]
fn backward_tick_moves_pattern_one_pixel() {
    let mut a = Rgb8BasicPixelSequenceAnimation::new(6, vec![red(), green(), blue()], Direction::Backward);
    a.next_frame();
    assert_eq!(a.pixels(), &vec![green(), blue(), red(), green(), blue(), red()]);
}

#[test]
fn pattern_returns_after_its_length_in_ticks() {
    for direction in [Direction::Forward, Direction::Backward] {
        let mut a = Rgb8BasicPixelSequenceAnimation::new(6, vec![red(), green(), blue()], direction);
        let start = a.pixels().clone();
        a.next_frame();
        assert_ne!(a.pixels(), &start);
        a.next_frame();
        assert_ne!(a.pixels(), &start);
        a.next_frame();
        assert_eq!(a.pixels(), &start);
    }
}

#[test]
fn last_repetition_is_cut_short() {
    let mut a = Rgb8BasicPixelSequenceAnimation::new(4, vec![red(), green(), blue()], Direction::Forward);
    a.next_frame();
    assert_eq!(a.pixels(), &vec![blue(), red(), green(), blue()]);
}

#[test]
fn direction_change_reverses_on_next_tick() {
    let mut a = Rgb8BasicPixelSequenceAnimation::new(6, vec![red(), green(), blue()], Direction::Forward);
    let start = a.pixels().clone();
    a.next_frame();
    a.next_frame();
    let after_two = a.pixels().clone();
    a.set_direction(Direction::Backward);
    assert_eq!(a.pixels(), &after_two);
    a.next_frame();
    assert_eq!(a.pixels(), &vec![blue(), red(), green(), blue(), red(), green()]);
    a.next_frame();
    assert_eq!(a.pixels(), &start);
    a.set_direction(Direction::Forward);
    a.next_frame();
    assert_eq!(a.pixels(), &vec![blue(), red(), green(), blue(), red(), green()]);
}

#[test]
fn reading_the_frame_twice_gives_the_same_buffer() {
    let mut a = Rgb8BasicPixelSequenceAnimation::new(5, vec![red(), blue()], Direction::Forward);
    a.next_frame();
    let first = a.pixels().clone();
    let second = a.pixels().clone();
    assert_eq!(first, second);
}

#[test]
fn single_color_pattern_never_changes() {
    let mut a = Rgb8BasicPixelSequenceAnimation::new(3, vec![green()], Direction::Backward);
    a.next_frame();
    assert_eq!(a.pixels(), &vec![green(), green(), green()]);
}

#[test]
fn sequence_buffer_length_never_changes() {
    for n in [0usize, 1, 2, 5, 9, 250] {
        let mut a = Rgb8BasicPixelSequenceAnimation::new(n, vec![red(), green(), blue(), blue()], Direction::Forward);
        for t in 0..20 {
            if t == 10 {
                a.set_direction(Direction::Backward);
            }
            a.next_frame();
            assert_eq!(a.pixels().len(), n);
        }
    }
}
