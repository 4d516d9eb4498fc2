use led_animation::{Rgb8, Rgb8RainbowSnakeAnimation, RgbLedAnimation};

fn lit(a: &Rgb8RainbowSnakeAnimation) -> Vec<usize> {
    let off = Rgb8::new(0, 0, 0);
    a.pixels()
        .iter()
        .enumerate()
        .filter(|(_, p)| **p != off)
        .map(|(i, _)| i)
        .collect()
}

#[test]
fn starts_all_off() {
    let a = Rgb8RainbowSnakeAnimation::new(4, 2, 10);
    assert_eq!(a.pixels(), &vec![Rgb8::new(0, 0, 0); 4]);
}

#[test]
fn segment_sweeps_and_bounces() {
    let mut a = Rgb8RainbowSnakeAnimation::new(5, 2, 10);
    let expected: Vec<Vec<usize>> = vec![
        vec![0],
        vec![0, 1],
        vec![1, 2],
        vec![2, 3],
        vec![3, 4],
        vec![4],
        vec![],
        vec![4],
        vec![3, 4],
        vec![2, 3],
        vec![1, 2],
        vec![0, 1],
        vec![0],
        vec![0, 1],
    ];
    for (t, want) in expected.iter().enumerate() {
        a.next_frame();
        assert_eq!(&lit(&a), want, "tick {}", t + 1);
    }
}

#[test]
fn lit_pixels_take_the_wheel_color() {
    let mut a = Rgb8RainbowSnakeAnimation::new(5, 3, 10);
    for t in 1..=3u8 {
        a.next_frame();
        for i in lit(&a) {
            assert_eq!(a.pixels()[i], Rgb8::new(10 * t, 0, 0));
        }
    }
    assert_eq!(
        a.pixels(),
        &vec![
            Rgb8::new(30, 0, 0),
            Rgb8::new(30, 0, 0),
            Rgb8::new(30, 0, 0),
            Rgb8::new(0, 0, 0),
            Rgb8::new(0, 0, 0)
        ]
    );
}

#[test]
fn segment_as_long_as_strip() {
    let mut a = Rgb8RainbowSnakeAnimation::new(3, 3, 1);
    let counts = [1usize, 2, 3, 2, 0, 1, 2, 3, 1, 2];
    for want in counts {
        a.next_frame();
        assert_eq!(lit(&a).len(), want);
    }
}

#[test]
fn single_pixel_strip() {
    let mut a = Rgb8RainbowSnakeAnimation::new(1, 1, 1);
    let counts = [1usize, 0, 0, 1, 1, 0, 0];
    for want in counts {
        a.next_frame();
        assert_eq!(lit(&a).len(), want);
    }
}

#[test]
fn snake_buffer_length_never_changes() {
    for n in [0usize, 1, 2, 7, 250] {
        let mut a = Rgb8RainbowSnakeAnimation::new(n, 3, 5);
        for _ in 0..600 {
            a.next_frame();
            assert_eq!(a.pixels().len(), n);
        }
    }
}

#[test]
fn snake_frame_read_twice_is_identical() {
    let mut a = Rgb8RainbowSnakeAnimation::new(6, 2, 3);
    a.next_frame();
    a.next_frame();
    assert_eq!(a.pixels().clone(), a.pixels().clone());
}
