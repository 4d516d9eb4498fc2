use vstd::prelude::*;
use vstd::set_lib::{lemma_int_range, set_int_range};

use crate::color_cycler::ColorCycler;
use crate::ws2812_led_animation::{off, Direction, PixelColor, Rgb8, RgbLedAnimation};

verus! {

/// Whether pixel `i` belongs to the segment of `len` pixels that ends at
/// `head` (moving forward) or starts at `head` (moving backward).
pub open spec fn in_segment(i: int, head: int, len: int, dir: Direction) -> bool {
    match dir {
        Direction::Forward => i <= head && head - i < len,
        Direction::Backward => head <= i && i - head < len,
    }
}

/// Where the head goes after one tick on a buffer of `n` pixels: one step in
/// its direction, or, at a boundary, the same place with the direction flipped.
pub open spec fn move_head(head: nat, dir: Direction, n: nat) -> (nat, Direction) {
    match dir {
        Direction::Forward => if head + 1 > n {
            (head, Direction::Backward)
        } else {
            ((head + 1) as nat, Direction::Forward)
        },
        Direction::Backward => if head == 0 {
            (head, Direction::Forward)
        } else {
            ((head - 1) as nat, Direction::Backward)
        },
    }
}

/// The state of a snake animation.
pub struct SnakeModel {
    pub cycler: ColorCycler,
    pub pixels: Seq<Rgb8>,
    pub head: nat,
    pub snake_length: nat,
    pub direction: Direction,
}

impl SnakeModel {
    pub open spec fn inv(self) -> bool {
        self.head <= self.pixels.len()
    }

    /// The state after one tick: the wheel moves on, every pixel of the
    /// segment takes its new color and every other one is switched off, and
    /// then the head moves.
    pub open spec fn next(self) -> SnakeModel {
        let c = self.cycler.next();
        let n = self.pixels.len();
        let moved = move_head(self.head, self.direction, n);
        SnakeModel {
            cycler: c,
            pixels: Seq::new(
                n,
                |i: int|
                    if in_segment(i, self.head as int, self.snake_length as int, self.direction) {
                        c.color
                    } else {
                        off()
                    },
            ),
            head: moved.0,
            snake_length: self.snake_length,
            direction: moved.1,
        }
    }

    /// The state after `t` ticks.
    pub open spec fn ticks(self, t: nat) -> SnakeModel
        decreases t,
    {
        if t == 0 {
            self
        } else {
            self.ticks((t - 1) as nat).next()
        }
    }
}

/// A segment of pixels that sweeps the strip, turns at either end, and
/// changes color along the hue wheel as it goes.
pub struct Rgb8RainbowSnakeAnimation {
    main_color: ColorCycler,
    pixels: Vec<Rgb8>,
    head_location: usize,
    snake_length: usize,
    snake_direction: Direction,
}

impl View for Rgb8RainbowSnakeAnimation {
    type V = SnakeModel;

    closed spec fn view(&self) -> SnakeModel {
        SnakeModel {
            cycler: self.main_color,
            pixels: self.pixels@,
            head: self.head_location as nat,
            snake_length: self.snake_length as nat,
            direction: self.snake_direction,
        }
    }
}

impl Rgb8RainbowSnakeAnimation {
    /// Creates a new animation with all lights off, the head at the first
    /// pixel moving forward, and the wheel at black about to raise red.
    pub fn new(num_pixels: usize, snake_length: usize, color_step_amount: u8) -> (a: Self)
        ensures
            a@ == (SnakeModel {
                cycler: ColorCycler { color: off(), phase: PixelColor::Red, step: color_step_amount },
                pixels: Seq::new(num_pixels as nat, |i: int| off()),
                head: 0,
                snake_length: snake_length as nat,
                direction: Direction::Forward,
            }),
            a.well_formed(),
    {
        let mut pixels: Vec<Rgb8> = Vec::new();
        let mut i: usize = 0;
        while i < num_pixels
            invariant
                i <= num_pixels,
                pixels@ == Seq::new(i as nat, |j: int| off()),
            decreases num_pixels - i,
        {
            pixels.push(Rgb8::new(0, 0, 0));
            i = i + 1;
            assert(pixels@ =~= Seq::new(i as nat, |j: int| off()));
        }
        Rgb8RainbowSnakeAnimation {
            main_color: ColorCycler::new(Rgb8::new(0, 0, 0), PixelColor::Red, color_step_amount),
            pixels,
            head_location: 0,
            snake_length,
            snake_direction: Direction::Forward,
        }
    }
}

impl RgbLedAnimation for Rgb8RainbowSnakeAnimation {
    open spec fn frame(&self) -> Seq<Rgb8> {
        self@.pixels
    }

    open spec fn well_formed(&self) -> bool {
        self@.inv()
    }

    fn next_frame(&mut self)
        ensures
            final(self)@ == old(self)@.next(),
    {
        self.main_color.advance();
        let color = self.main_color.color;
        let head = self.head_location;
        let len = self.snake_length;
        let n = self.pixels.len();
        let mut i: usize = 0;
        while i < n
            invariant
                i <= n,
                n == self.pixels.len(),
                self.main_color == old(self)@.cycler.next(),
                color == self.main_color.color,
                head == self.head_location,
                len == self.snake_length,
                self.head_location == old(self).head_location,
                self.snake_length == old(self).snake_length,
                self.snake_direction == old(self).snake_direction,
                n == old(self).pixels.len(),
                forall|j: int|
                    0 <= j < i ==> self.pixels@[j] == (if in_segment(
                        j,
                        head as int,
                        len as int,
                        self.snake_direction,
                    ) {
                        color
                    } else {
                        off()
                    }),
            decreases n - i,
        {
            let lit = match self.snake_direction {
                Direction::Forward => i <= head && head - i < len,
                Direction::Backward => head <= i && i - head < len,
            };
            if lit {
                self.pixels[i] = color;
            } else {
                self.pixels[i] = Rgb8::new(0, 0, 0);
            }
            i = i + 1;
        }
        match self.snake_direction {
            Direction::Backward => {
                match self.head_location.checked_sub(1) {
                    None => {
                        self.snake_direction = Direction::Forward;
                    },
                    Some(new_val) => {
                        self.head_location = new_val;
                    },
                }
            },
            Direction::Forward => {
                match self.head_location.checked_add(1) {
                    None => {
                        self.snake_direction = Direction::Backward;
                    },
                    Some(new_val) => {
                        if new_val > self.pixels.len() {
                            self.snake_direction = Direction::Backward;
                        } else {
                            self.head_location = new_val;
                        }
                    },
                }
            },
        }
        assert(self.pixels@ =~= old(self)@.next().pixels);
    }

    fn pixels(&self) -> (r: &Vec<Rgb8>) {
        &self.pixels
    }
}

/// Ticks compose: `a + b` ticks are `a` ticks and then `b` more.
proof fn lemma_ticks_add(m: SnakeModel, a: nat, b: nat)
    ensures
        m.ticks(a + b) == m.ticks(a).ticks(b),
    decreases b,
{
    if b > 0 {
        lemma_ticks_add(m, a, (b - 1) as nat);
        assert(m.ticks(a + b) == m.ticks((a + b - 1) as nat).next());
    }
}

/// However many ticks pass, the pixel buffer keeps the length it was made
/// with, the head never leaves `0..=len`, and the segment length stays.
pub proof fn lemma_snake_length_kept(m: SnakeModel, t: nat)
    requires
        m.inv(),
    ensures
        m.ticks(t).inv(),
        m.ticks(t).pixels.len() == m.pixels.len(),
        m.ticks(t).snake_length == m.snake_length,
    decreases t,
{
    if t > 0 {
        lemma_snake_length_kept(m, (t - 1) as nat);
    }
}

/// Moving forward from `head`, the head goes up by one per tick until it
/// reaches the end of the buffer.
proof fn lemma_run_forward(m: SnakeModel, t: nat)
    requires
        m.inv(),
        m.direction == Direction::Forward,
        m.head + t <= m.pixels.len(),
    ensures
        m.ticks(t).head == m.head + t,
        m.ticks(t).direction == Direction::Forward,
    decreases t,
{
    if t > 0 {
        lemma_run_forward(m, (t - 1) as nat);
        lemma_snake_length_kept(m, (t - 1) as nat);
    }
}

/// Moving backward from `head`, the head goes down by one per tick until it
/// reaches 0.
proof fn lemma_run_backward(m: SnakeModel, t: nat)
    requires
        m.inv(),
        m.direction == Direction::Backward,
        t <= m.head,
    ensures
        m.ticks(t).head == m.head - t,
        m.ticks(t).direction == Direction::Backward,
    decreases t,
{
    if t > 0 {
        lemma_run_backward(m, (t - 1) as nat);
        lemma_snake_length_kept(m, (t - 1) as nat);
    }
}

/// Starting at 0 and moving forward on a buffer of `n` pixels, the head is
/// at `t` after `t <= n` ticks; on the next tick it stays at `n` and turns
/// back; it is then at `n - t` after `t <= n` more ticks, and on the next it
/// stays at 0 and turns forward again, where it started.
pub proof fn lemma_snake_bounces(m: SnakeModel, t: nat)
    requires
        m.inv(),
        m.head == 0,
        m.direction == Direction::Forward,
        t <= m.pixels.len(),
    ensures
        m.ticks(t).head == t,
        m.ticks(t).direction == Direction::Forward,
        m.ticks(m.pixels.len() + 1).head == m.pixels.len(),
        m.ticks(m.pixels.len() + 1).direction == Direction::Backward,
        m.ticks(m.pixels.len() + 1 + t).head == m.pixels.len() - t,
        m.ticks(m.pixels.len() + 1 + t).direction == Direction::Backward,
        m.ticks(2 * m.pixels.len() + 2).head == 0,
        m.ticks(2 * m.pixels.len() + 2).direction == Direction::Forward,
{
    let n = m.pixels.len();
    lemma_run_forward(m, t);
    lemma_run_forward(m, n);
    lemma_snake_length_kept(m, n);
    let top = m.ticks(n + 1);
    assert(top == m.ticks(n).next());
    lemma_snake_length_kept(m, n + 1);
    lemma_run_backward(top, t);
    lemma_ticks_add(m, n + 1, t);
    lemma_run_backward(top, n);
    lemma_ticks_add(m, n + 1, n);
    lemma_snake_length_kept(m, 2 * n + 1);
    assert(m.ticks(2 * n + 2) == m.ticks(2 * n + 1).next());
}

/// The pixels of a buffer of `n` pixels that the segment lights.
pub open spec fn lit_indices(head: int, len: int, dir: Direction, n: int) -> Set<int> {
    Set::new(|i: int| 0 <= i < n && in_segment(i, head, len, dir))
}

/// How many pixels a segment of `1 <= len <= n` lights with its head at
/// `head <= n`. Moving forward it ends at the head: `min(len, head + 1)`
/// pixels, but `len - 1` with the head past the last pixel. Moving backward
/// it starts at the head: `min(len, n - head)` pixels, so none with the head
/// past the last pixel.
pub proof fn lemma_lit_count(head: int, len: int, dir: Direction, n: int)
    requires
        1 <= len <= n,
        0 <= head <= n,
    ensures
        lit_indices(head, len, dir, n).finite(),
        lit_indices(head, len, dir, n).len() == match dir {
            Direction::Forward => if head < n {
                if len <= head + 1 {
                    len
                } else {
                    head + 1
                }
            } else {
                len - 1
            },
            Direction::Backward => if len <= n - head {
                len
            } else {
                n - head
            },
        },
{
    let (lo, hi) = match dir {
        Direction::Forward => (
            if head + 1 - len > 0 {
                head + 1 - len
            } else {
                0
            },
            if head + 1 < n {
                head + 1
            } else {
                n
            },
        ),
        Direction::Backward => (head, if head + len < n {
            head + len
        } else {
            n
        }),
    };
    assert(lit_indices(head, len, dir, n) =~= set_int_range(lo, hi));
    lemma_int_range(lo, hi);
}

} // verus!
