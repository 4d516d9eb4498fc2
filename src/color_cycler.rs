use vstd::prelude::*;

use crate::ws2812_led_animation::{PixelColor, Rgb8};

verus! {

/// Adds `amount` to a channel value.
///
/// Returns `Err` when the sum would exceed 255, leaving `val` as it was,
/// and `Ok` after storing the sum otherwise.
pub fn pixel_increment(val: &mut u8, amount: u8) -> (r: Result<(), ()>)
    ensures
        r is Ok <==> *old(val) + amount <= 255,
        r is Ok ==> *final(val) == *old(val) + amount,
        r is Err ==> *final(val) == *old(val),
{
    let mut output: Result<(), ()> = Ok(());
    let result = val.checked_add(amount);
    match result {
        Some(ok_val) => {
            *val = ok_val;
        },
        None => {
            output = Err(());
        },
    }
    output
}

/// Subtracts `amount` from a channel value.
///
/// Returns `Err` when the difference would be below 0, leaving `val` as it
/// was, and `Ok` after storing the difference otherwise.
pub fn pixel_decrement(val: &mut u8, amount: u8) -> (r: Result<(), ()>)
    ensures
        r is Ok <==> *old(val) >= amount,
        r is Ok ==> *final(val) == *old(val) - amount,
        r is Err ==> *final(val) == *old(val),
{
    let mut output: Result<(), ()> = Ok(());
    let result = val.checked_sub(amount);
    match result {
        Some(ok_val) => {
            *val = ok_val;
        },
        None => {
            output = Err(());
        },
    }
    output
}

/// The phase that follows `p` on the wheel Red, Green, Blue, Red.
pub open spec fn next_phase(p: PixelColor) -> PixelColor {
    match p {
        PixelColor::Red => PixelColor::Green,
        PixelColor::Green => PixelColor::Blue,
        PixelColor::Blue => PixelColor::Red,
    }
}

/// The channel that is lowered while the channel of `p` is raised: the one
/// before it on the wheel.
pub open spec fn prev_phase(p: PixelColor) -> PixelColor {
    match p {
        PixelColor::Red => PixelColor::Blue,
        PixelColor::Green => PixelColor::Red,
        PixelColor::Blue => PixelColor::Green,
    }
}

/// The value of the channel `p` of `c`.
pub open spec fn channel(c: Rgb8, p: PixelColor) -> u8 {
    match p {
        PixelColor::Red => c.r,
        PixelColor::Green => c.g,
        PixelColor::Blue => c.b,
    }
}

/// `c` with its channel `p` set to `v`.
pub open spec fn with_channel(c: Rgb8, p: PixelColor, v: u8) -> Rgb8 {
    match p {
        PixelColor::Red => Rgb8 { r: v, ..c },
        PixelColor::Green => Rgb8 { g: v, ..c },
        PixelColor::Blue => Rgb8 { b: v, ..c },
    }
}

/// A hue wheel: one color, the channel being raised, and the step by which
/// channels move on each tick.
#[derive(Clone, Copy, PartialEq, Eq, Structural, Debug)]
pub struct ColorCycler {
    pub color: Rgb8,
    pub phase: PixelColor,
    pub step: u8,
}

impl ColorCycler {
    /// Whether the raised channel would pass 255 on the next tick.
    pub open spec fn overflows(self) -> bool {
        channel(self.color, self.phase) + self.step > 255
    }

    /// The wheel after one tick: the raised channel grows by `step` unless
    /// that passes 255, in which case it is kept and the phase moves on; the
    /// lowered channel shrinks by `step`, stopping at 0.
    pub open spec fn next(self) -> ColorCycler {
        let raised = channel(self.color, self.phase);
        let c1 = if self.overflows() {
            self.color
        } else {
            with_channel(self.color, self.phase, (raised + self.step) as u8)
        };
        let lowered = channel(self.color, prev_phase(self.phase));
        let v: u8 = if lowered >= self.step {
            (lowered - self.step) as u8
        } else {
            0
        };
        ColorCycler {
            color: with_channel(c1, prev_phase(self.phase), v),
            phase: if self.overflows() {
                next_phase(self.phase)
            } else {
                self.phase
            },
            step: self.step,
        }
    }

    /// The wheel after `n` ticks.
    pub open spec fn ticks(self, n: nat) -> ColorCycler
        decreases n,
    {
        if n == 0 {
            self
        } else {
            self.ticks((n - 1) as nat).next()
        }
    }

    /// Creates a wheel at `color`, raising the channel of `phase` by `step`.
    pub fn new(color: Rgb8, phase: PixelColor, step: u8) -> (c: ColorCycler)
        ensures
            c == (ColorCycler { color, phase, step }),
    {
        ColorCycler { color, phase, step }
    }

    /// Moves the wheel on by one tick.
    pub fn advance(&mut self)
        ensures
            *final(self) == old(self).next(),
    {
        let step = self.step;
        match self.phase {
            PixelColor::Red => {
                if pixel_increment(&mut self.color.r, step).is_err() {
                    self.phase = PixelColor::Green;
                }
                if pixel_decrement(&mut self.color.b, step).is_err() {
                    self.color.b = 0;
                }
            },
            PixelColor::Green => {
                if pixel_increment(&mut self.color.g, step).is_err() {
                    self.phase = PixelColor::Blue;
                }
                if pixel_decrement(&mut self.color.r, step).is_err() {
                    self.color.r = 0;
                }
            },
            PixelColor::Blue => {
                if pixel_increment(&mut self.color.b, step).is_err() {
                    self.phase = PixelColor::Red;
                }
                if pixel_decrement(&mut self.color.g, step).is_err() {
                    self.color.g = 0;
                }
            },
        }
    }
}

/// While a wheel raises a channel that started at 0 with a positive step
/// `k`, for the first `255 / k` ticks: the phase stays, the raised channel
/// holds `j * k` after `j` ticks, the lowered channel has gone down by `j * k`
/// (stopping at 0), and the third channel is left alone.
pub proof fn lemma_raise(c: ColorCycler, j: nat)
    requires
        c.step > 0,
        channel(c.color, c.phase) == 0,
        j <= 255int / (c.step as int),
    ensures
        c.ticks(j).step == c.step,
        c.ticks(j).phase == c.phase,
        channel(c.ticks(j).color, c.phase) == j * c.step,
        channel(c.ticks(j).color, prev_phase(c.phase)) == (if channel(c.color, prev_phase(c.phase))
            >= j * c.step {
            channel(c.color, prev_phase(c.phase)) - j * c.step
        } else {
            0
        }),
        channel(c.ticks(j).color, next_phase(c.phase)) == channel(c.color, next_phase(c.phase)),
    decreases j,
{
    let k = c.step as int;
    if j > 0 {
        lemma_raise(c, (j - 1) as nat);
        let jj = j as int;
        assert(jj * k <= 255) by (nonlinear_arith)
            requires
                jj <= 255int / k,
                k > 0,
        ;
        assert((jj - 1) * k + k == jj * k) by (nonlinear_arith);
    }
}

/// The largest multiple of `k` that is not above 255.
pub open spec fn peak(k: u8) -> int {
    (255int / (k as int)) * k
}

/// A wheel that raises a channel from 0 by a positive step `k` leaves the
/// phase after exactly `255 / k + 1` ticks, and the channel it raised then
/// holds the largest multiple of `k` not above 255: `peak(k)`. Nothing on the
/// way fails; the tick that would pass 255 only moves the phase on.
pub proof fn lemma_phase_peaks_at_largest_multiple(c: ColorCycler)
    requires
        c.step > 0,
        channel(c.color, c.phase) == 0,
    ensures
        channel(c.ticks((255int / (c.step as int)) as nat).color, c.phase) == peak(c.step),
        c.ticks((255int / (c.step as int)) as nat).phase == c.phase,
        c.ticks((255int / (c.step as int) + 1) as nat).phase == next_phase(c.phase),
        channel(c.ticks((255int / (c.step as int) + 1) as nat).color, c.phase) == peak(c.step),
        peak(c.step) <= 255 < peak(c.step) + c.step,
{
    let k = c.step as int;
    let m = 255int / k;
    assert(0 <= m * k <= 255 < m * k + k) by (nonlinear_arith)
        requires
            m == 255int / k,
            k > 0,
    ;
    lemma_raise(c, m as nat);
    assert(c.ticks((m + 1) as nat) == c.ticks(m as nat).next());
}

} // verus!
