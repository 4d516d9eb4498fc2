use vstd::prelude::*;

use crate::color_cycler::ColorCycler;
use crate::ws2812_led_animation::{off, PixelColor, Rgb8, RgbLedAnimation};

verus! {

/// The state of a wheel animation: one hue wheel per pixel.
pub struct WheelModel {
    pub wheels: Seq<ColorCycler>,
    pub pixels: Seq<Rgb8>,
}

impl WheelModel {
    pub open spec fn inv(self) -> bool {
        &&& self.pixels.len() == self.wheels.len()
        &&& forall|i: int| 0 <= i < self.pixels.len() ==> #[trigger] self.pixels[i] == self.wheels[i].color
    }

    /// The state after one tick: every pixel's wheel moves on by itself.
    pub open spec fn next(self) -> WheelModel {
        let w = self.wheels.map_values(|c: ColorCycler| c.next());
        WheelModel { wheels: w, pixels: w.map_values(|c: ColorCycler| c.color) }
    }

    /// The state after `t` ticks.
    pub open spec fn ticks(self, t: nat) -> WheelModel
        decreases t,
    {
        if t == 0 {
            self
        } else {
            self.ticks((t - 1) as nat).next()
        }
    }
}

/// Runs the hue wheel on every pixel of a strip, each pixel on its own.
pub struct Rgb8RainbowWheelAnimation {
    wheels: Vec<ColorCycler>,
    pixels: Vec<Rgb8>,
}

impl View for Rgb8RainbowWheelAnimation {
    type V = WheelModel;

    closed spec fn view(&self) -> WheelModel {
        WheelModel { wheels: self.wheels@, pixels: self.pixels@ }
    }
}

impl Rgb8RainbowWheelAnimation {
    /// Creates a new animation with all lights off, every wheel about to
    /// raise red by `color_step_amount` per tick.
    pub fn new(num_pixels: usize, color_step_amount: u8) -> (a: Self)
        ensures
            a@.wheels == Seq::new(
                num_pixels as nat,
                |i: int| ColorCycler { color: off(), phase: PixelColor::Red, step: color_step_amount },
            ),
            a@.pixels == Seq::new(num_pixels as nat, |i: int| off()),
            a.well_formed(),
    {
        let start = ColorCycler::new(Rgb8::new(0, 0, 0), PixelColor::Red, color_step_amount);
        let mut wheels: Vec<ColorCycler> = Vec::new();
        let mut pixels: Vec<Rgb8> = Vec::new();
        let mut i: usize = 0;
        while i < num_pixels
            invariant
                i <= num_pixels,
                start == (ColorCycler { color: off(), phase: PixelColor::Red, step: color_step_amount }),
                wheels@ == Seq::new(i as nat, |j: int| start),
                pixels@ == Seq::new(i as nat, |j: int| off()),
            decreases num_pixels - i,
        {
            wheels.push(start);
            pixels.push(Rgb8::new(0, 0, 0));
            i = i + 1;
            assert(wheels@ =~= Seq::new(i as nat, |j: int| start));
            assert(pixels@ =~= Seq::new(i as nat, |j: int| off()));
        }
        Rgb8RainbowWheelAnimation { wheels, pixels }
    }
}

impl RgbLedAnimation for Rgb8RainbowWheelAnimation {
    open spec fn frame(&self) -> Seq<Rgb8> {
        self@.pixels
    }

    open spec fn well_formed(&self) -> bool {
        self@.inv()
    }

    fn next_frame(&mut self)
        ensures
            final(self)@ == old(self)@.next(),
    {
        let n = self.wheels.len();
        let mut i: usize = 0;
        while i < n
            invariant
                i <= n,
                n == self.wheels@.len() == self.pixels@.len() == old(self)@.wheels.len(),
                forall|j: int| 0 <= j < i ==> #[trigger] self.wheels@[j] == old(self)@.wheels[j].next(),
                forall|j: int| i <= j < n ==> #[trigger] self.wheels@[j] == old(self)@.wheels[j],
                forall|j: int| 0 <= j < i ==> #[trigger] self.pixels@[j] == self.wheels@[j].color,
            decreases n - i,
        {
            let mut wheel = self.wheels[i];
            wheel.advance();
            self.wheels[i] = wheel;
            self.pixels[i] = wheel.color;
            i = i + 1;
        }
        assert(self.wheels@ =~= old(self)@.next().wheels);
        assert(self.pixels@ =~= old(self)@.next().pixels);
    }

    fn pixels(&self) -> (r: &Vec<Rgb8>) {
        &self.pixels
    }
}

/// However many ticks pass, the pixel buffer keeps the length it was made
/// with and every pixel shows its own wheel's color.
pub proof fn lemma_wheel_length_kept(m: WheelModel, t: nat)
    requires
        m.inv(),
    ensures
        m.ticks(t).inv(),
        m.ticks(t).pixels.len() == m.pixels.len(),
    decreases t,
{
    if t > 0 {
        lemma_wheel_length_kept(m, (t - 1) as nat);
    }
}

} // verus!
