use vstd::prelude::*;

verus! {

/// One pixel: a red, a green and a blue byte channel.
#[derive(Clone, Copy, PartialEq, Eq, Structural, Debug)]
pub struct Rgb8 {
    pub r: u8,
    pub g: u8,
    pub b: u8,
}

impl Rgb8 {
    /// Creates a color from its three channels.
    pub fn new(r: u8, g: u8, b: u8) -> (c: Rgb8)
        ensures
            c == (Rgb8 { r, g, b }),
    {
        Rgb8 { r, g, b }
    }
}

/// The color of a pixel that is switched off.
pub open spec fn off() -> Rgb8 {
    Rgb8 { r: 0, g: 0, b: 0 }
}

/// A color channel; in a hue wheel, the channel currently being raised.
#[derive(Clone, Copy, PartialEq, Eq, Structural, Debug)]
pub enum PixelColor {
    Red,
    Blue,
    Green,
}

/// Direction for the animation to move in.
#[derive(Clone, Copy, PartialEq, Eq, Structural, Debug)]
pub enum Direction {
    Forward,
    Backward,
}

/// Something that performs an RGB LED animation, one frame per tick.
pub trait RgbLedAnimation: Sized {
    /// The pixel buffer the animation currently shows.
    spec fn frame(&self) -> Seq<Rgb8>;

    /// The animation's internal invariant.
    spec fn well_formed(&self) -> bool;

    /// Calculates the next frame of the animation.
    fn next_frame(&mut self)
        requires
            old(self).well_formed(),
        ensures
            final(self).well_formed(),
            final(self).frame().len() == old(self).frame().len(),
    ;

    /// The current pixel buffer, for handing to whatever drives the strip.
    fn pixels(&self) -> (r: &Vec<Rgb8>)
        ensures
            r@ == self.frame(),
    ;
}

} // verus!
