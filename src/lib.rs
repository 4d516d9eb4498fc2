//! Frame generation for addressable RGB LED strips: each animation keeps a
//! buffer of pixel colors and computes the next one on every tick.
pub mod basic_pixel_sequence_animation;
pub mod color_cycler;
pub mod rainbow_snake_animation;
pub mod rainbow_wheel_animation;
pub mod ws2812_led_animation;

pub use basic_pixel_sequence_animation::Rgb8BasicPixelSequenceAnimation;
pub use color_cycler::{pixel_decrement, pixel_increment, ColorCycler};
pub use rainbow_snake_animation::Rgb8RainbowSnakeAnimation;
pub use rainbow_wheel_animation::Rgb8RainbowWheelAnimation;
pub use ws2812_led_animation::{Direction, PixelColor, Rgb8, RgbLedAnimation};
