use std::collections::VecDeque;
use vstd::arithmetic::div_mod::{
    lemma_mod_add_multiples_vanish, lemma_mod_bound, lemma_mod_sub_multiples_vanish,
    lemma_small_mod,
};
use vstd::prelude::*;

use crate::ws2812_led_animation::{Direction, Rgb8, RgbLedAnimation};

verus! {

/// `s` rotated right by one: the last element moves to the front.
pub open spec fn rotate_forward(s: Seq<Rgb8>) -> Seq<Rgb8> {
    if s.len() == 0 {
        s
    } else {
        seq![s.last()] + s.drop_last()
    }
}

/// `s` rotated left by one: the first element moves to the back.
pub open spec fn rotate_backward(s: Seq<Rgb8>) -> Seq<Rgb8> {
    if s.len() == 0 {
        s
    } else {
        s.drop_first().push(s[0])
    }
}

/// `s` rotated one step in the direction `d`.
pub open spec fn rotate(s: Seq<Rgb8>, d: Direction) -> Seq<Rgb8> {
    match d {
        Direction::Forward => rotate_forward(s),
        Direction::Backward => rotate_backward(s),
    }
}

/// `s` rotated right by `k` places (left, for negative `k`).
pub open spec fn rotated(s: Seq<Rgb8>, k: int) -> Seq<Rgb8> {
    Seq::new(s.len(), |i: int| s[(i - k) % (s.len() as int)])
}

/// The first `n` elements of the endless repetition of `s`.
pub open spec fn repeat_to(s: Seq<Rgb8>, n: nat) -> Seq<Rgb8> {
    Seq::new(n, |i: int| s[i % (s.len() as int)])
}

/// The state of a sequence animation.
pub struct SequenceModel {
    pub sequence: Seq<Rgb8>,
    pub pixels: Seq<Rgb8>,
    pub num_pixels: nat,
    pub direction: Direction,
}

impl SequenceModel {
    pub open spec fn inv(self) -> bool {
        &&& self.sequence.len() > 0
        &&& self.pixels == repeat_to(self.sequence, self.num_pixels)
    }

    /// The state after one tick: the pattern turns by one place in the
    /// direction of travel and the pixels repeat it anew.
    pub open spec fn next(self) -> SequenceModel {
        let s = rotate(self.sequence, self.direction);
        SequenceModel { sequence: s, pixels: repeat_to(s, self.num_pixels), ..self }
    }

    /// The state after `t` ticks.
    pub open spec fn ticks(self, t: nat) -> SequenceModel
        decreases t,
    {
        if t == 0 {
            self
        } else {
            self.ticks((t - 1) as nat).next()
        }
    }

    pub open spec fn with_direction(self, d: Direction) -> SequenceModel {
        SequenceModel { direction: d, ..self }
    }
}

/// Moves a repeating pattern of pixels along a strip, one pixel per tick.
pub struct Rgb8BasicPixelSequenceAnimation {
    repeated_color_sequence: VecDeque<Rgb8>,
    pixels: Vec<Rgb8>,
    num_pixels: usize,
    direction: Direction,
}

impl View for Rgb8BasicPixelSequenceAnimation {
    type V = SequenceModel;

    closed spec fn view(&self) -> SequenceModel {
        SequenceModel {
            sequence: self.repeated_color_sequence@,
            pixels: self.pixels@,
            num_pixels: self.num_pixels as nat,
            direction: self.direction,
        }
    }
}

/// The first `n` elements of the endless repetition of `s`.
fn repeat_sequence(s: &VecDeque<Rgb8>, n: usize) -> (r: Vec<Rgb8>)
    requires
        s@.len() > 0,
    ensures
        r@ == repeat_to(s@, n as nat),
{
    let len = s.len();
    let mut r: Vec<Rgb8> = Vec::new();
    let mut i: usize = 0;
    while i < n
        invariant
            i <= n,
            len == s@.len() > 0,
            r@ == repeat_to(s@, i as nat),
        decreases n - i,
    {
        proof {
            lemma_mod_bound(i as int, len as int);
        }
        r.push(s[i % len]);
        i = i + 1;
        assert(r@ =~= repeat_to(s@, i as nat));
    }
    r
}

impl Rgb8BasicPixelSequenceAnimation {
    /// Creates a new animation showing `pixel_sequence` repeated over
    /// `num_pixels` pixels, to move in `direction`.
    pub fn new(num_pixels: usize, pixel_sequence: Vec<Rgb8>, direction: Direction) -> (a: Self)
        requires
            pixel_sequence@.len() > 0,
        ensures
            a@ == (SequenceModel {
                sequence: pixel_sequence@,
                pixels: repeat_to(pixel_sequence@, num_pixels as nat),
                num_pixels: num_pixels as nat,
                direction,
            }),
            a.well_formed(),
    {
        let mut sequence: VecDeque<Rgb8> = VecDeque::new();
        let mut i: usize = 0;
        while i < pixel_sequence.len()
            invariant
                i <= pixel_sequence@.len(),
                sequence@ == pixel_sequence@.subrange(0, i as int),
            decreases pixel_sequence@.len() - i,
        {
            sequence.push_back(pixel_sequence[i]);
            i = i + 1;
            assert(sequence@ =~= pixel_sequence@.subrange(0, i as int));
        }
        assert(sequence@ =~= pixel_sequence@);
        let pixels = repeat_sequence(&sequence, num_pixels);
        Rgb8BasicPixelSequenceAnimation {
            repeated_color_sequence: sequence,
            pixels,
            num_pixels,
            direction,
        }
    }

    /// Sets the direction in which the pattern moves from the next tick on.
    pub fn set_direction(&mut self, direction: Direction)
        ensures
            final(self)@ == old(self)@.with_direction(direction),
    {
        self.direction = direction;
    }
}

impl RgbLedAnimation for Rgb8BasicPixelSequenceAnimation {
    open spec fn frame(&self) -> Seq<Rgb8> {
        self@.pixels
    }

    open spec fn well_formed(&self) -> bool {
        self@.inv()
    }

    fn next_frame(&mut self)
        ensures
            final(self)@ == old(self)@.next(),
    {
        let popped = match self.direction {
            Direction::Forward => self.repeated_color_sequence.pop_back(),
            Direction::Backward => self.repeated_color_sequence.pop_front(),
        };
        if let Some(popped) = popped {
            match self.direction {
                Direction::Forward => self.repeated_color_sequence.push_front(popped),
                Direction::Backward => self.repeated_color_sequence.push_back(popped),
            }
        }
        assert(self.repeated_color_sequence@ =~= rotate(
            old(self)@.sequence,
            self.direction,
        ));
        self.pixels = repeat_sequence(&self.repeated_color_sequence, self.num_pixels);
    }

    fn pixels(&self) -> (r: &Vec<Rgb8>) {
        &self.pixels
    }
}

/// Turning a pattern forward by one place turns it by one more place.
proof fn lemma_rotate_forward_rotated(s: Seq<Rgb8>, k: int)
    requires
        s.len() > 0,
    ensures
        rotate_forward(rotated(s, k)) == rotated(s, k + 1),
{
    let n = s.len() as int;
    let t = rotated(s, k);
    assert forall|i: int| 0 <= i < n implies #[trigger] rotate_forward(t)[i] == rotated(s, k + 1)[i] by {
        if i == 0 {
            lemma_mod_add_multiples_vanish(-k - 1, n);
        }
    }
    assert(rotate_forward(t) =~= rotated(s, k + 1));
}

/// Turning a pattern backward by one place turns it by one place less.
proof fn lemma_rotate_backward_rotated(s: Seq<Rgb8>, k: int)
    requires
        s.len() > 0,
    ensures
        rotate_backward(rotated(s, k)) == rotated(s, k - 1),
{
    let n = s.len() as int;
    let t = rotated(s, k);
    assert forall|i: int| 0 <= i < n implies #[trigger] rotate_backward(t)[i] == rotated(s, k - 1)[i] by {
        if i == n - 1 {
            lemma_mod_add_multiples_vanish(-k, n);
        }
    }
    assert(rotate_backward(t) =~= rotated(s, k - 1));
}

/// A pattern turned by no places, or by its whole length either way, is
/// the pattern itself.
proof fn lemma_rotated_full_turn(s: Seq<Rgb8>)
    requires
        s.len() > 0,
    ensures
        rotated(s, 0) == s,
        rotated(s, s.len() as int) == s,
        rotated(s, -(s.len() as int)) == s,
{
    let n = s.len() as int;
    assert forall|i: int| 0 <= i < n implies #[trigger] rotated(s, 0)[i] == s[i] && rotated(s, n)[i]
        == s[i] && rotated(s, -n)[i] == s[i] by {
        lemma_small_mod(i as nat, n as nat);
        lemma_mod_sub_multiples_vanish(i, n);
        lemma_mod_add_multiples_vanish(i, n);
    }
    assert(rotated(s, 0) =~= s);
    assert(rotated(s, n) =~= s);
    assert(rotated(s, -n) =~= s);
}

/// After `t` ticks the pattern has turned `t` places in the direction of
/// travel, and nothing else has changed but the pixels.
proof fn lemma_ticks_rotate(m: SequenceModel, t: nat)
    requires
        m.inv(),
    ensures
        m.ticks(t).inv(),
        m.ticks(t).num_pixels == m.num_pixels,
        m.ticks(t).direction == m.direction,
        m.ticks(t).sequence == rotated(
            m.sequence,
            if m.direction == Direction::Forward {
                t as int
            } else {
                -t
            },
        ),
    decreases t,
{
    if t == 0 {
        lemma_rotated_full_turn(m.sequence);
    } else {
        let prev = m.ticks((t - 1) as nat);
        lemma_ticks_rotate(m, (t - 1) as nat);
        assert(m.ticks(t) == prev.next());
        if m.direction == Direction::Forward {
            lemma_rotate_forward_rotated(m.sequence, (t - 1) as int);
            assert(prev.next().sequence == rotated(m.sequence, t as int));
        } else {
            lemma_rotate_backward_rotated(m.sequence, -(t - 1));
            assert(prev.next().sequence == rotated(m.sequence, -t));
        }
    }
}

/// However many ticks pass, the pixel buffer keeps the length it was made
/// with and the animation stays well formed.
pub proof fn lemma_sequence_length_kept(m: SequenceModel, t: nat)
    requires
        m.inv(),
    ensures
        m.ticks(t).inv(),
        m.ticks(t).pixels.len() == m.pixels.len(),
{
    lemma_ticks_rotate(m, t);
}

/// After as many ticks in one direction as the pattern is long, the
/// animation is back where it started.
pub proof fn lemma_sequence_period(m: SequenceModel)
    requires
        m.inv(),
    ensures
        m.ticks(m.sequence.len()) == m,
{
    lemma_ticks_rotate(m, m.sequence.len());
    lemma_rotated_full_turn(m.sequence);
}

/// A tick forward followed, after a change of direction, by a tick backward
/// gives back the pattern and the pixels from before; and the same the other
/// way round. So a change of direction takes effect on the very next tick,
/// with no step skipped or repeated.
pub proof fn lemma_direction_change_reverses(m: SequenceModel)
    requires
        m.inv(),
    ensures
        m.with_direction(Direction::Forward).next().with_direction(Direction::Backward).next()
            == m.with_direction(Direction::Backward),
        m.with_direction(Direction::Backward).next().with_direction(Direction::Forward).next()
            == m.with_direction(Direction::Forward),
{
    let s = m.sequence;
    assert(rotate_backward(rotate_forward(s)) =~= s);
    assert(rotate_forward(rotate_backward(s)) =~= s);
}

} // verus!
