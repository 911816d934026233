//! The 2-D turtle-graphics engine: a pose (position, heading, pen state)
//! plus an append-only log of drawn segments.
//!
//! Positions are whole canvas units and headings whole degrees. Moves are
//! computed in fixed-point arithmetic: the sine of a heading is held in
//! thousandths, by a rational one-term approximation that is exact at 0, 30,
//! 90, 150 and 180 degrees, so axis-aligned moves land exactly. Coordinates
//! saturate at the `i64` range instead of wrapping.
//!
//! Turtle commands report through the calling dialect's transcript; the
//! engine itself only mutates state (one output channel, kept deliberately).

use vstd::prelude::*;

verus! {

/// One drawn line segment, from `(x1, y1)` to `(x2, y2)`.
#[derive(Clone, Copy, PartialEq, Eq, Structural, Debug)]
pub struct Segment {
    pub x1: i64,
    pub y1: i64,
    pub x2: i64,
    pub y2: i64,
}

/// The turtle state as contracts see it.
#[verifier::ext_equal]
pub ghost struct TurtleModel {
    pub x: i64,
    pub y: i64,
    pub heading: i64,
    pub pen_down: bool,
    pub segments: Seq<Segment>,
}

/// The turtle engine state.
pub struct Turtle {
    pub x: i64,
    pub y: i64,
    pub heading: i64,
    pub pen_down: bool,
    pub segments: Vec<Segment>,
}

impl View for Turtle {
    type V = TurtleModel;

    open spec fn view(&self) -> TurtleModel {
        TurtleModel {
            x: self.x,
            y: self.y,
            heading: self.heading,
            pen_down: self.pen_down,
            segments: self.segments@,
        }
    }
}

/// The canvas reference point the turtle starts from and returns to.
pub const HOME_X: i64 = 200;

pub const HOME_Y: i64 = 200;

/// `h` reduced to a whole number of degrees in `[0, 360)`.
pub open spec fn norm360(h: int) -> int {
    if h >= 0 {
        h % 360
    } else {
        let m = (-h) % 360;
        if m == 0 {
            0
        } else {
            360 - m
        }
    }
}

/// Sine in thousandths on `[0, 180]` degrees, by the one-term rational
/// approximation `4000 d (180 - d) / (40500 - d (180 - d))`.
pub open spec fn half_sine_milli(d: int) -> int {
    (4000 * (d * (180 - d))) / (40500 - d * (180 - d))
}

/// Sine in thousandths for a normalized heading in `[0, 360)`.
pub open spec fn sin_milli(d: int) -> int {
    if d <= 180 {
        half_sine_milli(d)
    } else {
        -half_sine_milli(d - 180)
    }
}

/// Cosine in thousandths for a normalized heading in `[0, 360)`.
pub open spec fn cos_milli(d: int) -> int {
    if d < 270 {
        sin_milli(d + 90)
    } else {
        sin_milli(d - 270)
    }
}

/// `v` saturated into the `i64` range.
pub open spec fn clamp_i64(v: int) -> i64 {
    if v > i64::MAX {
        i64::MAX
    } else if v < i64::MIN {
        i64::MIN
    } else {
        v as i64
    }
}

/// Displacement of a move of length `dist` against a trigonometric factor in
/// thousandths, truncated toward zero.
pub open spec fn move_delta(dist: int, trig: int) -> int {
    let p = dist * trig;
    if p >= 0 {
        p / 1000
    } else {
        -((-p) / 1000)
    }
}

/// A forward move: the new position, and a logged segment when the pen is
/// down. A backward move is a forward move with negated distance.
pub open spec fn forward_model(t: TurtleModel, dist: int) -> TurtleModel {
    let h = norm360(t.heading as int);
    let nx = clamp_i64(t.x + move_delta(dist, cos_milli(h)));
    let ny = clamp_i64(t.y + move_delta(dist, sin_milli(h)));
    TurtleModel {
        x: nx,
        y: ny,
        heading: t.heading,
        pen_down: t.pen_down,
        segments: if t.pen_down {
            t.segments.push(Segment { x1: t.x, y1: t.y, x2: nx, y2: ny })
        } else {
            t.segments
        },
    }
}

/// A turn: the heading changes by `delta` degrees (positive is clockwise),
/// saturating at the `i64` range.
pub open spec fn turn_model(t: TurtleModel, delta: int) -> TurtleModel {
    TurtleModel { heading: clamp_i64(t.heading + delta), ..t }
}

pub open spec fn pen_model(t: TurtleModel, down: bool) -> TurtleModel {
    TurtleModel { pen_down: down, ..t }
}

/// `HOME`: position and heading reset; the segment log is untouched.
pub open spec fn home_model(t: TurtleModel) -> TurtleModel {
    TurtleModel { x: HOME_X, y: HOME_Y, heading: 0, ..t }
}

/// `CLEARSCREEN`: the `HOME` reset plus an emptied segment log.
pub open spec fn clear_model(t: TurtleModel) -> TurtleModel {
    TurtleModel { x: HOME_X, y: HOME_Y, heading: 0, pen_down: t.pen_down, segments: Seq::empty() }
}

pub open spec fn initial_turtle() -> TurtleModel {
    TurtleModel { x: HOME_X, y: HOME_Y, heading: 0, pen_down: true, segments: Seq::empty() }
}

fn norm360_exec(h: i64) -> (r: i64)
    ensures
        r == norm360(h as int),
        0 <= r < 360,
{
    if h >= 0 {
        ((h as u64) % 360) as i64
    } else {
        let m = (((-(h as i128)) as u128) % 360) as i64;
        if m == 0 {
            0
        } else {
            360 - m
        }
    }
}

fn half_sine_milli_exec(d: i64) -> (r: i64)
    requires
        0 <= d <= 180,
    ensures
        r == half_sine_milli(d as int),
        0 <= r <= 1000,
{
    proof {
        assert(0 <= (d as int) * (180 - d as int) <= 8100) by (nonlinear_arith)
            requires
                0 <= d as int <= 180,
        ;
    }
    let p: u64 = ((d as u64) * ((180 - d) as u64));
    proof {
        assert((d as u64) as int * ((180 - d) as u64) as int == (d as int) * (180 - d as int));
    }
    let r = ((4000 * p) / (40500 - p)) as i64;
    proof {
        let pi = p as int;
        assert((4000 * pi) / (40500 - pi) <= 1000) by (nonlinear_arith)
            requires
                0 <= pi <= 8100,
        ;
        assert((4000 * pi) / (40500 - pi) >= 0) by (nonlinear_arith)
            requires
                0 <= pi <= 8100,
        ;
    }
    r
}

fn sin_milli_exec(d: i64) -> (r: i64)
    requires
        0 <= d < 360,
    ensures
        r == sin_milli(d as int),
        -1000 <= r <= 1000,
{
    if d <= 180 {
        half_sine_milli_exec(d)
    } else {
        -half_sine_milli_exec(d - 180)
    }
}

fn cos_milli_exec(d: i64) -> (r: i64)
    requires
        0 <= d < 360,
    ensures
        r == cos_milli(d as int),
        -1000 <= r <= 1000,
{
    if d < 270 {
        sin_milli_exec(d + 90)
    } else {
        sin_milli_exec(d - 270)
    }
}

fn clamp_exec(v: i128) -> (r: i64)
    ensures
        r == clamp_i64(v as int),
{
    if v > i64::MAX as i128 {
        i64::MAX
    } else if v < i64::MIN as i128 {
        i64::MIN
    } else {
        v as i64
    }
}

/// `pos + move_delta(dist, trig)`, computed exactly in wider arithmetic,
/// then saturated.
fn step_coord(pos: i64, dist: i128, trig: i64) -> (r: i64)
    requires
        -1000 <= trig <= 1000,
        -0x8000_0000_0000_0000i128 <= dist <= 0x8000_0000_0000_0000i128,
    ensures
        r == clamp_i64(pos + move_delta(dist as int, trig as int)),
{
    proof {
        assert(-1000 * 0x8000_0000_0000_0000 <= (dist as int) * (trig as int) <= 1000
            * 0x8000_0000_0000_0000) by (nonlinear_arith)
            requires
                -1000 <= trig as int <= 1000,
                -0x8000_0000_0000_0000 <= dist as int <= 0x8000_0000_0000_0000,
        ;
    }
    let p: i128 = dist * (trig as i128);
    let delta: i128 = if p >= 0 {
        ((p as u128) / 1000) as i128
    } else {
        let q = (((-p) as u128) / 1000) as i128;
        -q
    };
    proof {
        if p as int >= 0 {
            assert(0 <= (p as int) / 1000 <= p as int) by (nonlinear_arith)
                requires
                    p as int >= 0,
            ;
        } else {
            assert(0 <= ((-p) as int) / 1000 <= (-p) as int) by (nonlinear_arith)
                requires
                    (-p) as int >= 0,
            ;
        }
        assert(delta as int == move_delta(dist as int, trig as int));
    }
    let sum: i128 = (pos as i128) + delta;
    clamp_exec(sum)
}

impl Turtle {
    pub fn new() -> (r: Self)
        ensures
            r@ == initial_turtle(),
    {
        let r = Turtle { x: HOME_X, y: HOME_Y, heading: 0, pen_down: true, segments: Vec::new() };
        proof {
            assert(r@ =~= initial_turtle());
        }
        r
    }

    /// Moves `dist` units along the heading, drawing when the pen is down.
    pub fn forward(&mut self, dist: i64)
        ensures
            final(self)@ == forward_model(old(self)@, dist as int),
    {
        let h = norm360_exec(self.heading);
        let c = cos_milli_exec(h);
        let s = sin_milli_exec(h);
        let nx = step_coord(self.x, dist as i128, c);
        let ny = step_coord(self.y, dist as i128, s);
        if self.pen_down {
            self.segments.push(Segment { x1: self.x, y1: self.y, x2: nx, y2: ny });
        }
        self.x = nx;
        self.y = ny;
        proof {
            assert(final(self)@ =~= forward_model(old(self)@, dist as int));
        }
    }

    /// Moves `dist` units against the heading; equivalent to a forward move
    /// of `-dist`.
    pub fn backward(&mut self, dist: i64)
        ensures
            final(self)@ == forward_model(old(self)@, -(dist as int)),
    {
        let h = norm360_exec(self.heading);
        let c = cos_milli_exec(h);
        let s = sin_milli_exec(h);
        let nd: i128 = -(dist as i128);
        let nx = step_coord(self.x, nd, c);
        let ny = step_coord(self.y, nd, s);
        if self.pen_down {
            self.segments.push(Segment { x1: self.x, y1: self.y, x2: nx, y2: ny });
        }
        self.x = nx;
        self.y = ny;
        proof {
            assert(final(self)@ =~= forward_model(old(self)@, -(dist as int)));
        }
    }

    /// Turns clockwise by `angle` degrees.
    pub fn right(&mut self, angle: i64)
        ensures
            final(self)@ == turn_model(old(self)@, angle as int),
    {
        let sum: i128 = (self.heading as i128) + (angle as i128);
        self.heading = clamp_exec(sum);
        proof {
            assert(final(self)@ =~= turn_model(old(self)@, angle as int));
        }
    }

    /// Turns counter-clockwise by `angle` degrees.
    pub fn left(&mut self, angle: i64)
        ensures
            final(self)@ == turn_model(old(self)@, -(angle as int)),
    {
        let sum: i128 = (self.heading as i128) - (angle as i128);
        self.heading = clamp_exec(sum);
        proof {
            assert(final(self)@ =~= turn_model(old(self)@, -(angle as int)));
        }
    }

    pub fn pen_up(&mut self)
        ensures
            final(self)@ == pen_model(old(self)@, false),
    {
        self.pen_down = false;
        proof {
            assert(final(self)@ =~= pen_model(old(self)@, false));
        }
    }

    pub fn pen_down(&mut self)
        ensures
            final(self)@ == pen_model(old(self)@, true),
    {
        self.pen_down = true;
        proof {
            assert(final(self)@ =~= pen_model(old(self)@, true));
        }
    }

    /// Resets position and heading; the segment log is untouched.
    pub fn home(&mut self)
        ensures
            final(self)@ == home_model(old(self)@),
    {
        self.x = HOME_X;
        self.y = HOME_Y;
        self.heading = 0;
        proof {
            assert(final(self)@ =~= home_model(old(self)@));
        }
    }

    /// Empties the segment log and resets position and heading.
    pub fn clear_screen(&mut self)
        ensures
            final(self)@ == clear_model(old(self)@),
    {
        self.segments = Vec::new();
        self.x = HOME_X;
        self.y = HOME_Y;
        self.heading = 0;
        proof {
            assert(final(self)@ =~= clear_model(old(self)@));
        }
    }
}

} // verus!
