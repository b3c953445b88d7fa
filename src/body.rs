//! Bodies: dynamic circles and static rectangles, with the quantities the
//! resolver and corrector read from either kind.
use vstd::prelude::*;
use crate::fixed::{clamp, in_range, sat, tdiv, tdiv_i128, LIMIT, MASS_LIMIT, SCALE};
use crate::vec2::Vec2;

verus! {

/// What contact resolution reads of a body, whatever its shape.
#[derive(Clone, Copy, Debug, PartialEq, Eq, Structural)]
pub struct BodyState {
    pub position: Vec2,
    pub velocity: Vec2,
    /// Zero for a fixed body.
    pub mass: i64,
    pub restitution: i64,
}

impl BodyState {
    pub open spec fn wf(self) -> bool {
        &&& self.position.wf()
        &&& self.velocity.wf()
        &&& 0 <= self.mass <= MASS_LIMIT
        &&& in_range(self.restitution as int)
    }
}

/// Inverse mass in fixed point: `1 / mass`, or zero for a fixed body.
pub open spec fn inv_of(mass: int) -> int {
    if mass != 0 {
        tdiv(SCALE * SCALE, mass)
    } else {
        0
    }
}

/// A dynamic circle.
#[derive(Clone, Debug)]
pub struct Ball {
    pub position: Vec2,
    pub velocity: Vec2,
    pub radius: i64,
    pub restitution: i64,
    pub mass: i64,
    pub color: String,
    pub inv_mass: i64,
}

/// A static axis-aligned rectangle, given by its top-left corner and size.
#[derive(Clone, Copy, Debug, PartialEq, Eq, Structural)]
pub struct Block {
    pub position: Vec2,
    pub size: Vec2,
}

fn sat_i64(x: i64) -> (r: i64)
    ensures
        r == sat(x as int),
{
    if x < -LIMIT {
        -LIMIT
    } else if x > LIMIT {
        LIMIT
    } else {
        x
    }
}

impl Block {
    pub open spec fn wf(self) -> bool {
        self.position.wf() && self.size.wf()
    }

    /// A rectangle with top-left corner `(x, y)`; each quantity is saturated
    /// into the stored range.
    pub fn new(x: i64, y: i64, width: i64, height: i64) -> (r: Block)
        ensures
            r.wf(),
            r.position == (Vec2 { x: sat(x as int) as i64, y: sat(y as int) as i64 }),
            r.size == (Vec2 { x: sat(width as int) as i64, y: sat(height as int) as i64 }),
    {
        Block {
            position: Vec2 { x: sat_i64(x), y: sat_i64(y) },
            size: Vec2 { x: sat_i64(width), y: sat_i64(height) },
        }
    }

    pub fn position(&self) -> (r: Vec2)
        ensures
            r == self.position,
    {
        self.position
    }

    pub fn size(&self) -> (r: Vec2)
        ensures
            r == self.size,
    {
        self.size
    }

    /// An obstacle never moves.
    pub fn velocity(&self) -> (r: Vec2)
        ensures
            r == (Vec2 { x: 0, y: 0 }),
    {
        Vec2 { x: 0, y: 0 }
    }

    /// An obstacle has infinite mass, written as zero.
    pub fn mass(&self) -> (r: i64)
        ensures
            r == 0,
    {
        0
    }

    pub fn inv_mass(&self) -> (r: i64)
        ensures
            r == 0,
    {
        0
    }

    /// Contacts with an obstacle are elastic on its side.
    pub fn restitution(&self) -> (r: i64)
        ensures
            r == SCALE,
    {
        SCALE
    }

    /// An obstacle never moves: setting its position changes nothing.
    pub fn set_position(&mut self, _position: Vec2)
        ensures
            *final(self) == *old(self),
    {
    }

    /// An obstacle never moves: setting its velocity changes nothing.
    pub fn set_velocity(&mut self, _velocity: Vec2)
        ensures
            *final(self) == *old(self),
    {
    }

    pub open spec fn spec_state(self) -> BodyState {
        BodyState {
            position: self.position,
            velocity: Vec2 { x: 0, y: 0 },
            mass: 0,
            restitution: SCALE,
        }
    }

    pub fn state(&self) -> (r: BodyState)
        requires
            self.wf(),
        ensures
            r == self.spec_state(),
            r.wf(),
    {
        BodyState {
            position: self.position,
            velocity: Vec2 { x: 0, y: 0 },
            mass: 0,
            restitution: SCALE,
        }
    }
}

impl Ball {
    pub open spec fn wf(self) -> bool {
        &&& self.position.wf()
        &&& self.velocity.wf()
        &&& in_range(self.radius as int)
        &&& in_range(self.restitution as int)
        &&& 0 <= self.mass <= MASS_LIMIT
        &&& self.inv_mass == inv_of(self.mass as int)
    }

    /// A circle centred on `(x, y)` moving with `(vx, vy)`. Quantities are
    /// saturated into the stored range and the mass into `[0, MASS_LIMIT]`;
    /// a zero mass makes the circle fixed.
    pub fn new(
        x: i64,
        y: i64,
        radius: i64,
        vx: i64,
        vy: i64,
        color: String,
        mass: i64,
        restitution: i64,
    ) -> (r: Ball)
        ensures
            r.wf(),
            r.position == (Vec2 { x: sat(x as int) as i64, y: sat(y as int) as i64 }),
            r.velocity == (Vec2 { x: sat(vx as int) as i64, y: sat(vy as int) as i64 }),
            r.radius == sat(radius as int),
            r.restitution == sat(restitution as int),
            r.mass == clamp(mass as int, 0, MASS_LIMIT as int),
            r.color@ == color@,
    {
        let m = if mass < 0 {
            0
        } else if mass > MASS_LIMIT {
            MASS_LIMIT
        } else {
            mass
        };
        let inv = if m != 0 {
            tdiv_i128(100_000_000, m as i128) as i64
        } else {
            0
        };
        Ball {
            position: Vec2 { x: sat_i64(x), y: sat_i64(y) },
            velocity: Vec2 { x: sat_i64(vx), y: sat_i64(vy) },
            radius: sat_i64(radius),
            restitution: sat_i64(restitution),
            mass: m,
            color,
            inv_mass: inv,
        }
    }

    pub fn position(&self) -> (r: Vec2)
        ensures
            r == self.position,
    {
        self.position
    }

    pub fn radius(&self) -> (r: i64)
        ensures
            r == self.radius,
    {
        self.radius
    }

    pub fn color(&self) -> (r: String)
        ensures
            r@ == self.color@,
    {
        self.color.clone()
    }

    pub fn velocity(&self) -> (r: Vec2)
        ensures
            r == self.velocity,
    {
        self.velocity
    }

    /// Zero for a fixed circle.
    pub fn mass(&self) -> (r: i64)
        ensures
            r == self.mass,
    {
        self.mass
    }

    pub fn inv_mass(&self) -> (r: i64)
        requires
            self.wf(),
        ensures
            r == inv_of(self.mass as int),
    {
        self.inv_mass
    }

    pub fn restitution(&self) -> (r: i64)
        ensures
            r == self.restitution,
    {
        self.restitution
    }

    pub fn set_position(&mut self, position: Vec2)
        ensures
            *final(self) == (Ball { position, ..*old(self) }),
    {
        self.position = position;
    }

    pub fn set_velocity(&mut self, velocity: Vec2)
        ensures
            *final(self) == (Ball { velocity, ..*old(self) }),
    {
        self.velocity = velocity;
    }

    pub open spec fn spec_state(self) -> BodyState {
        BodyState {
            position: self.position,
            velocity: self.velocity,
            mass: self.mass,
            restitution: self.restitution,
        }
    }

    pub fn state(&self) -> (r: BodyState)
        requires
            self.wf(),
        ensures
            r == self.spec_state(),
            r.wf(),
    {
        BodyState {
            position: self.position,
            velocity: self.velocity,
            mass: self.mass,
            restitution: self.restitution,
        }
    }
}

} // verus!
