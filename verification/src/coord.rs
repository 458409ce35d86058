//! Grid positions and the four unit directions.
//!
//! A [`Coord`] is an `(x, y)` position bound to a fixed grid extent; it
//! supports bounds-checked translation by a direction [`Vector`]. Two
//! coordinates are equal iff their `(x, y)` match; the extents are carried
//! for validation but excluded from equality.

use vstd::prelude::*;

verus! {

/// A position on a grid of extent `(max_x + 1) x (max_y + 1)`.
#[derive(Copy, Clone, Debug)]
pub struct Coord {
    pub x: usize,
    pub y: usize,
    pub max_x: usize,
    pub max_y: usize,
}

/// A direction of movement. The puzzle only ever uses the four unit
/// directions `(1,0)`, `(-1,0)`, `(0,1)` and `(0,-1)`.
#[derive(Copy, Clone, Debug)]
pub struct Vector {
    pub dx: isize,
    pub dy: isize,
}

impl Vector {
    pub open spec fn is_unit(self) -> bool {
        (self.dx == 1 && self.dy == 0)
        || (self.dx == -1 && self.dy == 0)
        || (self.dx == 0 && self.dy == 1)
        || (self.dx == 0 && self.dy == -1)
    }

    pub fn new(dx: isize, dy: isize) -> (r: Self)
        ensures
            r.dx == dx,
            r.dy == dy,
    {
        Self { dx, dy }
    }
}

impl Coord {
    /// The position lies within the extents it carries.
    pub open spec fn wf(self) -> bool {
        self.x <= self.max_x && self.y <= self.max_y
    }

    /// True if one step from `self` in direction `v` stays on the grid.
    pub open spec fn can_step(self, v: Vector) -> bool {
        &&& (v.dx == 1 ==> self.x < self.max_x)
        &&& (v.dx == -1 ==> self.x > 0)
        &&& (v.dy == 1 ==> self.y < self.max_y)
        &&& (v.dy == -1 ==> self.y > 0)
    }

    /// The position one step from `self` in direction `v`, with the same
    /// extents.
    pub open spec fn stepped(self, v: Vector) -> Coord {
        Coord {
            x: (self.x + v.dx) as usize,
            y: (self.y + v.dy) as usize,
            max_x: self.max_x,
            max_y: self.max_y,
        }
    }

    pub fn new(x: usize, y: usize, max_x: usize, max_y: usize) -> (r: Self)
        requires
            x <= max_x,
            y <= max_y,
        ensures
            r == (Coord { x, y, max_x, max_y }),
    {
        Coord { x, y, max_x, max_y }
    }

    /// Translate by one of the four unit directions. Fails exactly when the
    /// result would fall outside `[0, max_x] x [0, max_y]`.
    pub fn add(&self, vector: Vector) -> (r: Result<Self, ()>)
        requires
            self.wf(),
            vector.is_unit(),
        ensures
            r is Ok <==> self.can_step(vector),
            r is Ok ==> r->Ok_0 == self.stepped(vector) && r->Ok_0.wf(),
    {
        if vector.dx == 1 {
            if self.x < self.max_x {
                Ok(Coord { x: self.x + 1, y: self.y, max_x: self.max_x, max_y: self.max_y })
            } else {
                Err(())
            }
        } else if vector.dx == -1 {
            if self.x > 0 {
                Ok(Coord { x: self.x - 1, y: self.y, max_x: self.max_x, max_y: self.max_y })
            } else {
                Err(())
            }
        } else if vector.dy == 1 {
            if self.y < self.max_y {
                Ok(Coord { x: self.x, y: self.y + 1, max_x: self.max_x, max_y: self.max_y })
            } else {
                Err(())
            }
        } else {
            if self.y > 0 {
                Ok(Coord { x: self.x, y: self.y - 1, max_x: self.max_x, max_y: self.max_y })
            } else {
                Err(())
            }
        }
    }
}

/// Coordinates compare by position alone: the extents are carried for
/// validation but excluded from equality.
impl PartialEq for Coord {
    fn eq(&self, other: &Coord) -> (r: bool) {
        self.x == other.x && self.y == other.y
    }
}

impl vstd::std_specs::cmp::PartialEqSpecImpl for Coord {
    open spec fn obeys_eq_spec() -> bool {
        true
    }

    open spec fn eq_spec(&self, other: &Coord) -> bool {
        self.x == other.x && self.y == other.y
    }
}

} // verus!
