//! The simulated per-arena entities: vehicles and their trails.

use vstd::prelude::*;

use crate::primitives::{Direction, Point};

verus! {

/// Base vehicle speed, in thousandths of an arena unit per second.
pub const LIGHTCYCLE_SPEED: i64 = 55_000;

/// A vehicle. `dead` only ever goes from false to true; a new round
/// replaces the vehicle wholesale.
#[derive(Debug, Clone, Copy, PartialEq, Eq, Structural)]
pub struct Lightcycle {
    pub position: Point,
    pub direction: Direction,
    pub speed: i64,
    pub dead: bool,
}

impl Default for Lightcycle {
    fn default() -> (r: Self)
        ensures
            r == (Lightcycle {
                position: Point { x: 0, y: 0 },
                direction: Direction::Up,
                speed: LIGHTCYCLE_SPEED,
                dead: false,
            }),
    {
        Lightcycle {
            position: Point::origin(),
            direction: Direction::Up,
            speed: LIGHTCYCLE_SPEED,
            dead: false,
        }
    }
}

/// A vehicle's trail: the ordered points of the polyline it has drawn.
/// Every pair of consecutive points is a solid obstacle.
#[derive(Debug, Clone, PartialEq)]
pub struct Lightribbon {
    pub points: Vec<Point>,
}

impl View for Lightribbon {
    type V = Seq<Point>;

    open spec fn view(&self) -> Seq<Point> {
        self.points@
    }
}

impl Lightribbon {
    pub fn new(points: Vec<Point>) -> (r: Lightribbon)
        ensures
            r@ == points@,
    {
        Lightribbon { points }
    }

    /// A copy of this trail with the same mathematical value.
    pub fn duplicate(&self) -> (r: Lightribbon)
        ensures
            r@ == self@,
    {
        let points = self.points.clone();
        proof {
            assert(points@ =~= self.points@);
        }
        Lightribbon { points }
    }
}

} // verus!
