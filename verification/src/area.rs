//! The bounded playing area: an axis-aligned rectangle whose strict interior
//! is playable and whose boundary cells are lethal.

use crate::collision::CollisionDetector;
use vstd::prelude::*;

verus! {

broadcast use vstd::seq_lib::group_seq_properties;

/// An axis-aligned rectangle given by its two corners.
#[derive(Debug, Clone, Copy)]
pub struct GameArea {
    pub from: (u16, u16),
    pub to: (u16, u16),
}

impl GameArea {
    /// The corners delimit a rectangle with a non-empty interior on each
    /// axis order: `from` strictly below `to`.
    pub open spec fn wf(self) -> bool {
        self.from.0 < self.to.0 && self.from.1 < self.to.1
    }

    /// A cell on the rectangle's perimeter, corners included.
    pub open spec fn on_boundary(self, p: (u16, u16)) -> bool {
        &&& self.from.0 <= p.0 <= self.to.0
        &&& self.from.1 <= p.1 <= self.to.1
        &&& (p.0 == self.from.0 || p.0 == self.to.0 || p.1 == self.from.1 || p.1 == self.to.1)
    }

    /// Every cell of the rectangle's perimeter, each wall cell at least once.
    pub fn boundary_points(&self) -> (r: Vec<(u16, u16)>)
        requires
            self.wf(),
        ensures
            forall|p: (u16, u16)| #[trigger] r@.contains(p) <==> self.on_boundary(p),
    {
        let (x0, y0) = self.from;
        let (xn, yn) = self.to;
        let mut r: Vec<(u16, u16)> = Vec::new();
        let mut x: u32 = x0 as u32;
        while x <= xn as u32
            invariant
                x0 as u32 <= x <= xn as u32 + 1,
                forall|p: (u16, u16)| #[trigger]
                    r@.contains(p) <==> ((p.1 == y0 || p.1 == yn) && x0 <= p.0 && (p.0 as u32)
                        < x),
            decreases xn as u32 + 1 - x,
        {
            r.push((x as u16, y0));
            r.push((x as u16, yn));
            x = x + 1;
        }
        let mut y: u32 = y0 as u32;
        while y <= yn as u32
            invariant
                y0 as u32 <= y <= yn as u32 + 1,
                forall|p: (u16, u16)| #[trigger]
                    r@.contains(p) <==> (((p.1 == y0 || p.1 == yn) && x0 <= p.0 <= xn) || ((p.0
                        == x0 || p.0 == xn) && y0 <= p.1 && (p.1 as u32) < y)),
            decreases yn as u32 + 1 - y,
        {
            r.push((x0, y as u16));
            r.push((xn, y as u16));
            y = y + 1;
        }
        r
    }
}

impl CollisionDetector for GameArea {
    open spec fn inv(&self) -> bool {
        true
    }

    /// A cell collides with the area iff it lies on or beyond the boundary:
    /// only the strict interior is safe.
    open spec fn hits(&self, point: (u16, u16)) -> bool {
        point.0 <= self.from.0 || point.0 >= self.to.0 || point.1 <= self.from.1 || point.1
            >= self.to.1
    }

    fn has_collision(&self, point: &(u16, u16)) -> (r: bool) {
        point.0 <= self.from.0 || point.0 >= self.to.0 || point.1 <= self.from.1 || point.1
            >= self.to.1
    }
}

} // verus!
