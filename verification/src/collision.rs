//! The collision capability: one query, three implementers.
//!
//! The playing area, the body and the food each answer the same question:
//! does this cell collide with me? The area kills on its boundary, the body
//! on any of its cells, the food marks a cell to eat.

use vstd::prelude::*;

verus! {

/// A pure membership query over grid cells.
pub trait CollisionDetector {
    /// The well-formedness the query relies on.
    spec fn inv(&self) -> bool;

    /// What the query answers: does `point` collide with this entity?
    spec fn hits(&self, point: (u16, u16)) -> bool;

    /// Answers `hits` exactly; no side effects.
    fn has_collision(&self, point: &(u16, u16)) -> (r: bool)
        requires
            self.inv(),
        ensures
            r == self.hits(*point),
    ;
}

} // verus!
