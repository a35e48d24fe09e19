//! Short lists of ray directions for sliding pieces, kept inline.

use smallvec::SmallVec;
use vstd::prelude::*;

verus! {

/// A list of ray directions, held in an inline small vector.
#[verifier::external_body]
pub struct RayList {
    rays: SmallVec<[i16; 4]>,
}

/// The directions a ray list holds, in order.
pub uninterp spec fn ray_contents(r: RayList) -> Seq<i16>;

/// A direction runs along the line of a pin in direction `pin`.
pub open spec fn along(dir: i16, pin: i16) -> bool {
    dir as int == pin as int || dir as int == -(pin as int)
}

/// Checks if a direction runs along the line of a pin.
pub fn along_pin(dir: &i16, pin: i16) -> (r: bool)
    ensures
        r == along(*dir, pin),
{
    let d = *dir as i32;
    let p = pin as i32;
    d == p || d == -p
}

impl RayList {
    /// Calls `SmallVec::from_slice`: a new list with the slice's elements in
    /// order.
    #[verifier::external_body]
    pub(crate) fn from_slice(directions: &[i16]) -> (r: RayList)
        ensures
            ray_contents(r) == directions@,
    {
        RayList { rays: SmallVec::from_slice(directions) }
    }

    /// Calls `SmallVec::clone`: a new list with the same elements in order.
    #[verifier::external_body]
    pub(crate) fn duplicate(&self) -> (r: RayList)
        ensures
            ray_contents(r) == ray_contents(*self),
    {
        RayList { rays: self.rays.clone() }
    }

    /// Calls `SmallVec::retain` with [`along_pin`]: keeps, in order, the
    /// directions along the line of a pin.
    #[verifier::external_body]
    pub(crate) fn retain_along(&mut self, pin: i16)
        ensures
            ray_contents(*final(self)) == ray_contents(*old(self)).filter(|d: i16| along(d, pin)),
    {
        self.rays.retain(|dir: &mut i16| along_pin(dir, pin));
    }

    /// Calls `SmallVec::len`: the number of directions.
    #[verifier::external_body]
    pub(crate) fn len(&self) -> (r: usize)
        ensures
            r == ray_contents(*self).len(),
    {
        self.rays.len()
    }

    /// Calls `SmallVec`'s indexing: the direction at a position.
    #[verifier::external_body]
    pub(crate) fn get(&self, i: usize) -> (r: i16)
        requires
            i < ray_contents(*self).len(),
        ensures
            r == ray_contents(*self)[i as int],
    {
        self.rays[i]
    }
}

} // verus!
