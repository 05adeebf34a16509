use vstd::prelude::*;

use crate::hittable::HitModel;
use crate::ray::GEOM_BOUND;
use crate::vec3::Vec3i;
use crate::vec3::v_in;

verus! {

/// A primitive moved by a fixed offset.  Rays are re-based into the child's
/// frame instead of moving the child's coordinates.
#[derive(Debug)]
pub struct Translate {
    pub hit_model: Box<HitModel>,
    pub offset: Vec3i,
}

impl Translate {
    pub fn new(hit_model: HitModel, offset: Vec3i) -> (s: Translate)
        ensures
            s.hit_model == hit_model,
            s.offset == offset,
    {
        Translate { hit_model: Box::new(hit_model), offset }
    }
}

} // verus!
