//! Flat aggregate of surfaces: the linear-scan fallback.

use vstd::prelude::*;
use crate::aabb::{Aabb, merge_spec};

verus! {

/// An unordered collection of surfaces, referenced by arena index, with
/// the running bounding union of their boxes.
#[derive(Clone, Debug)]
pub struct HittableList {
    pub objects: Vec<usize>,
    pub aabb: Aabb,
}

impl HittableList {
    /// An empty list with the empty-sentinel box.
    pub fn new() -> (r: HittableList)
        ensures
            r.objects@.len() == 0,
            r.aabb.x.min == crate::fx::INF && r.aabb.x.max == -crate::fx::INF,
            r.aabb.y.min == crate::fx::INF && r.aabb.y.max == -crate::fx::INF,
            r.aabb.z.min == crate::fx::INF && r.aabb.z.max == -crate::fx::INF,
    {
        HittableList { objects: Vec::new(), aabb: Aabb::empty() }
    }

    pub fn clear(&mut self)
        ensures
            final(self).objects@.len() == 0,
            final(self).aabb == old(self).aabb,
    {
        self.objects.clear();
    }

    /// Record one more member, growing the box by its bounding box.
    pub fn add(&mut self, object: usize, object_box: &Aabb)
        ensures
            final(self).objects@ == old(self).objects@.push(object),
            final(self).aabb == merge_spec(old(self).aabb, *object_box),
    {
        self.aabb = self.aabb.merge(object_box);
        self.objects.push(object);
    }
}

} // verus!
