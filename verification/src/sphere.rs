use crate::hit_table::HitRecord;
use cgmath::Vector3;
use vstd::pervasive::cloned;
use vstd::prelude::*;

verus! {

/// A ball of one material.
#[derive(Debug, PartialEq)]
#[verifier::reject_recursive_types(T)]
pub struct Sphere<T, M> {
    pub center: Vector3<T>,
    pub radius: T,
    pub material: M,
}

impl<T: Copy, M: Clone> Sphere<T, M> {
    /// The ball round `center` with the given radius and material.
    pub fn new(center: Vector3<T>, radius: T, material: M) -> (sphere: Self)
        ensures
            sphere.center == center,
            sphere.radius == radius,
            sphere.material == material,
    {
        Self { center, radius, material }
    }

    /// The parameter at which a ray is taken to meet the sphere.
    ///
    /// The ray crosses the surface where `a·t² + 2b·t + c = 0`; `crosses` says
    /// whether the discriminant `b² - a·c` is positive, `near` and `far` are
    /// the smaller and the larger root, and `near_inside` and `far_inside`
    /// say whether they lie strictly inside the range that is asked about.
    /// Without a positive discriminant there is no hit. Otherwise the smaller
    /// root is taken if it is inside, else the larger if that is, else none.
    pub open spec fn chosen_root(
        crosses: bool,
        near: T,
        near_inside: bool,
        far: T,
        far_inside: bool,
    ) -> Option<T> {
        if crosses && near_inside {
            Some(near)
        } else if crosses && far_inside {
            Some(far)
        } else {
            None
        }
    }

    /// Chooses between the roots of the quadratic: see [`Self::chosen_root`].
    pub fn hit(crosses: bool, near: T, near_inside: bool, far: T, far_inside: bool) -> (t: Option<T>)
        ensures
            t == Self::chosen_root(crosses, near, near_inside, far, far_inside),
    {
        if !crosses {
            None
        } else if near_inside {
            Some(near)
        } else if far_inside {
            Some(far)
        } else {
            None
        }
    }

    /// The record of a hit at the parameter `t`, where the ray is at `p` and
    /// the outward unit normal is `normal`: it carries a clone of the
    /// sphere's material.
    pub fn hit_record(&self, t: T, p: Vector3<T>, normal: Vector3<T>) -> (rec: HitRecord<T, M>)
        ensures
            rec.t == t,
            rec.p == p,
            rec.normal == normal,
            cloned(self.material, rec.material),
    {
        HitRecord::new(t, p, normal, self.material.clone())
    }
}

} // verus!
