use crate::hit_table::HitRecord;
use crate::ray::Ray;
use cgmath::Vector3;
use vstd::prelude::*;

verus! {

/// What a surface does with a ray that meets it.
///
/// `may_scatter` is the implementor's own account of what `scatter` can
/// answer; the generator makes the answer a matter of chance, so it is a
/// relation and no function.
pub trait Material<T, R>: Sized {
    /// Whether `out` is an answer that `scatter` can give for the ray `r`
    /// that met the surface at `rec`. An implementor that does not say is
    /// taken to be able to answer anything.
    open spec fn may_scatter(
        &self,
        r: &Ray<T>,
        rec: &HitRecord<T, Self>,
        out: Option<(Vector3<T>, Ray<T>)>,
    ) -> bool {
        true
    }

    /// The colour by which the surface attenuates the light and the ray on
    /// which the path goes on, or `None` where the ray is absorbed.
    fn scatter(&self, rng: &mut R, r: &Ray<T>, rec: &HitRecord<T, Self>) -> (out: Option<
        (Vector3<T>, Ray<T>),
    >)
        ensures
            self.may_scatter(r, rec, out),
    ;
}

/// A diffuse surface.
#[derive(Debug, PartialEq)]
#[verifier::reject_recursive_types(T)]
pub struct Lambertian<T> {
    /// The share of each colour that the surface gives back.
    pub albedo: Vector3<T>,
}

impl<T: Copy> Lambertian<T> {
    /// A diffuse surface of the given albedo.
    pub fn new(albedo: Vector3<T>) -> (material: Self)
        ensures
            material.albedo == albedo,
    {
        Self { albedo }
    }

    /// The outcome of a diffuse bounce at `rec` into `direction`: the surface
    /// never absorbs, and attenuates by its albedo whatever ray came in.
    pub fn scatter<M>(&self, rec: &HitRecord<T, M>, direction: Vector3<T>) -> (out: Option<
        (Vector3<T>, Ray<T>),
    >)
        ensures
            out == Some((self.albedo, Ray { a: rec.p, b: direction })),
    {
        Some((self.albedo, Ray::new(rec.p, direction)))
    }
}

/// A mirror, the rougher the larger its `fuzz`.
#[derive(Debug, PartialEq)]
#[verifier::reject_recursive_types(T)]
pub struct Metal<T> {
    /// The share of each colour that the surface gives back.
    pub albedo: Vector3<T>,
    /// How far a reflected ray may stray from the mirror direction.
    pub fuzz: T,
}

impl<T: Copy> Metal<T> {
    /// A mirror of the given albedo and roughness.
    pub fn new(albedo: Vector3<T>, fuzz: T) -> (material: Self)
        ensures
            material.albedo == albedo,
            material.fuzz == fuzz,
    {
        Self { albedo, fuzz }
    }

    /// The outcome of a reflection at `rec` into `direction`. `leaves` says
    /// whether `direction` points away from the surface, that is whether its
    /// dot product with the normal is positive: a ray that does not is
    /// absorbed, and one that does is attenuated by the albedo.
    pub fn scatter<M>(&self, rec: &HitRecord<T, M>, direction: Vector3<T>, leaves: bool) -> (out:
        Option<(Vector3<T>, Ray<T>)>)
        ensures
            leaves ==> out == Some((self.albedo, Ray { a: rec.p, b: direction })),
            !leaves ==> out is None,
    {
        if leaves {
            Some((self.albedo, Ray::new(rec.p, direction)))
        } else {
            None
        }
    }
}

/// A clear surface such as glass, which reflects a part of the light and
/// refracts the rest.
#[derive(Debug, PartialEq)]
pub struct Dielectric<T> {
    /// The refractive index of the inside relative to the outside.
    pub ref_idx: T,
}

impl<T: Copy> Dielectric<T> {
    /// A clear surface of the given refractive index.
    pub fn new(ref_idx: T) -> (material: Self)
        ensures
            material.ref_idx == ref_idx,
    {
        Self { ref_idx }
    }

    /// The direction a ray takes at a clear surface: `refracted`, unless
    /// there is none (total internal reflection) or `reflects` is set, which
    /// says that the random draw fell below the reflectance.
    pub open spec fn leaving(
        reflected: Vector3<T>,
        refracted: Option<Vector3<T>>,
        reflects: bool,
    ) -> Vector3<T> {
        match refracted {
            Some(direction) if !reflects => direction,
            _ => reflected,
        }
    }

    /// The outcome of a ray meeting the surface at `rec`: it is never
    /// absorbed, `attenuation` (white) is handed on unchanged, and the ray
    /// goes on from the meeting point in the direction [`Self::leaving`].
    pub fn scatter<M>(
        &self,
        rec: &HitRecord<T, M>,
        attenuation: Vector3<T>,
        reflected: Vector3<T>,
        refracted: Option<Vector3<T>>,
        reflects: bool,
    ) -> (out: Option<(Vector3<T>, Ray<T>)>)
        ensures
            out == Some(
                (attenuation, Ray { a: rec.p, b: Self::leaving(reflected, refracted, reflects) }),
            ),
    {
        match refracted {
            Some(direction) if !reflects => Some((attenuation, Ray::new(rec.p, direction))),
            _ => Some((attenuation, Ray::new(rec.p, reflected))),
        }
    }
}

} // verus!
