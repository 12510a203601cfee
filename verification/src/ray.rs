use cgmath::Vector3;
use vstd::prelude::*;

verus! {

/// `cgmath::Vector3`, carried as a point, a direction or a colour. The library
/// never looks at its components.
#[verifier::external_type_specification]
#[verifier::external_body]
#[verifier::reject_recursive_types(S)]
pub struct ExVector3<S>(Vector3<S>);

/// A half-line: the points `a + t * b` for a parameter `t`.
#[derive(Debug, PartialEq)]
#[verifier::reject_recursive_types(T)]
pub struct Ray<T> {
    /// Where the ray starts.
    pub a: Vector3<T>,
    /// Where it heads; not necessarily of unit length.
    pub b: Vector3<T>,
}

impl<T> Ray<T> {
    /// The ray from `a` towards `b`.
    pub fn new(a: Vector3<T>, b: Vector3<T>) -> (ray: Self)
        ensures
            ray.a == a,
            ray.b == b,
    {
        Ray { a, b }
    }

    /// The point the ray starts from.
    pub fn origin(&self) -> (o: &Vector3<T>)
        ensures
            *o == self.a,
    {
        &self.a
    }

    /// The direction the ray heads in.
    pub fn direction(&self) -> (d: &Vector3<T>)
        ensures
            *d == self.b,
    {
        &self.b
    }
}

} // verus!
