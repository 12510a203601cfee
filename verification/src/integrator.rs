use crate::hit_table::{HitRecord, HitTable};
use crate::material::Material;
use crate::ray::Ray;
use cgmath::Vector3;
use vstd::prelude::*;

verus! {

/// The number of bounces after which a path is given up as black.
pub const MAX_DEPTH: usize = 50;

/// How a light path ended.
#[derive(Debug, PartialEq)]
#[verifier::reject_recursive_types(T)]
pub enum PathEnd<T> {
    /// This ray met nothing: the path ends in the background behind it.
    Escaped(Ray<T>),
    /// A surface absorbed the ray: the path carries no light.
    Absorbed,
    /// The path was still bouncing after `MAX_DEPTH` bounces: it is taken
    /// to carry no light.
    Exhausted,
}

/// A light path: the attenuation of each bounce, first bounce first, and how
/// the path ended. Its colour is the product of the attenuations and the
/// colour of its end.
#[derive(Debug, PartialEq)]
#[verifier::reject_recursive_types(T)]
pub struct Path<T> {
    pub attenuations: Vec<Vector3<T>>,
    pub end: PathEnd<T>,
}

/// Whether a path that starts with `first` can, bounce by bounce, have
/// gathered exactly `attenuations` and then go on with the ray `then`: each
/// ray met a surface of `world` at a parameter between `near` and `far`, and
/// the material there scattered it with that attenuation into the next ray.
pub open spec fn bounced<T, R, M: Material<T, R>, W: HitTable<T, M>>(
    world: &W,
    near: T,
    far: T,
    first: Ray<T>,
    attenuations: Seq<Vector3<T>>,
    then: Ray<T>,
) -> bool
    decreases attenuations.len(),
{
    if attenuations.len() == 0 {
        then == first
    } else {
        exists|ray: Ray<T>, rec: HitRecord<T, M>|
            bounced::<T, R, M, W>(world, near, far, first, attenuations.drop_last(), ray)
                && #[trigger] scattered::<T, R, M, W>(
                world,
                near,
                far,
                ray,
                rec,
                Some((attenuations.last(), then)),
            )
    }
}

/// Whether `ray` can meet `world` at `rec` and the material there can answer
/// `out`.
pub open spec fn scattered<T, R, M: Material<T, R>, W: HitTable<T, M>>(
    world: &W,
    near: T,
    far: T,
    ray: Ray<T>,
    rec: HitRecord<T, M>,
    out: Option<(Vector3<T>, Ray<T>)>,
) -> bool {
    world.may_hit(&ray, near, far, Some(rec)) && rec.material.may_scatter(&ray, &rec, out)
}

/// Whether a path can end with `end` after `bounces` bounces, when `last` is
/// the ray it would have gone on with: it escapes where `last` can meet
/// nothing, it is absorbed where `last` can meet a surface whose material
/// can absorb it, and it is given up after `MAX_DEPTH` bounces, not before.
pub open spec fn ended<T, R, M: Material<T, R>, W: HitTable<T, M>>(
    world: &W,
    near: T,
    far: T,
    last: Ray<T>,
    bounces: nat,
    end: PathEnd<T>,
) -> bool {
    match end {
        PathEnd::Escaped(ray) => {
            &&& bounces < MAX_DEPTH
            &&& ray == last
            &&& world.may_hit(&last, near, far, None)
        },
        PathEnd::Absorbed => {
            &&& bounces < MAX_DEPTH
            &&& exists|rec: HitRecord<T, M>| #[trigger]
                scattered::<T, R, M, W>(world, near, far, last, rec, None)
        },
        PathEnd::Exhausted => bounces == MAX_DEPTH,
    }
}

/// Whether `path` is a path that `trace` can return for the ray `first`.
pub open spec fn traced<T, R, M: Material<T, R>, W: HitTable<T, M>>(
    world: &W,
    near: T,
    far: T,
    first: Ray<T>,
    path: Path<T>,
) -> bool {
    exists|last: Ray<T>| #[trigger]
        bounced::<T, R, M, W>(world, near, far, first, path.attenuations@, last) && ended::<
            T,
            R,
            M,
            W,
        >(world, near, far, last, path.attenuations@.len(), path.end)
}

/// Follows the light path that starts with the ray `r` through `world`,
/// looking for surfaces at parameters between `near` and `far`.
///
/// As long as fewer than `MAX_DEPTH` bounces have been made, the current ray
/// is tried against the world. If it meets nothing the path has escaped. If
/// it meets a surface, the material there either absorbs it, which ends the
/// path, or scatters it: the attenuation is noted and the path goes on with
/// the scattered ray.
pub fn trace<T: Copy, R, M: Material<T, R>, W: HitTable<T, M>>(
    world: &W,
    rng: &mut R,
    r: Ray<T>,
    near: T,
    far: T,
) -> (path: Path<T>)
    ensures
        path.attenuations@.len() <= MAX_DEPTH,
        traced::<T, R, M, W>(world, near, far, r, path),
{
    let mut attenuations: Vec<Vector3<T>> = Vec::new();
    let mut ray = r;
    let mut depth: usize = 0;
    while depth < MAX_DEPTH
        invariant
            depth <= MAX_DEPTH,
            attenuations@.len() == depth,
            bounced::<T, R, M, W>(world, near, far, r, attenuations@, ray),
        decreases MAX_DEPTH - depth,
    {
        match world.hit(&ray, near..far) {
            None => {
                let path = Path { attenuations, end: PathEnd::Escaped(ray) };
                assert(traced::<T, R, M, W>(world, near, far, r, path)) by {
                    assert(bounced::<T, R, M, W>(world, near, far, r, path.attenuations@, ray));
                }
                return path;
            },
            Some(rec) => {
                match rec.get_material().scatter(rng, &ray, &rec) {
                    None => {
                        let path = Path { attenuations, end: PathEnd::Absorbed };
                        assert(traced::<T, R, M, W>(world, near, far, r, path)) by {
                            assert(scattered::<T, R, M, W>(world, near, far, ray, rec, None));
                            assert(bounced::<T, R, M, W>(
                                world,
                                near,
                                far,
                                r,
                                path.attenuations@,
                                ray,
                            ));
                        }
                        return path;
                    },
                    Some((attenuation, next)) => {
                        let ghost gathered = attenuations@;
                        attenuations.push(attenuation);
                        proof {
                            assert(attenuations@.drop_last() == gathered);
                            assert(attenuations@.last() == attenuation);
                            assert(scattered::<T, R, M, W>(
                                world,
                                near,
                                far,
                                ray,
                                rec,
                                Some((attenuations@.last(), next)),
                            ));
                        }
                        ray = next;
                        depth += 1;
                    },
                }
            },
        }
    }
    let path = Path { attenuations, end: PathEnd::Exhausted };
    assert(traced::<T, R, M, W>(world, near, far, r, path)) by {
        assert(bounced::<T, R, M, W>(world, near, far, r, path.attenuations@, ray));
    }
    path
}

/// A path with a bounce began with one: its first ray met a surface whose
/// material scattered it.
proof fn lemma_first_bounce<T, R, M: Material<T, R>, W: HitTable<T, M>>(
    world: &W,
    near: T,
    far: T,
    first: Ray<T>,
    attenuations: Seq<Vector3<T>>,
    then: Ray<T>,
)
    requires
        attenuations.len() > 0,
        bounced::<T, R, M, W>(world, near, far, first, attenuations, then),
    ensures
        exists|rec: HitRecord<T, M>, next: Ray<T>| #[trigger]
            scattered::<T, R, M, W>(world, near, far, first, rec, Some((attenuations[0], next))),
    decreases attenuations.len(),
{
    let (ray, rec) = choose|ray: Ray<T>, rec: HitRecord<T, M>|
        bounced::<T, R, M, W>(world, near, far, first, attenuations.drop_last(), ray)
            && #[trigger] scattered::<T, R, M, W>(
            world,
            near,
            far,
            ray,
            rec,
            Some((attenuations.last(), then)),
        );
    if attenuations.len() == 1 {
        assert(ray == first);
        assert(scattered::<T, R, M, W>(world, near, far, first, rec, Some((attenuations[0], then))));
    } else {
        lemma_first_bounce::<T, R, M, W>(world, near, far, first, attenuations.drop_last(), ray);
        let (rec0, next) = choose|rec0: HitRecord<T, M>, next: Ray<T>| #[trigger]
            scattered::<T, R, M, W>(
                world,
                near,
                far,
                first,
                rec0,
                Some((attenuations.drop_last()[0], next)),
            );
        assert(scattered::<T, R, M, W>(world, near, far, first, rec0, Some((attenuations[0], next))));
    }
}

/// A ray that can meet nothing escapes at once: the path that is traced for
/// it has no bounce and ends with that very ray, whose direction gives the
/// background its colour.
pub proof fn lemma_miss_escapes<T, R, M: Material<T, R>, W: HitTable<T, M>>(
    world: &W,
    near: T,
    far: T,
    first: Ray<T>,
    path: Path<T>,
)
    requires
        traced::<T, R, M, W>(world, near, far, first, path),
        forall|rec: HitRecord<T, M>| !#[trigger] world.may_hit(&first, near, far, Some(rec)),
    ensures
        path.attenuations@.len() == 0,
        path.end == PathEnd::Escaped(first),
{
    let last = choose|last: Ray<T>| #[trigger]
        bounced::<T, R, M, W>(world, near, far, first, path.attenuations@, last) && ended::<
            T,
            R,
            M,
            W,
        >(world, near, far, last, path.attenuations@.len(), path.end);
    if path.attenuations@.len() > 0 {
        lemma_first_bounce::<T, R, M, W>(world, near, far, first, path.attenuations@, last);
        let (rec, next) = choose|rec: HitRecord<T, M>, next: Ray<T>| #[trigger]
            scattered::<T, R, M, W>(
                world,
                near,
                far,
                first,
                rec,
                Some((path.attenuations@[0], next)),
            );
        assert(world.may_hit(&first, near, far, Some(rec)));
    }
    assert(last == first);
    if path.end is Absorbed {
        let rec = choose|rec: HitRecord<T, M>| #[trigger]
            scattered::<T, R, M, W>(world, near, far, last, rec, None);
        assert(world.may_hit(&first, near, far, Some(rec)));
    }
}

/// A surface that can only absorb ends the path where the first ray meets
/// it: when `first` cannot miss the world and no material that it can meet
/// there can scatter it, the path that is traced for it has no bounce and is
/// absorbed.
pub proof fn lemma_absorbed_at_first_hit<T, R, M: Material<T, R>, W: HitTable<T, M>>(
    world: &W,
    near: T,
    far: T,
    first: Ray<T>,
    path: Path<T>,
)
    requires
        traced::<T, R, M, W>(world, near, far, first, path),
        !world.may_hit(&first, near, far, None),
        forall|rec: HitRecord<T, M>, out: (Vector3<T>, Ray<T>)|
            !#[trigger] scattered::<T, R, M, W>(world, near, far, first, rec, Some(out)),
    ensures
        path.attenuations@.len() == 0,
        path.end == PathEnd::<T>::Absorbed,
{
    let last = choose|last: Ray<T>| #[trigger]
        bounced::<T, R, M, W>(world, near, far, first, path.attenuations@, last) && ended::<
            T,
            R,
            M,
            W,
        >(world, near, far, last, path.attenuations@.len(), path.end);
    if path.attenuations@.len() > 0 {
        lemma_first_bounce::<T, R, M, W>(world, near, far, first, path.attenuations@, last);
    }
    assert(last == first);
}

} // verus!
