use cgmath::{vec3, InnerSpace, Vector3};
use rand::rngs::SmallRng;
use rand::{Rng, SeedableRng};
use raytracer::integrator::{trace, PathEnd, MAX_DEPTH};
use raytracer::{
    Dielectric, HitRecord, HitTable, HitTableList, Lambertian, Material, Metal, Ray, Sphere,
};
use std::ops::Range;

/// The surfaces of the test scenes. Their arithmetic is done here; what
/// comes of it is decided by the library.
#[derive(Clone, Copy, Debug, PartialEq)]
enum Surface {
    Matte(Vector3<f64>),
    Mirror(Vector3<f64>, f64),
    /// Sends every ray on towards the given point.
    Towards(Vector3<f64>, Vector3<f64>),
    /// Absorbs every ray.
    Soot,
}

fn in_unit_sphere(rng: &mut SmallRng) -> Vector3<f64> {
    loop {
        let p = vec3(rng.gen::<f64>(), rng.gen::<f64>(), rng.gen::<f64>()) * 2.0
            - vec3(1.0, 1.0, 1.0);
        if p.magnitude2() < 1.0 {
            return p;
        }
    }
}

fn reflect(v: Vector3<f64>, n: Vector3<f64>) -> Vector3<f64> {
    v - n * v.dot(n) * 2.0
}

impl Material<f64, SmallRng> for Surface {
    fn scatter(
        &self,
        rng: &mut SmallRng,
        r: &Ray<f64>,
        rec: &HitRecord<f64, Surface>,
    ) -> Option<(Vector3<f64>, Ray<f64>)> {
        match *self {
            Surface::Matte(albedo) => {
                Lambertian::new(albedo).scatter(rec, rec.get_normal() + in_unit_sphere(rng))
            }
            Surface::Mirror(albedo, fuzz) => {
                let direction = reflect(r.direction().normalize(), *rec.get_normal())
                    + in_unit_sphere(rng) * fuzz;
                let leaves = direction.dot(*rec.get_normal()) > 0.0;
                Metal::new(albedo, fuzz).scatter(rec, direction, leaves)
            }
            Surface::Towards(albedo, target) => {
                Lambertian::new(albedo).scatter(rec, target - rec.get_p())
            }
            Surface::Soot => Metal::new(vec3(0.0, 0.0, 0.0), 0.0).scatter(
                rec,
                vec3(0.0, 0.0, 0.0),
                false,
            ),
        }
    }
}

struct Ball(Sphere<f64, Surface>);

fn ball(center: Vector3<f64>, radius: f64, surface: Surface) -> Ball {
    Ball(Sphere::new(center, radius, surface))
}

impl HitTable<f64, Surface> for Ball {
    fn hit(&self, r: &Ray<f64>, t: Range<f64>) -> Option<HitRecord<f64, Surface>> {
        let oc = r.origin() - self.0.center;
        let a = r.direction().magnitude2();
        let b = oc.dot(*r.direction());
        let c = oc.magnitude2() - self.0.radius * self.0.radius;
        let discriminant = b * b - a * c;
        let near = (-b - discriminant.sqrt()) / a;
        let far = (-b + discriminant.sqrt()) / a;
        let inside = |root: f64| root < t.end && root > t.start;
        let root =
            Sphere::<f64, Surface>::hit(discriminant > 0.0, near, inside(near), far, inside(far))?;
        let p = r.origin() + r.direction() * root;
        Some(self.0.hit_record(root, p, (p - self.0.center) / self.0.radius))
    }
}

fn grey() -> Surface {
    Surface::Matte(vec3(0.5, 0.5, 0.5))
}

fn along_z() -> Ray<f64> {
    Ray::new(vec3(0.0, 0.0, -5.0), vec3(0.0, 0.0, 1.0))
}

#[test]
fn ray_keeps_its_origin_and_direction() {
    let ray = Ray::new(vec3(1.0, 2.0, 3.0), vec3(4.0, 5.0, 6.0));
    assert_eq!(*ray.origin(), vec3(1.0, 2.0, 3.0));
    assert_eq!(*ray.direction(), vec3(4.0, 5.0, 6.0));
}

#[test]
fn hit_record_getters_and_setters() {
    let mut rec = HitRecord::new(1.5, vec3(1.0, 0.0, 0.0), vec3(0.0, 1.0, 0.0), 7u8);
    assert_eq!(rec.get_t(), 1.5);
    assert_eq!(*rec.get_p(), vec3(1.0, 0.0, 0.0));
    assert_eq!(*rec.get_normal(), vec3(0.0, 1.0, 0.0));
    assert_eq!(*rec.get_material(), 7);
    rec.set_t(2.5);
    rec.set_p(vec3(9.0, 8.0, 7.0));
    rec.set_normal(vec3(0.0, 0.0, 1.0));
    assert_eq!(rec.get_t(), 2.5);
    assert_eq!(*rec.get_p(), vec3(9.0, 8.0, 7.0));
    assert_eq!(*rec.get_normal(), vec3(0.0, 0.0, 1.0));
    assert_eq!(*rec.get_material(), 7);
}

#[test]
fn unit_sphere_is_hit_at_four_with_normal_towards_the_ray() {
    let hit = ball(vec3(0.0, 0.0, 0.0), 1.0, grey())
        .hit(&along_z(), 0.001..f64::MAX)
        .unwrap();
    assert!((hit.get_t() - 4.0).abs() < 1e-12);
    assert!((hit.get_normal() - vec3(0.0, 0.0, -1.0)).magnitude() < 1e-12);
    assert!((hit.get_p() - vec3(0.0, 0.0, -1.0)).magnitude() < 1e-12);
    assert_eq!(*hit.get_material(), grey());
}

#[test]
fn parallel_ray_beyond_the_radius_misses() {
    let ray = Ray::new(vec3(0.0, 2.0, -5.0), vec3(0.0, 0.0, 1.0));
    assert!(ball(vec3(0.0, 0.0, 0.0), 1.0, grey()).hit(&ray, 0.001..f64::MAX).is_none());
}

#[test]
fn smaller_root_is_taken_first_then_the_larger() {
    assert_eq!(Sphere::<f64, u8>::hit(true, 4.0, true, 6.0, true), Some(4.0));
    assert_eq!(Sphere::<f64, u8>::hit(true, 4.0, false, 6.0, true), Some(6.0));
    assert_eq!(Sphere::<f64, u8>::hit(true, 4.0, false, 6.0, false), None);
    assert_eq!(Sphere::<f64, u8>::hit(false, 4.0, true, 6.0, true), None);
}

#[test]
fn ray_from_inside_meets_the_far_side() {
    let ray = Ray::new(vec3(0.0, 0.0, 0.0), vec3(0.0, 0.0, 1.0));
    let hit = ball(vec3(0.0, 0.0, 0.0), 1.0, grey()).hit(&ray, 0.001..f64::MAX).unwrap();
    assert!((hit.get_t() - 1.0).abs() < 1e-12);
}

#[test]
fn roots_on_the_edge_of_the_range_do_not_count() {
    let sphere = ball(vec3(0.0, 0.0, 0.0), 1.0, grey());
    assert!(sphere.hit(&along_z(), 4.0..6.0).is_none());
    assert!(sphere.hit(&along_z(), 6.0..f64::MAX).is_none());
    assert!((sphere.hit(&along_z(), 4.0..6.5).unwrap().get_t() - 6.0).abs() < 1e-12);
}

#[test]
fn ray_without_direction_hits_nothing() {
    let ray = Ray::new(vec3(0.0, 0.0, -5.0), vec3(0.0, 0.0, 0.0));
    assert!(ball(vec3(0.0, 0.0, 0.0), 1.0, grey()).hit(&ray, 0.001..f64::MAX).is_none());
}

#[test]
fn hit_record_of_a_sphere_carries_its_material() {
    let sphere = Sphere::new(vec3(0.0, 0.0, 0.0), 2.0, 42u32);
    let rec = sphere.hit_record(3.0, vec3(0.0, 2.0, 0.0), vec3(0.0, 1.0, 0.0));
    assert_eq!(rec.get_t(), 3.0);
    assert_eq!(*rec.get_p(), vec3(0.0, 2.0, 0.0));
    assert_eq!(*rec.get_normal(), vec3(0.0, 1.0, 0.0));
    assert_eq!(*rec.get_material(), 42);
}

#[test]
fn empty_scene_is_never_hit() {
    let scene: HitTableList<Ball> = HitTableList::new();
    assert!(scene.hit(&along_z(), 0.001..f64::MAX).is_none());
}

#[test]
fn scene_returns_the_nearer_of_two_spheres_in_either_order() {
    let near = Surface::Matte(vec3(1.0, 0.0, 0.0));
    let far = Surface::Matte(vec3(0.0, 0.0, 1.0));
    for near_first in [true, false] {
        let mut scene = HitTableList::new();
        if near_first {
            scene.add(ball(vec3(0.0, 0.0, 0.0), 1.0, near));
            scene.add(ball(vec3(0.0, 0.0, 0.5), 1.0, far));
        } else {
            scene.add(ball(vec3(0.0, 0.0, 0.5), 1.0, far));
            scene.add(ball(vec3(0.0, 0.0, 0.0), 1.0, near));
        }
        let hit = scene.hit(&along_z(), 0.001..f64::MAX).unwrap();
        assert!((hit.get_t() - 4.0).abs() < 1e-12);
        assert_eq!(*hit.get_material(), near);
    }
}

#[test]
fn scene_looks_only_inside_the_range() {
    let mut scene = HitTableList::new();
    scene.add(ball(vec3(0.0, 0.0, 0.0), 1.0, grey()));
    scene.add(ball(vec3(0.0, 0.0, 10.0), 1.0, Surface::Soot));
    let hit = scene.hit(&along_z(), 7.0..f64::MAX).unwrap();
    assert!((hit.get_t() - 14.0).abs() < 1e-12);
    assert_eq!(*hit.get_material(), Surface::Soot);
    assert!(scene.hit(&along_z(), 7.0..14.0).is_none());
}

#[test]
fn scene_of_scenes_returns_the_nearest() {
    let mut back = HitTableList::new();
    back.add(ball(vec3(0.0, 0.0, 10.0), 1.0, Surface::Soot));
    let mut front = HitTableList::new();
    front.add(ball(vec3(0.0, 0.0, 0.0), 1.0, grey()));
    let mut scene = HitTableList::new();
    scene.add(back);
    scene.add(front);
    let hit = scene.hit(&along_z(), 0.001..f64::MAX).unwrap();
    assert!((hit.get_t() - 4.0).abs() < 1e-12);
    assert_eq!(*hit.get_material(), grey());
}

#[test]
fn lambertian_never_absorbs_and_attenuates_by_its_albedo() {
    let albedo = vec3(0.4, 0.2, 0.1);
    let rec = HitRecord::new(4.0, vec3(0.0, 0.0, -1.0), vec3(0.0, 0.0, -1.0), 0u8);
    let mut rng = SmallRng::seed_from_u64(7);
    for _ in 0..100 {
        let direction = rec.get_normal() + in_unit_sphere(&mut rng);
        let (attenuation, scattered) = Lambertian::new(albedo).scatter(&rec, direction).unwrap();
        assert_eq!(attenuation, albedo);
        assert_eq!(*scattered.origin(), vec3(0.0, 0.0, -1.0));
        assert_eq!(*scattered.direction(), direction);
    }
}

#[test]
fn metal_absorbs_what_does_not_leave_the_surface() {
    let albedo = vec3(0.7, 0.6, 0.5);
    let rec = HitRecord::new(4.0, vec3(0.0, 0.0, -1.0), vec3(0.0, 0.0, -1.0), 0u8);
    let metal = Metal::new(albedo, 0.0);
    assert!(metal.scatter(&rec, vec3(0.0, 0.0, 1.0), false).is_none());
    let (attenuation, scattered) = metal.scatter(&rec, vec3(0.0, 0.0, -1.0), true).unwrap();
    assert_eq!(attenuation, albedo);
    assert_eq!(*scattered.origin(), vec3(0.0, 0.0, -1.0));
    assert_eq!(*scattered.direction(), vec3(0.0, 0.0, -1.0));
}

#[test]
fn mirror_sends_a_head_on_ray_back() {
    let mirror = Surface::Mirror(vec3(0.7, 0.6, 0.5), 0.0);
    let sphere = ball(vec3(0.0, 0.0, 0.0), 1.0, mirror);
    let rec = sphere.hit(&along_z(), 0.001..f64::MAX).unwrap();
    let mut rng = SmallRng::seed_from_u64(0);
    let (attenuation, scattered) = mirror.scatter(&mut rng, &along_z(), &rec).unwrap();
    assert_eq!(attenuation, vec3(0.7, 0.6, 0.5));
    assert!((scattered.direction() - vec3(0.0, 0.0, -1.0)).magnitude() < 1e-12);
}

#[test]
fn mirror_absorbs_a_ray_that_comes_from_behind_the_surface() {
    let mirror = Surface::Mirror(vec3(0.7, 0.6, 0.5), 0.0);
    let rec = HitRecord::new(1.0, vec3(0.0, 0.0, 1.0), vec3(0.0, 0.0, 1.0), mirror);
    let from_inside = Ray::new(vec3(0.0, 0.0, 0.0), vec3(0.0, 0.0, 1.0));
    let mut rng = SmallRng::seed_from_u64(0);
    assert!(mirror.scatter(&mut rng, &from_inside, &rec).is_none());
}

#[test]
fn dielectric_reflects_or_refracts_and_never_absorbs() {
    let white = vec3(1.0, 1.0, 1.0);
    let reflected = vec3(0.0, 0.0, -1.0);
    let refracted = vec3(0.0, 0.1, 1.0);
    let rec = HitRecord::new(4.0, vec3(0.0, 0.0, -1.0), vec3(0.0, 0.0, -1.0), 0u8);
    let glass = Dielectric::new(1.5);
    assert_eq!(glass.ref_idx, 1.5);
    let cases = [
        (Some(refracted), false, refracted),
        (Some(refracted), true, reflected),
        (None, true, reflected),
        (None, false, reflected),
    ];
    for (bent, reflects, expected) in cases {
        let (attenuation, scattered) =
            glass.scatter(&rec, white, reflected, bent, reflects).unwrap();
        assert_eq!(attenuation, white);
        assert_eq!(*scattered.origin(), vec3(0.0, 0.0, -1.0));
        assert_eq!(*scattered.direction(), expected);
    }
}

#[test]
fn path_through_an_empty_world_escapes_at_once() {
    let world: HitTableList<Ball> = HitTableList::new();
    let mut rng = SmallRng::seed_from_u64(0);
    let ray = Ray::new(vec3(0.0, 0.0, 0.0), vec3(0.0, 1.0, 0.0));
    let path = trace(&world, &mut rng, ray, 0.001, f64::MAX);
    assert!(path.attenuations.is_empty());
    match path.end {
        PathEnd::Escaped(last) => {
            assert_eq!(*last.origin(), vec3(0.0, 0.0, 0.0));
            assert_eq!(*last.direction(), vec3(0.0, 1.0, 0.0));
        }
        _ => panic!("the ray met nothing"),
    }
}

#[test]
fn path_ends_where_it_is_absorbed() {
    let mut world = HitTableList::new();
    world.add(ball(vec3(0.0, 0.0, 0.0), 1.0, Surface::Soot));
    let mut rng = SmallRng::seed_from_u64(0);
    let path = trace(&world, &mut rng, along_z(), 0.001, f64::MAX);
    assert!(path.attenuations.is_empty());
    assert!(matches!(path.end, PathEnd::Absorbed));
}

#[test]
fn path_notes_each_bounce_before_it_escapes() {
    let first = vec3(0.9, 0.8, 0.7);
    let second = vec3(0.1, 0.2, 0.3);
    let mut world = HitTableList::new();
    world.add(ball(
        vec3(0.0, 0.0, 0.0),
        1.0,
        Surface::Towards(first, vec3(10.0, 0.0, -1.0)),
    ));
    world.add(ball(
        vec3(10.0, 0.0, -1.0),
        1.0,
        Surface::Towards(second, vec3(10.0, 50.0, -1.0)),
    ));
    let mut rng = SmallRng::seed_from_u64(0);
    let path = trace(&world, &mut rng, along_z(), 0.001, f64::MAX);
    assert_eq!(path.attenuations, vec![first, second]);
    match path.end {
        PathEnd::Escaped(last) => {
            assert!((last.origin() - vec3(9.0, 0.0, -1.0)).magnitude() < 1e-9);
        }
        _ => panic!("the second bounce leads into the open"),
    }
}

#[test]
fn path_is_given_up_after_fifty_bounces() {
    assert_eq!(MAX_DEPTH, 50);
    let albedo = vec3(0.5, 0.5, 0.5);
    let mut world = HitTableList::new();
    world.add(ball(
        vec3(0.0, 0.0, 0.0),
        10.0,
        Surface::Towards(albedo, vec3(0.0, 0.0, 0.0)),
    ));
    let mut rng = SmallRng::seed_from_u64(0);
    let ray = Ray::new(vec3(1.0, 0.0, 0.0), vec3(0.0, 0.0, 1.0));
    let path = trace(&world, &mut rng, ray, 0.001, f64::MAX);
    assert_eq!(path.attenuations, vec![albedo; 50]);
    assert!(matches!(path.end, PathEnd::Exhausted));
}

#[test]
fn same_seed_gives_the_same_path() {
    let mut world = HitTableList::new();
    world.add(ball(vec3(0.0, -1000.0, 0.0), 1000.0, grey()));
    world.add(ball(vec3(0.0, 1.0, 0.0), 1.0, Surface::Mirror(vec3(0.7, 0.6, 0.5), 0.3)));
    let start = || Ray::new(vec3(13.0, 2.0, 3.0), vec3(-13.0, -1.5, -3.0));
    let paths: Vec<_> = (0..2)
        .map(|_| {
            let mut rng = SmallRng::seed_from_u64(0);
            trace(&world, &mut rng, start(), 0.001, f64::MAX)
        })
        .collect();
    assert!(!paths[0].attenuations.is_empty());
    assert_eq!(paths[0].attenuations, paths[1].attenuations);
    match (&paths[0].end, &paths[1].end) {
        (PathEnd::Escaped(a), PathEnd::Escaped(b)) => {
            assert_eq!(a.origin(), b.origin());
            assert_eq!(a.direction(), b.direction());
        }
        (PathEnd::Absorbed, PathEnd::Absorbed) => {}
        (PathEnd::Exhausted, PathEnd::Exhausted) => {}
        _ => panic!("the two paths end differently"),
    }
}
