use raytracer::hittable::sphere::Sphere;
use raytracer::hittable::{HitRecord, Hittable, HittableList};
use raytracer::math::interval::Interval;
use raytracer::math::ray::Ray;
use raytracer::math::scalar::Scalar;
use raytracer::math::vec3::Vec3;
use raytracer::output::{Pixel, TargetOutput};
use raytracer::scene::{ray_shading, world_spheres, Shading};

fn s(x: f32) -> Scalar {
    Scalar::from_bits(x.to_bits())
}

fn f(x: Scalar) -> f32 {
    f32::from_bits(x.to_bits())
}

type V = [f32; 3];

fn enc(v: V) -> Vec3 {
    Vec3::new(s(v[0]), s(v[1]), s(v[2]))
}

fn dec(v: Vec3) -> V {
    [f(v.x), f(v.y), f(v.z)]
}

fn add(a: V, b: V) -> V {
    [a[0] + b[0], a[1] + b[1], a[2] + b[2]]
}

fn sub(a: V, b: V) -> V {
    [a[0] - b[0], a[1] - b[1], a[2] - b[2]]
}

fn scale(k: f32, a: V) -> V {
    [k * a[0], k * a[1], k * a[2]]
}

fn div(a: V, k: f32) -> V {
    scale(1.0 / k, a)
}

fn dot(a: V, b: V) -> f32 {
    a[0] * b[0] + a[1] * b[1] + a[2] * b[2]
}

fn ray(origin: V, direction: V) -> Ray {
    Ray::new(enc(origin), enc(direction))
}

/// A sphere whose intersection arithmetic runs on the hardware; every
/// comparison and choice is the library's.
struct Ball(Sphere);

fn ball(center: V, radius: f32) -> Ball {
    Ball(Sphere::new(enc(center), s(radius)))
}

impl Hittable for Ball {
    fn hit(&self, ray: &Ray, ray_t: Interval) -> Option<HitRecord> {
        let origin = dec(ray.origin);
        let direction = dec(ray.direction);
        let center = dec(self.0.center);
        let radius = f(self.0.radius);
        let oc = sub(origin, center);
        let a = dot(direction, direction);
        let b = 2.0 * dot(oc, direction);
        let c = dot(oc, oc) - radius * radius;
        let discriminant = b * b - 4.0 * a * c;
        let sqrt_d = discriminant.sqrt();
        let near = (-b - sqrt_d) / (2.0 * a);
        let far = (-b + sqrt_d) / (2.0 * a);
        let root = Sphere::nearest_root(s(discriminant), s(near), s(far), ray_t)?;
        let point = add(origin, scale(f(root), direction));
        let outward = div(sub(point, center), radius);
        let (normal, front_face) = self.face_normal(s(dot(direction, outward)), enc(outward));
        Some(HitRecord { point: enc(point), normal, t: root, front_face })
    }
}

fn visible() -> Interval {
    Interval::new(s(0.0), s(f32::INFINITY))
}

fn fixed_world() -> HittableList {
    let mut world = HittableList::new();
    for sphere in world_spheres() {
        world.add(Box::new(Ball(sphere)));
    }
    world
}

fn shade_color(shading: Shading) -> V {
    match shading {
        Shading::Surface { normal } => scale(0.5, add(dec(normal), [1.0, 1.0, 1.0])),
        Shading::Background { direction } => {
            let d = dec(direction);
            let unit = div(d, dot(d, d).sqrt());
            let t = 0.5 * (unit[1] + 1.0);
            add(scale(1.0 - t, [1.0, 1.0, 1.0]), scale(t, [0.5, 0.7, 1.0]))
        }
    }
}

fn camera_ray(width: u32, height: u32, i: u32, j: u32) -> Ray {
    let aspect_ratio = width as f32 / height as f32;
    let viewport_height = 2.0;
    let viewport_width = aspect_ratio * viewport_height;
    let focal_length = 1.0;
    let origin = [0.0, 0.0, 0.0];
    let horizontal = [viewport_width, 0.0, 0.0];
    let vertical = [0.0, -viewport_height, 0.0];
    let delta_x = div(horizontal, width as f32);
    let delta_y = div(vertical, height as f32);
    let upper_left = sub(
        sub(sub(origin, [0.0, 0.0, focal_length]), div(horizontal, 2.0)),
        div(vertical, 2.0),
    );
    let pixel00 = add(upper_left, scale(0.5, add(delta_x, delta_y)));
    let center = add(add(pixel00, scale(i as f32, delta_x)), scale(j as f32, delta_y));
    ray(origin, sub(center, origin))
}

fn render_fixed_world(target: &mut TargetOutput) {
    let world = fixed_world();
    let width = target.width();
    let height = target.height();
    target.render(|i: u32, j: u32| {
        let r = camera_ray(width, height, i, j);
        enc(shade_color(ray_shading(&r, &world)))
    });
}

#[test]
fn sphere_hit_head_on() {
    let b = ball([0.0, 0.0, -1.0], 0.5);
    let r = ray([0.0, 0.0, 0.0], [0.0, 0.0, -1.0]);
    let rec = b.hit(&r, visible()).expect("the ray meets the sphere");
    assert_eq!(f(rec.t), 0.5);
    assert_eq!(dec(rec.point), [0.0, 0.0, -0.5]);
    assert_eq!(dec(rec.normal), [0.0, 0.0, 1.0]);
    assert!(rec.front_face);
}

#[test]
fn sphere_behind_the_ray_is_missed() {
    let b = ball([0.0, 0.0, -1.0], 0.5);
    let r = ray([0.0, 0.0, 0.0], [0.0, 0.0, 1.0]);
    assert!(b.hit(&r, visible()).is_none());
}

#[test]
fn sphere_hit_from_inside_is_a_back_face() {
    let b = ball([0.0, 0.0, 0.0], 2.0);
    let r = ray([0.0, 0.0, 0.0], [0.0, 0.0, -1.0]);
    let rec = b.hit(&r, visible()).expect("the ray leaves the sphere");
    assert_eq!(f(rec.t), 2.0);
    assert_eq!(dec(rec.point), [0.0, 0.0, -2.0]);
    assert!(!rec.front_face);
    assert_eq!(dec(rec.normal), [0.0, 0.0, 1.0]);
}

#[test]
fn root_on_the_end_of_the_range_is_a_miss() {
    let b = ball([0.0, 0.0, -1.0], 0.5);
    let r = ray([0.0, 0.0, 0.0], [0.0, 0.0, -1.0]);
    // roots at 0.5 and 1.5
    assert!(b.hit(&r, Interval::new(s(0.5), s(1.5))).is_none());
    let far = b.hit(&r, Interval::new(s(0.5), s(1.6))).expect("the far root is inside");
    assert_eq!(f(far.t), 1.5);
    assert!(!far.front_face);
    let near = b.hit(&r, Interval::new(s(0.4), s(1.5))).expect("the near root is inside");
    assert_eq!(f(near.t), 0.5);
    assert!(b.hit(&r, Interval::new(s(0.0), s(0.5))).is_none());
}

#[test]
fn nearest_root_follows_the_order_of_the_rules() {
    let range = Interval::new(s(0.0), s(10.0));
    assert_eq!(Sphere::nearest_root(s(-1.0), s(1.0), s(2.0), range), None);
    assert_eq!(Sphere::nearest_root(s(0.0), s(1.0), s(2.0), range), Some(s(1.0)));
    assert_eq!(Sphere::nearest_root(s(4.0), s(1.0), s(2.0), range), Some(s(1.0)));
    assert_eq!(Sphere::nearest_root(s(4.0), s(-1.0), s(2.0), range), Some(s(2.0)));
    assert_eq!(Sphere::nearest_root(s(4.0), s(0.0), s(2.0), range), Some(s(2.0)));
    assert_eq!(Sphere::nearest_root(s(4.0), s(-3.0), s(-1.0), range), None);
    assert_eq!(Sphere::nearest_root(s(4.0), s(0.0), s(10.0), range), None);
    assert_eq!(Sphere::nearest_root(s(4.0), s(11.0), s(12.0), range), None);
    assert_eq!(Sphere::nearest_root(s(4.0), s(12.0), s(5.0), range), Some(s(5.0)));
    assert_eq!(Sphere::nearest_root(s(f32::NAN), s(f32::NAN), s(f32::NAN), range), None);
    assert_eq!(Sphere::nearest_root(s(f32::NAN), s(1.0), s(2.0), range), Some(s(1.0)));
    assert_eq!(Sphere::nearest_root(s(-0.0), s(1.0), s(2.0), range), Some(s(1.0)));
}

#[test]
fn face_normal_turns_the_normal_against_the_ray() {
    let b = ball([0.0, 0.0, 0.0], 1.0);
    let outward = enc([0.0, 1.0, 0.0]);
    assert_eq!(b.face_normal(s(-0.5), outward), (outward, true));
    assert_eq!(b.face_normal(s(0.5), outward), (enc([-0.0, -1.0, -0.0]), false));
    assert_eq!(b.face_normal(s(0.0), outward), (enc([-0.0, -1.0, -0.0]), false));
    assert_eq!(b.face_normal(s(f32::NAN), outward), (enc([-0.0, -1.0, -0.0]), false));
}

#[test]
fn sphere_new_keeps_its_fields() {
    let sphere = Sphere::new(enc([1.0, 2.0, 3.0]), s(4.0));
    assert_eq!(sphere.center, enc([1.0, 2.0, 3.0]));
    assert_eq!(sphere.radius, s(4.0));
}

#[test]
fn ray_new_keeps_its_fields() {
    let r = Ray::new(enc([1.0, 2.0, 3.0]), enc([4.0, 5.0, 6.0]));
    assert_eq!(r.origin, enc([1.0, 2.0, 3.0]));
    assert_eq!(r.direction, enc([4.0, 5.0, 6.0]));
}

#[test]
fn list_returns_only_the_nearer_hit() {
    let r = ray([0.0, 0.0, 0.0], [0.0, 0.0, -1.0]);
    let mut far_first = HittableList::new();
    far_first.add(Box::new(ball([0.0, 0.0, -3.0], 0.5)));
    far_first.add(Box::new(ball([0.0, 0.0, -1.0], 0.5)));
    let rec = far_first.hit(&r, visible()).expect("both spheres lie on the ray");
    assert_eq!(f(rec.t), 0.5);
    assert_eq!(dec(rec.point), [0.0, 0.0, -0.5]);

    let mut near_first = HittableList::new();
    near_first.add(Box::new(ball([0.0, 0.0, -1.0], 0.5)));
    near_first.add(Box::new(ball([0.0, 0.0, -3.0], 0.5)));
    let again = near_first.hit(&r, visible()).expect("both spheres lie on the ray");
    assert_eq!(again, rec);
    assert_eq!(again, ball([0.0, 0.0, -1.0], 0.5).hit(&r, visible()).unwrap());
}

#[test]
fn list_of_overlapping_spheres_returns_the_nearer_surface() {
    let r = ray([0.0, 0.0, 0.0], [0.0, 0.0, -1.0]);
    let mut list = HittableList::new();
    list.add(Box::new(ball([0.0, 0.0, -2.0], 1.0)));
    list.add(Box::new(ball([0.0, 0.0, -2.5], 1.0)));
    let rec = list.hit(&r, visible()).expect("both spheres lie on the ray");
    assert_eq!(f(rec.t), 1.0);
    assert!(rec.front_face);
}

#[test]
fn empty_list_and_cleared_list_report_nothing() {
    let r = ray([0.0, 0.0, 0.0], [0.0, 0.0, -1.0]);
    let mut list = HittableList::new();
    assert_eq!(list.objects.len(), 0);
    assert!(list.hit(&r, visible()).is_none());
    list.add(Box::new(ball([0.0, 0.0, -1.0], 0.5)));
    assert_eq!(list.objects.len(), 1);
    assert!(list.hit(&r, visible()).is_some());
    list.clear();
    assert_eq!(list.objects.len(), 0);
    assert!(list.hit(&r, visible()).is_none());
}

#[test]
fn list_misses_when_every_member_misses() {
    let r = ray([0.0, 0.0, 0.0], [0.0, 1.0, 0.0]);
    let mut list = HittableList::new();
    list.add(Box::new(ball([0.0, 0.0, -1.0], 0.5)));
    list.add(Box::new(ball([0.0, 0.0, -3.0], 0.5)));
    assert!(list.hit(&r, visible()).is_none());
}

#[test]
fn lists_nest() {
    let r = ray([0.0, 0.0, 0.0], [0.0, 0.0, -1.0]);
    let mut inner = HittableList::new();
    inner.add(Box::new(ball([0.0, 0.0, -1.0], 0.5)));
    let mut outer = HittableList::new();
    outer.add(Box::new(ball([0.0, 0.0, -3.0], 0.5)));
    outer.add(Box::new(inner));
    let rec = outer.hit(&r, visible()).expect("the inner sphere is nearer");
    assert_eq!(f(rec.t), 0.5);
}

#[test]
fn fixed_world_holds_the_two_spheres() {
    let spheres = world_spheres();
    assert_eq!(spheres.len(), 2);
    assert_eq!(spheres[0], Sphere::new(enc([0.0, 0.0, -1.0]), s(1.0)));
    assert_eq!(spheres[1], Sphere::new(enc([0.0, -100.5, -1.0]), s(100.0)));
}

#[test]
fn ray_missing_both_spheres_gets_the_background() {
    let world = fixed_world();
    let r = ray([0.0, 0.0, 0.0], [1.0, 1.0, 0.0]);
    let shading = ray_shading(&r, &world);
    assert_eq!(shading, Shading::Background { direction: enc([1.0, 1.0, 0.0]) });
    let c = shade_color(shading);
    let unit_y = 1.0 / 2.0f32.sqrt();
    let t = 0.5 * (unit_y + 1.0);
    assert!((c[0] - (1.0 - 0.5 * t)).abs() < 1e-6);
    assert!((c[1] - (1.0 - 0.3 * t)).abs() < 1e-6);
    assert!((c[2] - 1.0).abs() < 1e-6);
    assert!((c[0] - 0.573_223_3).abs() < 1e-6);
    assert!((c[1] - 0.743_934).abs() < 1e-6);
    for (channel, sky) in c.iter().zip([0.5f32, 0.7, 1.0]) {
        assert!(sky - 1e-6 <= *channel && *channel <= 1.0 + 1e-6);
    }
}

#[test]
fn ray_meeting_a_surface_gets_its_normal() {
    let mut world = HittableList::new();
    world.add(Box::new(ball([0.0, 0.0, -1.0], 0.5)));
    let r = ray([0.0, 0.0, 0.0], [0.0, 0.0, -1.0]);
    let shading = ray_shading(&r, &world);
    assert_eq!(shading, Shading::Surface { normal: enc([0.0, 0.0, 1.0]) });
    assert_eq!(shade_color(shading), [0.5, 0.5, 1.0]);
}

#[test]
fn shading_from_hit_chooses_by_the_hit() {
    let r = ray([0.0, 0.0, 0.0], [0.0, 2.0, 0.0]);
    assert_eq!(Shading::from_hit(None, &r), Shading::Background { direction: enc([0.0, 2.0, 0.0]) });
    let rec = HitRecord {
        point: enc([0.0, 0.0, -0.5]),
        normal: enc([0.0, 0.0, 1.0]),
        t: s(0.5),
        front_face: true,
    };
    assert_eq!(Shading::from_hit(Some(rec), &r), Shading::Surface { normal: enc([0.0, 0.0, 1.0]) });
}

#[test]
fn surface_at_parameter_zero_is_not_seen() {
    // the origin lies on this sphere: the near root is zero and is left out
    let mut world = HittableList::new();
    world.add(Box::new(ball([0.0, 0.0, -1.0], 1.0)));
    let r = ray([0.0, 0.0, 0.0], [0.0, 0.0, -1.0]);
    let rec = world.hit(&r, visible()).expect("the far side is seen");
    assert_eq!(f(rec.t), 2.0);
    assert!(!rec.front_face);
}

#[test]
fn end_to_end_two_by_two() {
    let mut target = TargetOutput::empty(2, 2);
    render_fixed_world(&mut target);
    assert_eq!(target.pixels().len(), 4);
    for p in target.pixels() {
        assert_eq!(p.a, 255);
    }
    let a = target.pixel(0, 0);
    let b = target.pixel(1, 1);
    assert_ne!((a.r, a.g, a.b), (b.r, b.g, b.b));
    let first: Vec<Pixel> = target.pixels().clone();
    render_fixed_world(&mut target);
    assert_eq!(&first, target.pixels());
}

#[test]
fn end_to_end_pixels_follow_the_shading_rules() {
    let mut target = TargetOutput::empty(4, 2);
    render_fixed_world(&mut target);
    let world = fixed_world();
    for j in 0..2u32 {
        for i in 0..4u32 {
            let r = camera_ray(4, 2, i, j);
            let expected = Pixel::from(enc(shade_color(ray_shading(&r, &world))));
            assert_eq!(target.pixel(i, j), expected);
            assert_eq!(target.pixels()[(j * 4 + i) as usize], expected);
        }
    }
}
