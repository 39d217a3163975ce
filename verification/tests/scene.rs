use raytracer::hittable::{nearest_record, HitRecord, Hittable, HittableList};
use raytracer::interval::Interval;
use raytracer::double::negated;
use raytracer::ray::{Ray, Triple};
use raytracer::sphere::{choose_root, Root};

type V = [f64; 3];

fn bits(v: V) -> Triple {
    (v[0].to_bits(), v[1].to_bits(), v[2].to_bits())
}

fn reals(t: &Triple) -> V {
    [f64::from_bits(t.0), f64::from_bits(t.1), f64::from_bits(t.2)]
}

fn dot(a: V, b: V) -> f64 {
    a[0] * b[0] + a[1] * b[1] + a[2] * b[2]
}

fn sub(a: V, b: V) -> V {
    [a[0] - b[0], a[1] - b[1], a[2] - b[2]]
}

fn along(o: V, d: V, t: f64) -> V {
    [o[0] + d[0] * t, o[1] + d[1] * t, o[2] + d[2] * t]
}

struct Ball {
    center: V,
    radius: f64,
}

impl Hittable for Ball {
    fn spec_hit(&self, ray: Ray, bounds: Interval) -> Option<HitRecord> {
        self.hit(&ray, bounds)
    }

    fn hit(&self, ray: &Ray, bounds: Interval) -> Option<HitRecord> {
        let o = reals(ray.origin());
        let d = reals(ray.direction());
        let c_q = sub(self.center, o);
        let a = dot(d, d);
        let h = dot(d, c_q);
        let c = dot(c_q, c_q) - self.radius * self.radius;
        let discriminant = h * h - a * c;
        if discriminant < 0.0 {
            return None;
        }
        let sqrtd = discriminant.sqrt();
        let near = (h - sqrtd) / a;
        let far = (h + sqrtd) / a;
        let root = match choose_root(bounds.contains(near.to_bits()), bounds.contains(far.to_bits()))? {
            Root::Near => near,
            Root::Far => far,
        };
        let p = along(o, d, root);
        let n = sub(p, self.center);
        let n = [n[0] / self.radius, n[1] / self.radius, n[2] / self.radius];
        Some(HitRecord::new(bits(p), bits(n), root.to_bits(), dot(d, n).to_bits()))
    }
}

struct Fixed {
    t: f64,
    tag: f64,
}

impl Hittable for Fixed {
    fn spec_hit(&self, ray: Ray, bounds: Interval) -> Option<HitRecord> {
        self.hit(&ray, bounds)
    }

    fn hit(&self, _ray: &Ray, bounds: Interval) -> Option<HitRecord> {
        if bounds.contains(self.t.to_bits()) {
            Some(HitRecord::new(bits([self.tag, 0.0, 0.0]), bits([0.0, 0.0, 1.0]), self.t.to_bits(), (-1.0f64).to_bits()))
        } else {
            None
        }
    }
}

fn forward() -> Ray {
    Ray::new(bits([0.0, 0.0, 0.0]), bits([0.0, 0.0, -1.0]))
}

#[test]
fn ray_keeps_origin_and_direction() {
    let ray = Ray::new(bits([1.0, 2.0, 3.0]), bits([-4.0, 0.5, 0.0]));
    assert_eq!(reals(ray.origin()), [1.0, 2.0, 3.0]);
    assert_eq!(reals(ray.direction()), [-4.0, 0.5, 0.0]);
}

#[test]
fn empty_scene_reports_nothing() {
    let world: HittableList<Ball> = HittableList::new();
    assert_eq!(world.len(), 0);
    assert!(world.hit(&forward(), Interval::positive()).is_none());
}

#[test]
fn nearer_of_two_overlapping_spheres_wins() {
    let near = || Ball { center: [0.0, 0.0, -1.0], radius: 0.5 };
    let behind = || Ball { center: [0.0, 0.0, -1.25], radius: 0.5 };
    for flipped in [false, true] {
        let mut world = HittableList::new();
        if flipped {
            world.add(behind());
            world.add(near());
        } else {
            world.add(near());
            world.add(behind());
        }
        assert_eq!(world.len(), 2);
        let rec = world.hit(&forward(), Interval::positive()).unwrap();
        assert_eq!(f64::from_bits(rec.t), 0.5);
        assert_eq!(reals(&rec.point), [0.0, 0.0, -0.5]);
        assert_eq!(reals(&rec.normal), [0.0, 0.0, 1.0]);
        assert_eq!(rec.front_face, Some(true));
    }
}

#[test]
fn hit_lies_on_the_sphere_with_unit_normal() {
    let ball = Ball { center: [0.3, -0.2, -2.0], radius: 0.75 };
    let ray = Ray::new(bits([0.1, 0.0, 0.5]), bits([0.05, -0.07, -1.0]));
    let mut world = HittableList::new();
    world.add(ball);
    let rec = world.hit(&ray, Interval::positive()).unwrap();
    let t = f64::from_bits(rec.t);
    let p = along([0.1, 0.0, 0.5], [0.05, -0.07, -1.0], t);
    let off = sub(p, [0.3, -0.2, -2.0]);
    assert!((dot(off, off).sqrt() - 0.75).abs() < 1e-12);
    let n = reals(&rec.normal);
    assert!((dot(n, n).sqrt() - 1.0).abs() < 1e-12);
    assert_eq!(rec.front_face, Some(true));
    assert!(dot([0.05, -0.07, -1.0], n) < 0.0);
}

#[test]
fn ray_from_inside_meets_the_far_side() {
    let mut world = HittableList::new();
    world.add(Ball { center: [0.0, 0.0, 0.0], radius: 2.0 });
    let rec = world.hit(&forward(), Interval::positive()).unwrap();
    assert_eq!(f64::from_bits(rec.t), 2.0);
    assert_eq!(rec.front_face, Some(false));
    assert_eq!(reals(&rec.normal), [0.0, 0.0, 1.0]);
}

#[test]
fn sphere_behind_the_ray_is_not_hit() {
    let mut world = HittableList::new();
    world.add(Ball { center: [0.0, 0.0, 3.0], radius: 1.0 });
    assert!(world.hit(&forward(), Interval::positive()).is_none());
    assert!(world.hit(&forward(), Interval::negative()).is_some());
}

#[test]
fn last_of_equally_near_surfaces_wins() {
    let mut world = HittableList::new();
    world.add(Fixed { t: 3.0, tag: 1.0 });
    world.add(Fixed { t: 2.0, tag: 2.0 });
    world.add(Fixed { t: 2.0, tag: 3.0 });
    world.add(Fixed { t: 5.0, tag: 4.0 });
    let rec = world.hit(&forward(), Interval::positive()).unwrap();
    assert_eq!(f64::from_bits(rec.t), 2.0);
    assert_eq!(f64::from_bits(rec.point.0), 3.0);
}

#[test]
fn hit_at_the_upper_bound_counts() {
    let mut world = HittableList::new();
    world.add(Fixed { t: 4.0, tag: 1.0 });
    let rec = world.hit(&forward(), Interval::new(0.0f64.to_bits(), 4.0f64.to_bits()));
    assert_eq!(rec.map(|r| f64::from_bits(r.t)), Some(4.0));
    assert!(world.hit(&forward(), Interval::new(0.0f64.to_bits(), 3.5f64.to_bits())).is_none());
}

#[test]
fn scene_within_a_scene() {
    let mut inner = HittableList::new();
    inner.add(Fixed { t: 6.0, tag: 1.0 });
    inner.add(Fixed { t: 1.5, tag: 2.0 });
    let mut outer = HittableList::new();
    outer.add(inner);
    let rec = outer.hit(&forward(), Interval::positive()).unwrap();
    assert_eq!(f64::from_bits(rec.t), 1.5);
}

#[test]
fn record_resolves_side_and_normal() {
    let n = bits([0.0, 0.6, -0.8]);
    let front = HitRecord::new(bits([1.0, 2.0, 3.0]), n, 7.0f64.to_bits(), (-0.25f64).to_bits());
    assert_eq!(front.front_face, Some(true));
    assert_eq!(front.normal, n);
    assert_eq!(reals(&front.point), [1.0, 2.0, 3.0]);
    assert_eq!(f64::from_bits(front.t), 7.0);

    for d in [0.25f64, 0.0, -0.0, f64::NAN] {
        let back = HitRecord::new(bits([1.0, 2.0, 3.0]), n, 7.0f64.to_bits(), d.to_bits());
        assert_eq!(back.front_face, Some(false));
        assert_eq!(back.normal, bits([-0.0, -0.6, 0.8]));
    }
}

#[test]
fn negated_flips_the_sign_only() {
    for x in [0.0f64, -0.0, 1.5, -2.25, f64::MAX, f64::INFINITY, 5e-324] {
        assert_eq!(negated(x.to_bits()), (-x).to_bits());
    }
    assert!(f64::from_bits(negated(f64::NAN.to_bits())).is_nan());
}

#[test]
fn nearest_record_of_given_records() {
    let rec = |t: f64| Some(HitRecord::new(bits([t, 0.0, 0.0]), bits([0.0, 0.0, 1.0]), t.to_bits(), (-1.0f64).to_bits()));
    let records = vec![rec(9.0), None, rec(4.0), rec(f64::NAN), rec(6.0)];
    let found = nearest_record(&records, f64::MAX.to_bits()).unwrap();
    assert_eq!(f64::from_bits(found.t), 4.0);
    assert!(nearest_record(&records, 3.0f64.to_bits()).is_none());
    assert!(nearest_record(&records, f64::NAN.to_bits()).is_none());
    assert_eq!(nearest_record(&records, 4.0f64.to_bits()).map(|r| f64::from_bits(r.t)), Some(4.0));
}
