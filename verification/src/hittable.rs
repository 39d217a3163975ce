//! Surfaces that a ray can hit, the record of a hit, and a scene of such
//! surfaces that reports the nearest hit.
//!
//! Positions, normals and ray parameters are double-precision numbers, each
//! carried as its 64 bits. Where hits are compared, a ray parameter is taken
//! as the integer key that grows with it.

use vstd::prelude::*;
use crate::interval::Interval;
use crate::double::{
    is_number, lemma_keys_order_as_values, less, negated, ordered_key, scaled_value, spec_less,
    spec_negated, spec_ordered_key,
};
use crate::ray::{Ray, Triple};

verus! {

/// The ray meets the outward side of a surface when the dot product of its
/// direction with the outward normal is below zero.
pub open spec fn spec_front_face(dot: u64) -> bool {
    spec_less(dot, 0)
}

/// The normal to record for a hit: the outward normal where the ray meets
/// the outward side, its opposite where it meets the inward side, so that
/// the recorded normal always points against the ray.
pub open spec fn spec_face_normal(dot: u64, outward_normal: Triple) -> Triple {
    if spec_front_face(dot) {
        outward_normal
    } else {
        (
            spec_negated(outward_normal.0),
            spec_negated(outward_normal.1),
            spec_negated(outward_normal.2),
        )
    }
}

/// Where and how a ray met a surface.
#[derive(Clone, Copy, Debug)]
pub struct HitRecord {
    /// Point hit by the ray
    pub point: Triple,
    /// Normal of the surface at that point, turned against the ray
    pub normal: Triple,
    /// Parameter of the ray at that point
    pub t: u64,
    /// Whether the ray met the outward side of the surface
    pub front_face: Option<bool>,
}

impl HitRecord {
    /// Records a hit at `point` with ray parameter `t`. The side that was
    /// met and the recorded normal are both resolved here, from the dot
    /// product `dot` of the ray's direction with `outward_normal`, so that no
    /// record exists with one of them unset.
    pub fn new(point: Triple, outward_normal: Triple, t: u64, dot: u64) -> (rec: HitRecord)
        ensures
            rec.point == point,
            rec.t == t,
            rec.front_face == Some(spec_front_face(dot)),
            rec.normal == spec_face_normal(dot, outward_normal),
    {
        let mut rec = HitRecord { point, normal: outward_normal, t, front_face: None };
        rec.set_face_normal(dot, outward_normal);
        rec
    }

    fn set_face_normal(&mut self, dot: u64, outward_normal: Triple)
        ensures
            final(self).point == old(self).point,
            final(self).t == old(self).t,
            final(self).front_face == Some(spec_front_face(dot)),
            final(self).normal == spec_face_normal(dot, outward_normal),
    {
        let ff = less(dot, 0);
        self.front_face = Some(ff);
        self.normal = if ff {
            outward_normal
        } else {
            (negated(outward_normal.0), negated(outward_normal.1), negated(outward_normal.2))
        };
    }
}

/// A surface that can be tested for intersection with a ray.
pub trait Hittable {
    /// What `hit` reports. Testing a surface has no effect and depends on
    /// nothing but the surface, the ray and the bounds. An implementation
    /// in unverified code gives this the body of `hit`.
    spec fn spec_hit(&self, ray: Ray, bounds: Interval) -> Option<HitRecord>;

    /// The nearest intersection of `ray` with the surface whose ray
    /// parameter lies within `bounds`, if there is one. Whoever implements
    /// this answers for it that the parameter of a reported hit lies within
    /// `bounds`, and that the same test gives the same report.
    fn hit(&self, ray: &Ray, bounds: Interval) -> (found: Option<HitRecord>)
        ensures
            found == self.spec_hit(*ray, bounds),
            found matches Some(rec) ==> bounds.spec_contains(rec.t),
    ;
}

/// A scene: surfaces in the order in which they were added. The scene owns
/// its surfaces.
pub struct HittableList<T: Hittable> {
    objects: Vec<T>,
}

/// The key of each record's ray parameter; none for a miss, and none for a
/// parameter that is not a number.
pub open spec fn keys_of(records: Seq<Option<HitRecord>>) -> Seq<Option<i64>> {
    Seq::new(
        records.len(),
        |i: int|
            match records[i] {
                Some(rec) => spec_ordered_key(rec.t),
                None => None,
            },
    )
}

/// Object `i` reported a hit at or below `bound`.
pub open spec fn in_reach(keys: Seq<Option<i64>>, bound: i64, i: int) -> bool {
    0 <= i < keys.len() && keys[i] is Some && keys[i].unwrap() <= bound
}

/// Object `i` wins: it reported a hit at or below `bound`, no object reported
/// a nearer one, and none after it one as near.
pub open spec fn is_nearest(keys: Seq<Option<i64>>, bound: i64, i: int) -> bool {
    &&& in_reach(keys, bound, i)
    &&& forall|j: int|
        0 <= j < keys.len() && keys[j] is Some ==> keys[i].unwrap() <= #[trigger] keys[j].unwrap()
    &&& forall|j: int|
        i < j < keys.len() && keys[j] is Some ==> keys[i].unwrap() < #[trigger] keys[j].unwrap()
}

/// Finds the object whose hit is nearest among those at or below `bound`. Of
/// several objects equally near the last in order wins. `None` means that no
/// object reported a hit at or below `bound`.
pub fn nearest_hit(keys: &Vec<Option<i64>>, bound: i64) -> (winner: Option<usize>)
    ensures
        winner matches Some(i) ==> is_nearest(keys@, bound, i as int),
        winner is None <==> forall|j: int| !in_reach(keys@, bound, j),
{
    let mut winner: Option<usize> = None;
    let mut closest: i64 = bound;
    let mut n: usize = 0;
    while n < keys.len()
        invariant
            0 <= n <= keys.len(),
            closest <= bound,
            winner is None ==> closest == bound,
            winner is None ==> forall|j: int|
                0 <= j < n && keys@[j] is Some ==> bound < #[trigger] keys@[j].unwrap(),
            winner matches Some(i) ==> i < n && in_reach(keys@, bound, i as int) && keys@[i as int]
                == Some(closest),
            forall|j: int|
                0 <= j < n && keys@[j] is Some ==> closest <= #[trigger] keys@[j].unwrap(),
            winner matches Some(i) ==> forall|j: int|
                i < j < n && keys@[j] is Some ==> closest < #[trigger] keys@[j].unwrap(),
        decreases keys.len() - n,
    {
        match keys[n] {
            Some(key) => {
                if key <= closest {
                    closest = key;
                    winner = Some(n);
                }
            },
            None => {},
        }
        n += 1;
    }
    winner
}

/// The record that wins among `records`, if one does: none where `bound` is
/// not a number or no record lies at or below it.
pub open spec fn spec_nearest_record(records: Seq<Option<HitRecord>>, bound: u64) -> Option<
    HitRecord,
> {
    match spec_ordered_key(bound) {
        Some(b) => if exists|i: int| is_nearest(keys_of(records), b, i) {
            records[choose|i: int| is_nearest(keys_of(records), b, i)]
        } else {
            None
        },
        None => None,
    }
}

/// What each surface reports for `ray` within `bounds`, in the order of the
/// surfaces.
pub open spec fn reports<T: Hittable>(surfaces: Seq<T>, ray: Ray, bounds: Interval) -> Seq<
    Option<HitRecord>,
> {
    Seq::new(surfaces.len(), |i: int| surfaces[i].spec_hit(ray, bounds))
}

/// Picks the nearest of the hits that the objects of a scene reported, among
/// those whose ray parameter is at most `bound`. Of several hits equally near
/// the last in order is picked. With a `bound` that is not a number there is
/// nothing to pick.
pub fn nearest_record(records: &Vec<Option<HitRecord>>, bound: u64) -> (found: Option<HitRecord>)
    ensures
        found == spec_nearest_record(records@, bound),
        spec_ordered_key(bound) is None ==> found is None,
        spec_ordered_key(bound) matches Some(b) ==> (found is None <==> forall|j: int|
            !in_reach(keys_of(records@), b, j)),
        spec_ordered_key(bound) matches Some(b) ==> (found matches Some(rec) ==> exists|i: int|
            is_nearest(keys_of(records@), b, i) && records@[i] == Some(rec)),
{
    let mut keys: Vec<Option<i64>> = Vec::new();
    let mut n: usize = 0;
    while n < records.len()
        invariant
            0 <= n <= records.len(),
            keys@ =~= keys_of(records@.take(n as int)),
        decreases records.len() - n,
    {
        let key = match &records[n] {
            Some(rec) => ordered_key(rec.t),
            None => None,
        };
        keys.push(key);
        n += 1;
        assert(keys@ =~= keys_of(records@.take(n as int)));
    }
    assert(records@.take(n as int) =~= records@);
    match ordered_key(bound) {
        None => None,
        Some(b) => match nearest_hit(&keys, b) {
            None => None,
            Some(winner) => {
                assert(in_reach(keys@, b, winner as int));
                proof {
                    let chosen = choose|i: int| is_nearest(keys_of(records@), b, i);
                    lemma_nearest_is_unique(keys_of(records@), b, winner as int, chosen);
                }
                records[winner]
            },
        },
    }
}

impl<T: Hittable> HittableList<T> {
    /// The surfaces of the scene, in order.
    pub closed spec fn surfaces(&self) -> Seq<T> {
        self.objects@
    }

    /// A scene without surfaces.
    pub fn new() -> (scene: HittableList<T>)
        ensures
            scene.surfaces() == Seq::<T>::empty(),
    {
        HittableList { objects: Vec::new() }
    }

    /// Adds a surface at the end of the scene.
    pub fn add(&mut self, obj: T)
        ensures
            final(self).surfaces() == old(self).surfaces().push(obj),
    {
        self.objects.push(obj);
    }

    /// Number of surfaces in the scene.
    pub fn len(&self) -> (n: usize)
        ensures
            n == self.surfaces().len(),
    {
        self.objects.len()
    }
}

impl<T: Hittable> Hittable for HittableList<T> {
    /// The nearest of what the surfaces of the scene report.
    open spec fn spec_hit(&self, ray: Ray, bounds: Interval) -> Option<HitRecord> {
        spec_nearest_record(reports(self.surfaces(), ray, bounds), bounds.max)
    }

    /// Asks every surface of the scene for its hit within `bounds` and
    /// reports the nearest of them: the record whose ray parameter is the
    /// least, and of several with the least the one of the last surface. A
    /// scene without surfaces reports nothing.
    fn hit(&self, ray: &Ray, bounds: Interval) -> (found: Option<HitRecord>)
        ensures
            self.surfaces().len() == 0 ==> found is None,
            spec_ordered_key(bounds.max) is None ==> found is None,
            spec_ordered_key(bounds.max) matches Some(b) ==> (found is None <==> forall|j: int|
                !in_reach(keys_of(reports(self.surfaces(), *ray, bounds)), b, j)),
    {
        let mut records: Vec<Option<HitRecord>> = Vec::new();
        let mut n: usize = 0;
        while n < self.objects.len()
            invariant
                0 <= n <= self.objects.len(),
                records.len() == n,
                forall|j: int|
                    0 <= j < n ==> (#[trigger] records@[j] matches Some(rec)
                        ==> bounds.spec_contains(rec.t)),
                forall|j: int|
                    0 <= j < n ==> #[trigger] records@[j] == self.objects@[j].spec_hit(
                        *ray,
                        bounds,
                    ),
            decreases self.objects.len() - n,
        {
            let found = self.objects[n].hit(ray, bounds);
            records.push(found);
            n += 1;
        }
        assert(records@ =~= reports(self.surfaces(), *ray, bounds));
        let found = nearest_record(&records, bounds.max);
        proof {
            if let Some(rec) = found {
                let b = spec_ordered_key(bounds.max).unwrap();
                let i = choose|i: int|
                    is_nearest(keys_of(records@), b, i) && records@[i] == Some(rec);
                assert(0 <= i < records.len());
            }
        }
        found
    }
}

/// At most one object wins.
pub proof fn lemma_nearest_is_unique(keys: Seq<Option<i64>>, bound: i64, i: int, j: int)
    requires
        is_nearest(keys, bound, i),
        is_nearest(keys, bound, j),
    ensures
        i == j,
{
    if i < j {
        assert(keys[i].unwrap() < keys[j].unwrap());
    } else if j < i {
        assert(keys[j].unwrap() < keys[i].unwrap());
    }
}

/// The winner is nearest in the whole scene, wherever it stands in the
/// order of the objects: its hit is at least as near as every hit that any
/// object reported, those beyond `bound` included.
pub proof fn lemma_nearest_is_global(keys: Seq<Option<i64>>, bound: i64, i: int, j: int)
    requires
        is_nearest(keys, bound, i),
        0 <= j < keys.len(),
        keys[j] is Some,
    ensures
        keys[i].unwrap() <= keys[j].unwrap(),
{
}

/// The record that wins is the nearest in value: its ray parameter is a
/// number, and it is at most the ray parameter of every other record whose
/// parameter is a number, whatever the order of the records.
pub proof fn lemma_nearest_record_is_global(
    records: Seq<Option<HitRecord>>,
    bound: i64,
    i: int,
    j: int,
)
    requires
        is_nearest(keys_of(records), bound, i),
        0 <= j < records.len(),
        records[j] is Some,
        is_number(records[j].unwrap().t),
    ensures
        records[i] is Some,
        is_number(records[i].unwrap().t),
        scaled_value(records[i].unwrap().t) <= scaled_value(records[j].unwrap().t),
{
    let keys = keys_of(records);
    assert(keys[i] is Some);
    lemma_keys_order_as_values(records[i].unwrap().t, records[j].unwrap().t);
    assert(keys[j] is Some);
    assert(keys[i].unwrap() <= keys[j].unwrap());
}

/// What a scene reports is the nearest of what its surfaces report: its ray
/// parameter is at most that of the report of any surface whose parameter is
/// a number, in whatever order the surfaces were added.
pub proof fn lemma_scene_hit_is_nearest<T: Hittable>(
    scene: HittableList<T>,
    ray: Ray,
    bounds: Interval,
    j: int,
)
    requires
        scene.spec_hit(ray, bounds) is Some,
        0 <= j < scene.surfaces().len(),
        scene.surfaces()[j].spec_hit(ray, bounds) is Some,
        is_number(scene.surfaces()[j].spec_hit(ray, bounds).unwrap().t),
    ensures
        is_number(scene.spec_hit(ray, bounds).unwrap().t),
        scaled_value(scene.spec_hit(ray, bounds).unwrap().t) <= scaled_value(
            scene.surfaces()[j].spec_hit(ray, bounds).unwrap().t,
        ),
{
    let records = reports(scene.surfaces(), ray, bounds);
    let b = spec_ordered_key(bounds.max).unwrap();
    let i = choose|i: int| is_nearest(keys_of(records), b, i);
    assert(records[j] == scene.surfaces()[j].spec_hit(ray, bounds));
    lemma_nearest_record_is_global(records, b, i, j);
}

} // verus!
