//! The intersection capability, its hit record, and the list that reports
//! the nearest hit among its members.
use vstd::prelude::*;

use crate::math::interval::Interval;
use crate::math::ray::Ray;
use crate::math::scalar::Scalar;
use crate::math::vec3::{Point3, Vec3};

pub mod sphere;

verus! {

/// Where a ray met a surface: the point, the unit normal turned against the
/// ray, the ray parameter, and whether the ray came from outside.
#[derive(Clone, Copy, Debug, PartialEq, Eq, Structural)]
pub struct HitRecord {
    pub point: Point3,
    pub normal: Vec3,
    pub t: Scalar,
    pub front_face: bool,
}

/// The normal turned against the ray, and whether the ray meets the front
/// face, given the dot product of the ray's direction with the outward normal:
/// the front face is met where that product is below zero, and the outward
/// normal is kept there and negated elsewhere.
pub open spec fn oriented(direction_dot_normal: Scalar, outward_normal: Vec3) -> (Vec3, bool) {
    if direction_dot_normal.lt_spec(Scalar { bits: 0 }) {
        (outward_normal, true)
    } else {
        (outward_normal.negated(), false)
    }
}

/// Something a ray can be tested against.
///
/// An implementation outside this crate is taken at its word that a hit it
/// reports has its parameter strictly inside the range, and that, where it
/// overrides `face_normal`, it orients normals the same way: nothing here
/// can check either.
pub trait Hittable {
    /// The nearest intersection of `ray` with the object whose parameter lies
    /// strictly inside `ray_t`, if there is one.
    fn hit(&self, ray: &Ray, ray_t: Interval) -> (r: Option<HitRecord>)
        ensures
            r matches Some(rec) ==> ray_t.surrounds_spec(rec.t),
    ;

    /// Orients an outward normal against the ray. `direction_dot_normal` is the
    /// dot product of the ray's direction with `outward_normal`.
    fn face_normal(&self, direction_dot_normal: Scalar, outward_normal: Vec3) -> (r: (Vec3, bool))
        ensures
            r == oriented(direction_dot_normal, outward_normal),
    {
        let front_face = direction_dot_normal.lt(Scalar::zero());
        let normal = if front_face {
            outward_normal
        } else {
            outward_normal.neg()
        };
        (normal, front_face)
    }
}

/// Whether `object.hit(&ray, ray_t)` may return `found`.
pub open spec fn may_report<H: Hittable + ?Sized>(
    object: &H,
    ray: Ray,
    ray_t: Interval,
    found: Option<HitRecord>,
) -> bool {
    call_ensures(H::hit, (object, &ray, ray_t), found)
}

/// Tests `object` against the ray and range. This is the call that
/// `may_report` speaks of, for an object of any type.
pub fn hit_of<H: Hittable + ?Sized>(object: &H, ray: &Ray, ray_t: Interval) -> (r: Option<
    HitRecord,
>)
    ensures
        may_report(object, *ray, ray_t, r),
        r matches Some(rec) ==> ray_t.surrounds_spec(rec.t),
{
    object.hit(ray, ray_t)
}

/// The state of a search for the nearest hit: the upper bound for the next
/// test, and the hit kept so far.
#[derive(Clone, Copy, Debug, PartialEq, Eq, Structural)]
pub struct Scan {
    pub closest_so_far: Scalar,
    pub record: Option<HitRecord>,
}

impl Scan {
    /// The state before any test: the bound is the end of the range and no
    /// hit is kept.
    pub open spec fn start(ray_t: Interval) -> Scan {
        Scan { closest_so_far: ray_t.max, record: None }
    }

    /// The state after a test that reported `found`: a hit is kept and its
    /// parameter becomes the bound; a miss changes nothing.
    pub open spec fn keep_spec(self, found: Option<HitRecord>) -> Scan {
        match found {
            Some(rec) => Scan { closest_so_far: rec.t, record: Some(rec) },
            None => self,
        }
    }

    /// The range the next object is tested on: from the start of `ray_t` to
    /// the bound.
    pub open spec fn range_spec(self, ray_t: Interval) -> Interval {
        Interval { min: ray_t.min, max: self.closest_so_far }
    }

    /// The state after the first `n` of `reports` were kept in turn.
    pub open spec fn after(ray_t: Interval, reports: Seq<Option<HitRecord>>, n: nat) -> Scan
        recommends
            n <= reports.len(),
        decreases n,
    {
        if n == 0 {
            Scan::start(ray_t)
        } else {
            Scan::after(ray_t, reports, (n - 1) as nat).keep_spec(reports[n - 1])
        }
    }

    /// Each report lies strictly inside the range that ends at the bound the
    /// reports before it left.
    pub open spec fn each_within(ray_t: Interval, reports: Seq<Option<HitRecord>>) -> bool {
        forall|i: int|
            0 <= i < reports.len() ==> match #[trigger] reports[i] {
                Some(rec) => Scan::after(ray_t, reports, i as nat).range_spec(ray_t).surrounds_spec(
                    rec.t,
                ),
                None => true,
            }
    }

    /// The state before any test.
    pub fn begin(ray_t: Interval) -> (r: Scan)
        ensures
            r == Scan::start(ray_t),
    {
        Scan { closest_so_far: ray_t.max, record: None }
    }

    /// The range the next object is tested on.
    pub fn range(&self, ray_t: Interval) -> (r: Interval)
        ensures
            r == self.range_spec(ray_t),
    {
        Interval::new(ray_t.min, self.closest_so_far)
    }

    /// The state after a test that reported `found`.
    pub fn keep(self, found: Option<HitRecord>) -> (r: Scan)
        ensures
            r == self.keep_spec(found),
    {
        match found {
            Some(rec) => Scan { closest_so_far: rec.t, record: Some(rec) },
            None => self,
        }
    }
}

/// A collection of hittable objects, itself hittable: it reports the nearest
/// hit among its members.
pub struct HittableList {
    pub objects: Vec<Box<dyn Hittable>>,
}

impl HittableList {
    /// Whether `reports` can be what the members return, one after another,
    /// when each is tested on the range left by the reports before it.
    pub open spec fn consistent(
        self,
        ray: Ray,
        ray_t: Interval,
        reports: Seq<Option<HitRecord>>,
    ) -> bool {
        &&& reports.len() == self.objects@.len()
        &&& Scan::each_within(ray_t, reports)
        &&& forall|i: int|
            0 <= i < reports.len() ==> #[trigger] may_report::<dyn Hittable>(
                &*self.objects@[i],
                ray,
                Scan::after(ray_t, reports, i as nat).range_spec(ray_t),
                reports[i],
            )
    }

    /// The empty list.
    pub fn new() -> (r: HittableList)
        ensures
            r.objects@.len() == 0,
    {
        HittableList { objects: Vec::new() }
    }

    /// Appends an object.
    pub fn add(&mut self, object: Box<dyn Hittable>)
        ensures
            final(self).objects@ == old(self).objects@.push(object),
    {
        self.objects.push(object);
    }

    /// Removes every object.
    pub fn clear(&mut self)
        ensures
            final(self).objects@.len() == 0,
    {
        self.objects.clear();
    }
}

impl Hittable for HittableList {
    /// The hit left by a scan over all members, each tested on a range that
    /// ends at the nearest hit found before it.
    fn hit(&self, ray: &Ray, ray_t: Interval) -> (r: Option<HitRecord>)
        ensures
            exists|reports: Seq<Option<HitRecord>>|
                self.consistent(*ray, ray_t, reports) && r == (#[trigger] Scan::after(
                    ray_t,
                    reports,
                    reports.len(),
                )).record,
    {
        let mut scan = Scan::begin(ray_t);
        let ghost mut reports: Seq<Option<HitRecord>> = Seq::empty();
        let n = self.objects.len();
        let mut i: usize = 0;
        while i < n
            invariant
                n == self.objects@.len(),
                i <= n,
                reports.len() == i,
                scan == Scan::after(ray_t, reports, i as nat),
                Scan::each_within(ray_t, reports),
                forall|k: int|
                    0 <= k < i ==> #[trigger] may_report::<dyn Hittable>(
                        &*self.objects@[k],
                        *ray,
                        Scan::after(ray_t, reports, k as nat).range_spec(ray_t),
                        reports[k],
                    ),
            decreases n - i,
        {
            let found = hit_of::<dyn Hittable>(&*self.objects[i], ray, scan.range(ray_t));
            proof {
                let longer = reports.push(found);
                assert forall|k: nat| k <= i implies Scan::after(ray_t, longer, k) == Scan::after(
                    ray_t,
                    reports,
                    k,
                ) by {
                    lemma_after_ignores_the_rest(ray_t, reports, longer, k);
                }
                assert forall|k: int| 0 <= k < i + 1 implies #[trigger] may_report::<dyn Hittable>(
                    &*self.objects@[k],
                    *ray,
                    Scan::after(ray_t, longer, k as nat).range_spec(ray_t),
                    longer[k],
                ) by {
                    assert(Scan::after(ray_t, longer, k as nat) == Scan::after(
                        ray_t,
                        reports,
                        k as nat,
                    ));
                    if k < i {
                        assert(may_report::<dyn Hittable>(
                            &*self.objects@[k],
                            *ray,
                            Scan::after(ray_t, reports, k as nat).range_spec(ray_t),
                            reports[k],
                        ));
                    }
                }
                assert forall|k: int| 0 <= k < longer.len() implies match #[trigger] longer[k] {
                    Some(rec) => Scan::after(ray_t, longer, k as nat).range_spec(
                        ray_t,
                    ).surrounds_spec(rec.t),
                    None => true,
                } by {
                    assert(Scan::after(ray_t, longer, k as nat) == Scan::after(
                        ray_t,
                        reports,
                        k as nat,
                    ));
                    if k < i {
                        assert(longer[k] == reports[k]);
                    }
                }
                reports = longer;
            }
            scan = scan.keep(found);
            i += 1;
        }
        proof {
            lemma_kept_hit_is_within(ray_t, reports, reports.len());
        }
        scan.record
    }
}

/// The state after `n` reports depends on the first `n` reports alone.
pub proof fn lemma_after_ignores_the_rest(
    ray_t: Interval,
    a: Seq<Option<HitRecord>>,
    b: Seq<Option<HitRecord>>,
    n: nat,
)
    requires
        n <= a.len(),
        n <= b.len(),
        forall|i: int| 0 <= i < n ==> a[i] == b[i],
    ensures
        Scan::after(ray_t, a, n) == Scan::after(ray_t, b, n),
    decreases n,
{
    if n > 0 {
        lemma_after_ignores_the_rest(ray_t, a, b, (n - 1) as nat);
    }
}

/// The bound is the parameter of the kept hit, and the end of the range
/// while no hit is kept.
pub proof fn lemma_bound_is_kept_hit(ray_t: Interval, reports: Seq<Option<HitRecord>>, n: nat)
    ensures
        match Scan::after(ray_t, reports, n).record {
            Some(rec) => Scan::after(ray_t, reports, n).closest_so_far == rec.t,
            None => Scan::after(ray_t, reports, n).closest_so_far == ray_t.max,
        },
    decreases n,
{
    if n > 0 {
        lemma_bound_is_kept_hit(ray_t, reports, (n - 1) as nat);
    }
}

/// No hit is kept exactly as long as every report so far is a miss.
pub proof fn lemma_none_kept_iff_all_miss(
    ray_t: Interval,
    reports: Seq<Option<HitRecord>>,
    n: nat,
)
    requires
        n <= reports.len(),
    ensures
        Scan::after(ray_t, reports, n).record is None <==> forall|i: int|
            0 <= i < n ==> (#[trigger] reports[i]) is None,
    decreases n,
{
    if n > 0 {
        lemma_none_kept_iff_all_miss(ray_t, reports, (n - 1) as nat);
    }
}

/// The bound never grows: after more reports it is what it was or strictly
/// below it.
pub proof fn lemma_bound_shrinks(
    ray_t: Interval,
    reports: Seq<Option<HitRecord>>,
    m: nat,
    n: nat,
)
    requires
        Scan::each_within(ray_t, reports),
        m <= n <= reports.len(),
    ensures
        Scan::after(ray_t, reports, n).closest_so_far == Scan::after(
            ray_t,
            reports,
            m,
        ).closest_so_far || Scan::after(ray_t, reports, n).closest_so_far.lt_spec(
            Scan::after(ray_t, reports, m).closest_so_far,
        ),
    decreases n,
{
    if m < n {
        let k = (n - 1) as nat;
        lemma_bound_shrinks(ray_t, reports, m, k);
        assert(match reports[k as int] {
            Some(rec) => Scan::after(ray_t, reports, k).range_spec(ray_t).surrounds_spec(rec.t),
            None => true,
        });
    }
}

/// A kept hit lies strictly inside the whole range.
pub proof fn lemma_kept_hit_is_within(ray_t: Interval, reports: Seq<Option<HitRecord>>, n: nat)
    requires
        Scan::each_within(ray_t, reports),
        n <= reports.len(),
    ensures
        Scan::after(ray_t, reports, n).record matches Some(rec) ==> ray_t.surrounds_spec(rec.t),
{
    if let Some(rec) = Scan::after(ray_t, reports, n).record {
        lemma_kept_hit_came_from_a_report(ray_t, reports, n);
        let i = choose|i: int|
            0 <= i < n && #[trigger] reports[i] == Some(rec) && Scan::after(
                ray_t,
                reports,
                i as nat,
            ).range_spec(ray_t).surrounds_spec(rec.t);
        lemma_bound_shrinks(ray_t, reports, 0, i as nat);
    }
}

/// A kept hit is one of the reports, and lies strictly inside the range that
/// report was made on.
pub proof fn lemma_kept_hit_came_from_a_report(
    ray_t: Interval,
    reports: Seq<Option<HitRecord>>,
    n: nat,
)
    requires
        Scan::each_within(ray_t, reports),
        n <= reports.len(),
    ensures
        Scan::after(ray_t, reports, n).record matches Some(rec) ==> exists|i: int|
            0 <= i < n && #[trigger] reports[i] == Some(rec) && Scan::after(
                ray_t,
                reports,
                i as nat,
            ).range_spec(ray_t).surrounds_spec(rec.t),
    decreases n,
{
    if n > 0 {
        let k = (n - 1) as nat;
        match reports[k as int] {
            Some(rec) => {
                assert(reports[k as int] == Some(rec));
            },
            None => {
                lemma_kept_hit_came_from_a_report(ray_t, reports, k);
            },
        }
    }
}

/// The nearest hit wins: the hit kept at the end is no farther along the ray
/// than any hit reported on the way.
pub proof fn lemma_kept_hit_is_nearest(ray_t: Interval, reports: Seq<Option<HitRecord>>, i: int)
    requires
        Scan::each_within(ray_t, reports),
        0 <= i < reports.len(),
    ensures
        reports[i] matches Some(found) ==> (Scan::after(
            ray_t,
            reports,
            reports.len(),
        ).record matches Some(rec) && (rec.t == found.t || rec.t.lt_spec(found.t))),
{
    if let Some(found) = reports[i] {
        let n = reports.len();
        let turn = (i + 1) as nat;
        assert(Scan::after(ray_t, reports, turn).closest_so_far == found.t);
        lemma_bound_shrinks(ray_t, reports, turn, n);
        lemma_bound_is_kept_hit(ray_t, reports, n);
        lemma_none_kept_iff_all_miss(ray_t, reports, n);
    }
}

/// A list reports no hit only if each of its members reported none on the
/// whole range.
pub proof fn lemma_list_miss_is_every_members(
    list: HittableList,
    ray: Ray,
    ray_t: Interval,
    reports: Seq<Option<HitRecord>>,
)
    requires
        list.consistent(ray, ray_t, reports),
        Scan::after(ray_t, reports, reports.len()).record is None,
    ensures
        forall|i: int|
            0 <= i < list.objects@.len() ==> #[trigger] may_report::<dyn Hittable>(
                &*list.objects@[i],
                ray,
                ray_t,
                None,
            ),
{
    let n = reports.len();
    lemma_none_kept_iff_all_miss(ray_t, reports, n);
    assert forall|i: int| 0 <= i < list.objects@.len() implies #[trigger] may_report::<
        dyn Hittable,
    >(&*list.objects@[i], ray, ray_t, None) by {
        lemma_none_kept_iff_all_miss(ray_t, reports, i as nat);
        lemma_bound_is_kept_hit(ray_t, reports, i as nat);
        assert(reports[i] is None);
        assert(Scan::after(ray_t, reports, i as nat).range_spec(ray_t) == ray_t);
        assert(may_report::<dyn Hittable>(
            &*list.objects@[i],
            ray,
            Scan::after(ray_t, reports, i as nat).range_spec(ray_t),
            reports[i],
        ));
    }
}

} // verus!
