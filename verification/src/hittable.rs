//! The composite scene: an ordered list of spheres, intersected by taking
//! the nearest accepted hit over all children.

use vstd::prelude::*;

use crate::ray::{ray_wf, Ray, RayV};
use crate::sphere::{
    lemma_sphere_hit_narrow, lemma_sphere_hit_t_range, opt_hit_view, sphere_a, sphere_hit_spec,
    sphere_wf, t_limit, HitRecord, HitV, Hittable, Sphere, SphereV,
};

verus! {

/// Nearest-hit resolution over an ordered list of spheres: every child is
/// tested with `t_max` narrowed to the closest hit found so far, so the
/// final record is the nearest qualifying one; on a tie the earlier child
/// wins.
pub open spec fn scene_hit_spec(objs: Seq<SphereV>, r: RayV, t_min: int, t_max: int) -> Option<
    HitV,
>
    decreases objs.len(),
{
    if objs.len() == 0 {
        None
    } else {
        let prev: Option<HitV> = scene_hit_spec(objs.drop_last(), r, t_min, t_max);
        let closest_so_far: int = match prev {
            Some(h) => h.t,
            None => t_max,
        };
        match sphere_hit_spec(objs.last(), r, t_min, closest_so_far) {
            Some(h) => Some(h),
            None => prev,
        }
    }
}

/// A scene hit's parameter always lies strictly inside the window.
pub proof fn lemma_scene_hit_t_range(objs: Seq<SphereV>, r: RayV, t_min: int, t_max: int)
    ensures
        match scene_hit_spec(objs, r, t_min, t_max) {
            Some(h) => t_min < h.t && h.t < t_max,
            None => true,
        },
    decreases objs.len(),
{
    if objs.len() > 0 {
        lemma_scene_hit_t_range(objs.drop_last(), r, t_min, t_max);
        let prev: Option<HitV> = scene_hit_spec(objs.drop_last(), r, t_min, t_max);
        let closest_so_far: int = match prev {
            Some(h) => h.t,
            None => t_max,
        };
        crate::sphere::lemma_sphere_hit_t_range(objs.last(), r, t_min, closest_so_far);
    }
}


/// Minimality: no child's accepted hit is closer than the scene's result.
/// Whenever some child hits inside the window, the scene reports a hit, and
/// at a parameter no larger than that child's.
pub proof fn lemma_scene_hit_is_nearest(objs: Seq<SphereV>, r: RayV, t_min: int, t_max: int, i: int)
    requires
        1 <= sphere_a(r),
        0 <= i < objs.len(),
        sphere_hit_spec(objs[i], r, t_min, t_max) is Some,
    ensures
        scene_hit_spec(objs, r, t_min, t_max) is Some,
        scene_hit_spec(objs, r, t_min, t_max)->Some_0.t <= sphere_hit_spec(
            objs[i],
            r,
            t_min,
            t_max,
        )->Some_0.t,
    decreases objs.len(),
{
    let prev: Option<HitV> = scene_hit_spec(objs.drop_last(), r, t_min, t_max);
    let closest_so_far: int = match prev {
        Some(h) => h.t,
        None => t_max,
    };
    lemma_scene_hit_t_range(objs.drop_last(), r, t_min, t_max);
    lemma_sphere_hit_t_range(objs[i], r, t_min, t_max);
    if i < objs.len() - 1 {
        assert(objs.drop_last()[i] == objs[i]);
        lemma_scene_hit_is_nearest(objs.drop_last(), r, t_min, t_max, i);
        lemma_sphere_hit_narrow(objs.last(), r, t_min, closest_so_far, t_max);
        lemma_sphere_hit_t_range(objs.last(), r, t_min, closest_so_far);
    } else {
        assert(objs.last() == objs[i]);
        lemma_sphere_hit_narrow(objs.last(), r, t_min, closest_so_far, t_max);
    }
}

/// Soundness: the scene's result is always some child's own hit over the
/// full window, never an invented record.
pub proof fn lemma_scene_hit_comes_from_child(objs: Seq<SphereV>, r: RayV, t_min: int, t_max: int)
    requires
        1 <= sphere_a(r),
        scene_hit_spec(objs, r, t_min, t_max) is Some,
    ensures
        exists|i: int|
            0 <= i < objs.len() && sphere_hit_spec(#[trigger] objs[i], r, t_min, t_max)
                == scene_hit_spec(objs, r, t_min, t_max),
    decreases objs.len(),
{
    let full: Option<HitV> = scene_hit_spec(objs, r, t_min, t_max);
    let prev: Option<HitV> = scene_hit_spec(objs.drop_last(), r, t_min, t_max);
    let closest_so_far: int = match prev {
        Some(h) => h.t,
        None => t_max,
    };
    lemma_scene_hit_t_range(objs.drop_last(), r, t_min, t_max);
    lemma_sphere_hit_narrow(objs.last(), r, t_min, closest_so_far, t_max);
    if sphere_hit_spec(objs.last(), r, t_min, closest_so_far) is Some {
        assert(sphere_hit_spec(objs[objs.len() - 1], r, t_min, t_max) == full);
    } else {
        lemma_scene_hit_comes_from_child(objs.drop_last(), r, t_min, t_max);
        let j: int = choose|j: int|
            0 <= j < objs.drop_last().len() && sphere_hit_spec(
                #[trigger] objs.drop_last()[j],
                r,
                t_min,
                t_max,
            ) == prev;
        assert(objs.drop_last()[j] == objs[j]);
        assert(sphere_hit_spec(objs[j], r, t_min, t_max) == full);
    }
}

/// Nearest-hit resolution is order-independent: for two spheres along the
/// same ray whose hits are at different distances, the scene returns the
/// closer sphere's record whichever way the children are ordered.
pub proof fn lemma_two_spheres_nearest_any_order(
    s1: SphereV,
    s2: SphereV,
    r: RayV,
    t_min: int,
    t_max: int,
)
    requires
        1 <= sphere_a(r),
        match (sphere_hit_spec(s1, r, t_min, t_max), sphere_hit_spec(s2, r, t_min, t_max)) {
            (Some(h1), Some(h2)) => h1.t < h2.t,
            _ => false,
        },
    ensures
        scene_hit_spec(seq![s1, s2], r, t_min, t_max) == sphere_hit_spec(s1, r, t_min, t_max),
        scene_hit_spec(seq![s2, s1], r, t_min, t_max) == sphere_hit_spec(s1, r, t_min, t_max),
{
    reveal_with_fuel(scene_hit_spec, 3);
    let w1: Option<HitV> = sphere_hit_spec(s1, r, t_min, t_max);
    let w2: Option<HitV> = sphere_hit_spec(s2, r, t_min, t_max);
    let h1: HitV = w1->Some_0;
    let h2: HitV = w2->Some_0;
    lemma_sphere_hit_t_range(s1, r, t_min, t_max);
    lemma_sphere_hit_t_range(s2, r, t_min, t_max);

    let forward: Seq<SphereV> = seq![s1, s2];
    assert(forward.drop_last() =~= seq![s1]);
    assert(forward.last() == s2);
    assert(seq![s1].drop_last() =~= Seq::<SphereV>::empty());
    assert(seq![s1].last() == s1);
    assert(scene_hit_spec(seq![s1], r, t_min, t_max) == w1);
    lemma_sphere_hit_narrow(s2, r, t_min, h1.t, t_max);
    assert(scene_hit_spec(forward, r, t_min, t_max) == w1);

    let backward: Seq<SphereV> = seq![s2, s1];
    assert(backward.drop_last() =~= seq![s2]);
    assert(backward.last() == s1);
    assert(seq![s2].drop_last() =~= Seq::<SphereV>::empty());
    assert(seq![s2].last() == s2);
    assert(scene_hit_spec(seq![s2], r, t_min, t_max) == w2);
    lemma_sphere_hit_narrow(s1, r, t_min, h2.t, t_max);
    assert(scene_hit_spec(backward, r, t_min, t_max) == w1);
}

/// Composite surface: an ordered collection of spheres.
pub struct HittableList {
    pub objects: Vec<Sphere>,
}

impl View for HittableList {
    type V = Seq<SphereV>;

    open spec fn view(&self) -> Seq<SphereV> {
        self.objects@.map_values(|s: Sphere| s@)
    }
}

impl HittableList {
    /// An empty scene.
    pub fn new() -> (r: HittableList)
        ensures
            r@ =~= Seq::<SphereV>::empty(),
    {
        HittableList { objects: Vec::new() }
    }

    /// Appends a sphere to the scene.
    pub fn add(&mut self, s: Sphere)
        ensures
            final(self)@ =~= old(self)@.push(s@),
    {
        self.objects.push(s);
    }
}

impl Hittable for HittableList {
    open spec fn wf(&self) -> bool {
        forall|i: int| 0 <= i < self@.len() ==> sphere_wf(#[trigger] self@[i])
    }

    open spec fn spec_hit(&self, r: RayV, t_min: int, t_max: int) -> Option<HitV> {
        scene_hit_spec(self@, r, t_min, t_max)
    }

    fn hit(&self, ray: &Ray, t_min: i64, t_max: i64) -> (res: Option<HitRecord>) {
        let mut closest: Option<HitRecord> = None;
        let mut i: usize = 0;
        assert(self@.subrange(0, 0) =~= Seq::<SphereV>::empty());
        while i < self.objects.len()
            invariant
                i <= self.objects.len(),
                self@.len() == self.objects@.len(),
                forall|k: int| 0 <= k < self@.len() ==> sphere_wf(#[trigger] self@[k]),
                forall|k: int|
                    0 <= k < self.objects@.len() ==> #[trigger] self.objects@[k]@ == self@[k],
                ray_wf(ray@),
                0 <= t_min,
                t_min <= t_max,
                t_max <= t_limit(),
                opt_hit_view(closest) == scene_hit_spec(
                    self@.subrange(0, i as int),
                    ray@,
                    t_min as int,
                    t_max as int,
                ),
            decreases self.objects.len() - i,
        {
            proof {
                lemma_scene_hit_t_range(
                    self@.subrange(0, i as int),
                    ray@,
                    t_min as int,
                    t_max as int,
                );
            }
            let closest_so_far: i64 = match &closest {
                Some(h) => h.t,
                None => t_max,
            };
            let candidate: Option<HitRecord> = self.objects[i].hit(ray, t_min, closest_so_far);
            proof {
                assert(self@.subrange(0, i + 1).drop_last() =~= self@.subrange(0, i as int));
                assert(self@.subrange(0, i + 1).last() == self@[i as int]);
            }
            if let Some(h) = candidate {
                closest = Some(h);
            }
            i = i + 1;
        }
        assert(self@.subrange(0, self.objects@.len() as int) =~= self@);
        closest
    }
}

} // verus!
