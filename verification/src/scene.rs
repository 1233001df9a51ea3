//! The scene: an ordered, immutable collection of colliders, and the
//! resolver that picks the nearest intersection of a ray with any of them.
//!
//! Ties in distance are broken by object order: the first object reaching the
//! minimum wins.

use crate::geom::{
    collide_spec, collider_wf, collision_wf, opt_collision_view, ray_wf, Collider, ColliderM,
    CollisionData, CollisionM,
};
use crate::vector::{Vector3, V3};
use vstd::prelude::*;

verus! {

/// An ordered collection of colliders, immutable for the whole render.
pub struct Scene {
    pub objects: Vec<Collider>,
}

impl View for Scene {
    type V = Seq<ColliderM>;

    open spec fn view(&self) -> Seq<ColliderM> {
        self.objects@.map_values(|c: Collider| c@)
    }
}

/// Every object of the scene is well-formed.
pub open spec fn scene_wf(objs: Seq<ColliderM>) -> bool {
    forall|i: int| 0 <= i < objs.len() ==> collider_wf(#[trigger] objs[i])
}

/// The nearest hit of the ray among the first objects of the scene, together
/// with the index of the object hit. Later objects replace the running best
/// only with a strictly smaller distance, so the first object attaining the
/// minimum wins.
pub open spec fn nearest_hit_spec(objs: Seq<ColliderM>, origin: V3, dir: V3) -> Option<
    (int, CollisionM),
>
    decreases objs.len(),
{
    if objs.len() == 0 {
        None
    } else {
        let prev = nearest_hit_spec(objs.drop_last(), origin, dir);
        let cur = collide_spec(objs.last(), origin, dir);
        let k = objs.len() - 1;
        match (prev, cur) {
            (None, None) => None,
            (None, Some(h)) => Some((k as int, h)),
            (Some(b), None) => Some(b),
            (Some(b), Some(h)) => if h.distance < b.1.distance {
                Some((k as int, h))
            } else {
                Some(b)
            },
        }
    }
}

/// The view of an optional indexed collision.
pub open spec fn opt_hit_pair_view(r: Option<(usize, CollisionData)>) -> Option<
    (int, CollisionM),
> {
    match r {
        Some((i, h)) => Some((i as int, h@)),
        None => None,
    }
}

/// What the nearest hit means: `None` exactly when no object intersects the
/// ray; otherwise the winning object really produces that hit, every other
/// hit is at least as far, and hits of earlier objects are strictly farther.
pub proof fn lemma_nearest_hit_props(objs: Seq<ColliderM>, origin: V3, dir: V3)
    ensures
        match nearest_hit_spec(objs, origin, dir) {
            None => forall|j: int|
                0 <= j < objs.len() ==> (#[trigger] collide_spec(objs[j], origin, dir)) is None,
            Some(ih) => {
                &&& 0 <= ih.0 < objs.len()
                &&& collide_spec(objs[ih.0], origin, dir) == Some(ih.1)
                &&& forall|j: int|
                    0 <= j < objs.len() ==> match #[trigger] collide_spec(objs[j], origin, dir) {
                        Some(hj) => ih.1.distance <= hj.distance && (j < ih.0
                            ==> ih.1.distance < hj.distance),
                        None => true,
                    }
            },
        },
    decreases objs.len(),
{
    if objs.len() > 0 {
        lemma_nearest_hit_props(objs.drop_last(), origin, dir);
        assert(forall|j: int|
            0 <= j < objs.len() - 1 ==> objs.drop_last()[j] == #[trigger] objs[j]);
    }
}

impl Scene {
    /// Builds a scene from its objects.
    pub fn new(objects: Vec<Collider>) -> (s: Scene)
        ensures
            s@ == objects@.map_values(|c: Collider| c@),
    {
        Scene { objects }
    }

    /// The number of objects.
    pub fn len(&self) -> (n: usize)
        ensures
            n == self@.len(),
    {
        self.objects.len()
    }

    /// Resolves the nearest intersection of the ray with any object, if one
    /// exists, together with the index of the object hit.
    pub fn nearest_hit(&self, origin: Vector3, dir: Vector3) -> (r: Option<
        (usize, CollisionData),
    >)
        requires
            scene_wf(self@),
            ray_wf(origin@, dir@),
        ensures
            opt_hit_pair_view(r) == nearest_hit_spec(self@, origin@, dir@),
            r matches Some((i, h)) ==> i < self@.len() && collision_wf(h@),
    {
        let mut best: Option<(usize, CollisionData)> = None;
        let mut i: usize = 0;
        proof {
            assert(self@.take(0) =~= Seq::<ColliderM>::empty());
        }
        while i < self.objects.len()
            invariant
                scene_wf(self@),
                ray_wf(origin@, dir@),
                self@.len() == self.objects@.len(),
                i <= self.objects.len(),
                opt_hit_pair_view(best) == nearest_hit_spec(self@.take(i as int), origin@, dir@),
                best matches Some((bi, bh)) ==> bi < i && collision_wf(bh@),
            decreases self.objects.len() - i,
        {
            let res = self.objects[i].collide(origin, dir);
            proof {
                assert(self@[i as int] == self.objects@[i as int]@);
            }
            let next: Option<(usize, CollisionData)> = match (best, res) {
                (None, None) => None,
                (None, Some(h)) => Some((i, h)),
                (Some(b), None) => Some(b),
                (Some(b), Some(h)) => if h.distance < b.1.distance {
                    Some((i, h))
                } else {
                    Some(b)
                },
            };
            proof {
                let pre = self@.take(i as int + 1);
                assert(pre.drop_last() =~= self@.take(i as int));
                assert(pre.last() == self@[i as int]);
                assert(opt_collision_view(res) == collide_spec(self@[i as int], origin@, dir@));
            }
            best = next;
            i = i + 1;
        }
        proof {
            assert(self@.take(i as int) =~= self@);
        }
        best
    }
}

} // verus!
