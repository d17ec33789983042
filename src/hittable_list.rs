//! A scene: a bounded, insertion-ordered list of primitives, and the scan that
//! finds the nearest hit among them.
//!
//! The list is generic over the primitive type and over what a hit test reports,
//! so the scan is stated once for every kind of primitive and every distance type.
use vstd::prelude::*;

verus! {

pub struct HittableList<T, const CAPACITY: usize> {
    objects: Vec<T>,
}

/// The upper distance bound handed to the primitive at position `k` of a scan
/// that started from `t_max` and saw the outcomes `outs[0..k]`: the distance of
/// the latest accepted hit, or `t_max` while none was accepted.
pub open spec fn bound_before<D, R>(outs: Seq<Option<(D, R)>>, t_max: D, k: int) -> D
    decreases k,
{
    if k <= 0 {
        t_max
    } else {
        match outs[k - 1] {
            Some(h) => h.0,
            None => bound_before(outs, t_max, k - 1),
        }
    }
}

/// The record of the latest accepted hit among `outs[0..k]`, if any.
pub open spec fn last_hit<D, R>(outs: Seq<Option<(D, R)>>, k: int) -> Option<R>
    decreases k,
{
    if k <= 0 {
        None
    } else {
        match outs[k - 1] {
            Some(h) => Some(h.1),
            None => last_hit(outs, k - 1),
        }
    }
}

/// `outs` are outcomes that testing `objs` in order may give, where each
/// test receives the bound left by the tests before it.
pub open spec fn is_scan<T, D, R, F: Fn(&T, D) -> Option<(D, R)>>(
    objs: Seq<T>,
    t_max: D,
    hit_one: F,
    outs: Seq<Option<(D, R)>>,
) -> bool {
    &&& outs.len() == objs.len()
    &&& forall|k: int|
        0 <= k < outs.len() ==> #[trigger] hit_one.ensures(
            (&objs[k], bound_before(outs, t_max, k)),
            outs[k],
        )
}

/// The bound and the latest hit over a prefix do not depend on what follows it.
proof fn lemma_scan_prefix<D, R>(outs: Seq<Option<(D, R)>>, o: Option<(D, R)>, t_max: D, k: int)
    requires
        0 <= k <= outs.len(),
    ensures
        bound_before(outs.push(o), t_max, k) == bound_before(outs, t_max, k),
        last_hit(outs.push(o), k) == last_hit(outs, k),
    decreases k,
{
    if k > 0 {
        lemma_scan_prefix(outs, o, t_max, k - 1);
        assert(outs.push(o)[k - 1] == outs[k - 1]);
    }
}

/// Outcomes of a scan over primitives that are each hit at their own distance
/// `dists[k]`, where a test accepts exactly when that distance is within the
/// bound it receives, and reports the primitive's position as its record.
pub open spec fn is_distance_scan(dists: Seq<int>, t_max: int, outs: Seq<Option<(int, int)>>) -> bool {
    &&& outs.len() == dists.len()
    &&& forall|k: int|
        0 <= k < outs.len() ==> #[trigger] outs[k] == (if dists[k] <= bound_before(outs, t_max, k) {
            Some((dists[k], k))
        } else {
            None
        })
}

/// Nearest-hit law: in a distance scan over the first `n` primitives, the
/// bound never exceeds `t_max` nor any distance within `t_max`; a returned
/// primitive is one of least distance within `t_max`, so which distance is
/// found does not depend on the insertion order; and nothing is returned only
/// when no primitive lies within `t_max`.
pub proof fn lemma_scan_finds_nearest(dists: Seq<int>, t_max: int, outs: Seq<Option<(int, int)>>, n: int)
    requires
        is_distance_scan(dists, t_max, outs),
        0 <= n <= outs.len(),
    ensures
        bound_before(outs, t_max, n) <= t_max,
        forall|k: int| 0 <= k < n && dists[k] <= t_max ==> bound_before(outs, t_max, n) <= #[trigger] dists[k],
        match last_hit(outs, n) {
            Some(j) => 0 <= j < n && dists[j] == bound_before(outs, t_max, n) && dists[j] <= t_max,
            None => forall|k: int| 0 <= k < n ==> #[trigger] dists[k] > t_max,
        },
    decreases n,
{
    if n > 0 {
        lemma_scan_finds_nearest(dists, t_max, outs, n - 1);
        assert(outs[n - 1] == (if dists[n - 1] <= bound_before(outs, t_max, n - 1) {
            Some((dists[n - 1], n - 1))
        } else {
            None
        }));
        match last_hit(outs, n - 1) {
            Some(j) => {},
            None => {
                assert(bound_before(outs, t_max, n - 1) == t_max) by {
                    lemma_no_hit_keeps_bound(outs, t_max, n - 1);
                }
            },
        }
    }
}

/// While no hit has been accepted the bound is still `t_max`.
proof fn lemma_no_hit_keeps_bound<D, R>(outs: Seq<Option<(D, R)>>, t_max: D, n: int)
    requires
        0 <= n <= outs.len(),
        last_hit(outs, n) is None,
    ensures
        bound_before(outs, t_max, n) == t_max,
    decreases n,
{
    if n > 0 {
        lemma_no_hit_keeps_bound(outs, t_max, n - 1);
    }
}

impl<T, const CAPACITY: usize> HittableList<T, CAPACITY> {
    #[verifier::type_invariant]
    spec fn within_capacity(&self) -> bool {
        self.objects.len() <= CAPACITY
    }
}

impl<T, const CAPACITY: usize> View for HittableList<T, CAPACITY> {
    type V = Seq<T>;

    closed spec fn view(&self) -> Seq<T> {
        self.objects@
    }
}

impl<T, const CAPACITY: usize> HittableList<T, CAPACITY> {
    /// An empty scene.
    pub fn new() -> (r: Self)
        ensures
            r@ == Seq::<T>::empty(),
    {
        HittableList { objects: Vec::new() }
    }

    /// Removes every primitive.
    pub fn clear(&mut self)
        ensures
            final(self)@ == Seq::<T>::empty(),
    {
        self.objects = Vec::new();
    }

    /// Appends a primitive; the scene must have room for it.
    pub fn add(&mut self, hittable: T)
        requires
            old(self)@.len() < CAPACITY,
        ensures
            final(self)@ == old(self)@.push(hittable),
    {
        proof {
            use_type_invariant(&*self);
        }
        let mut objects = Vec::new();
        std::mem::swap(&mut objects, &mut self.objects);
        objects.push(hittable);
        self.objects = objects;
    }

    /// Number of primitives held, never more than the capacity.
    pub fn len(&self) -> (r: usize)
        ensures
            r == self@.len(),
            r <= CAPACITY,
    {
        proof {
            use_type_invariant(self);
        }
        self.objects.len()
    }

    /// The primitive at position `index`, in insertion order.
    pub fn get(&self, index: usize) -> (r: &T)
        requires
            index < self@.len(),
        ensures
            *r == self@[index as int],
    {
        &self.objects[index]
    }

    /// Tests every primitive in insertion order and returns the record of the
    /// nearest hit. `hit_one(obj, bound)` tests one primitive against an upper
    /// distance bound and reports an accepted hit as its distance and record;
    /// each accepted hit's distance becomes the bound for the primitives after
    /// it, so a later primitive replaces the result only when its test accepts
    /// under that tightened bound. With no accepted hit the result is `None`.
    pub fn hit<D: Copy, R, F: Fn(&T, D) -> Option<(D, R)>>(&self, t_max: D, hit_one: F) -> (r:
        Option<R>)
        requires
            forall|k: int, d: D| 0 <= k < self@.len() ==> #[trigger] hit_one.requires((&self@[k], d)),
        ensures
            exists|outs: Seq<Option<(D, R)>>|
                #[trigger] is_scan(self@, t_max, hit_one, outs) && r == last_hit(outs, outs.len() as int),
    {
        let ghost mut outs: Seq<Option<(D, R)>> = Seq::empty();
        let mut result: Option<R> = None;
        let mut closest_so_far = t_max;
        let mut index: usize = 0;
        while index < self.objects.len()
            invariant
                index <= self.objects.len(),
                outs.len() == index,
                forall|k: int, d: D| 0 <= k < self@.len() ==> #[trigger] hit_one.requires((&self@[k], d)),
                forall|k: int|
                    0 <= k < index ==> #[trigger] hit_one.ensures(
                        (&self@[k], bound_before(outs, t_max, k)),
                        outs[k],
                    ),
                closest_so_far == bound_before(outs, t_max, index as int),
                result == last_hit(outs, index as int),
            decreases self.objects.len() - index,
        {
            assert(hit_one.requires((&self@[index as int], closest_so_far)));
            let outcome = hit_one(&self.objects[index], closest_so_far);
            proof {
                assert(hit_one.ensures((&self@[index as int], closest_so_far), outcome));
                let prev = outs;
                let next = prev.push(outcome);
                assert forall|k: int| 0 <= k <= index implies #[trigger] hit_one.ensures(
                    (&self@[k], bound_before(next, t_max, k)),
                    next[k],
                ) by {
                    lemma_scan_prefix(prev, outcome, t_max, k);
                }
                lemma_scan_prefix(prev, outcome, t_max, index as int);
                outs = outs.push(outcome);
            }
            match outcome {
                Some(h) => {
                    closest_so_far = h.0;
                    result = Some(h.1);
                },
                None => {},
            }
            index += 1;
        }
        assert(is_scan(self@, t_max, hit_one, outs));
        result
    }
}

} // verus!
