//! The scene as a flat list of objects, and the closest-hit query over it.
//!
//! Distances along a ray reach this module as integer keys that keep their
//! order; an object without a candidate distance yields `None`.

use vstd::prelude::*;

verus! {

/// Whether a candidate distance lies strictly between the two bounds.
pub open spec fn accepted(candidate: Option<i64>, t_min: i64, t_max: i64) -> bool {
    candidate matches Some(t) && t_min < t < t_max
}

/// Whether `found` is the closest accepted candidate of `keys`: the place
/// and the distance of the smallest one strictly between the bounds, the
/// first of them where several are equal, or `None` where none is accepted.
pub open spec fn is_nearest(
    keys: Seq<Option<i64>>,
    t_min: i64,
    t_max: i64,
    found: Option<(usize, i64)>,
) -> bool {
    match found {
        Some((k, t)) => {
            &&& k < keys.len()
            &&& keys[k as int] == Some(t)
            &&& t_min < t < t_max
            &&& forall|i: int|
                0 <= i < keys.len() && accepted(#[trigger] keys[i], t_min, t_max) ==> t
                    <= keys[i].unwrap()
            &&& forall|i: int|
                0 <= i < k && accepted(#[trigger] keys[i], t_min, t_max) ==> t < keys[i].unwrap()
        },
        None => forall|i: int| 0 <= i < keys.len() ==> !accepted(#[trigger] keys[i], t_min, t_max),
    }
}

/// The closest hit after one more object: the new candidate takes over
/// where it lies above `t_min` and below both `t_max` and the closest so far.
pub open spec fn spec_closer(
    best: Option<(usize, i64)>,
    place: usize,
    candidate: Option<i64>,
    t_min: i64,
    t_max: i64,
) -> Option<(usize, i64)> {
    let limit = match best {
        Some((_, t)) => t,
        None => t_max,
    };
    match candidate {
        Some(t) => if t_min < t < limit {
            Some((place, t))
        } else {
            best
        },
        None => best,
    }
}

/// The closest hit after one more object: `candidate`, found at `place`,
/// takes over where it lies above `t_min` and below both `t_max` and the
/// closest so far.
#[verifier::when_used_as_spec(spec_closer)]
pub fn closer(
    best: Option<(usize, i64)>,
    place: usize,
    candidate: Option<i64>,
    t_min: i64,
    t_max: i64,
) -> (next: Option<(usize, i64)>)
    ensures
        next == spec_closer(best, place, candidate, t_min, t_max),
{
    let limit: i64 = match best {
        Some((_, t)) => t,
        None => t_max,
    };
    match candidate {
        Some(t) => if t < limit && t > t_min {
            Some((place, t))
        } else {
            best
        },
        None => best,
    }
}

/// Scanning one object further keeps the closest hit: if `best` is the
/// closest of `keys`, `closer` gives the closest of `keys` with `candidate`
/// behind them.
pub proof fn lemma_closer(
    keys: Seq<Option<i64>>,
    t_min: i64,
    t_max: i64,
    best: Option<(usize, i64)>,
    candidate: Option<i64>,
)
    requires
        keys.len() < usize::MAX,
        is_nearest(keys, t_min, t_max, best),
    ensures
        is_nearest(
            keys.push(candidate),
            t_min,
            t_max,
            closer(best, keys.len() as usize, candidate, t_min, t_max),
        ),
{
    let longer = keys.push(candidate);
    let next = closer(best, keys.len() as usize, candidate, t_min, t_max);
    assert forall|i: int| 0 <= i < keys.len() implies #[trigger] longer[i] == keys[i] by {}
    assert(longer[keys.len() as int] == candidate);
    match next {
        Some((k, t)) => {
            assert forall|i: int|
                0 <= i < longer.len() && accepted(#[trigger] longer[i], t_min, t_max) implies t
                <= longer[i].unwrap() by {
                if i < keys.len() {
                    assert(accepted(keys[i], t_min, t_max));
                }
            }
            assert forall|i: int|
                0 <= i < k && accepted(#[trigger] longer[i], t_min, t_max) implies t
                < longer[i].unwrap() by {
                if i < keys.len() {
                    assert(accepted(keys[i], t_min, t_max));
                }
            }
        },
        None => {
            assert forall|i: int| 0 <= i < longer.len() implies !accepted(
                #[trigger] longer[i],
                t_min,
                t_max,
            ) by {
                if i < keys.len() {
                    assert(!accepted(keys[i], t_min, t_max));
                }
            }
        },
    }
}

/// The closest of the candidate distances strictly between `t_min` and
/// `t_max`, with its place in `keys`.
pub fn nearest(keys: &Vec<Option<i64>>, t_min: i64, t_max: i64) -> (found: Option<(usize, i64)>)
    ensures
        is_nearest(keys@, t_min, t_max, found),
{
    let mut best: Option<(usize, i64)> = None;
    let mut k: usize = 0;
    while k < keys.len()
        invariant
            k <= keys.len(),
            is_nearest(keys@.take(k as int), t_min, t_max, best),
        decreases keys.len() - k,
    {
        proof {
            lemma_closer(keys@.take(k as int), t_min, t_max, best, keys@[k as int]);
            assert(keys@.take(k as int).push(keys@[k as int]) =~= keys@.take(k + 1));
        }
        best = closer(best, k, keys[k], t_min, t_max);
        k = k + 1;
    }
    assert(keys@.take(k as int) =~= keys@);
    best
}

/// An ordered collection of objects; the order decides only which of two
/// equally distant objects is hit.
pub struct HitableList<O> {
    pub objects: Vec<O>,
}

impl<O> HitableList<O> {
    /// The empty scene.
    pub fn new() -> (list: HitableList<O>)
        ensures
            list.objects@ == Seq::<O>::empty(),
    {
        HitableList { objects: Vec::new() }
    }

    /// Puts `obj` behind the objects already in the scene.
    pub fn add(&mut self, obj: O)
        ensures
            final(self).objects@ == old(self).objects@.push(obj),
    {
        self.objects.push(obj);
    }

    /// Whether `keys` are candidate distances that `probe` may return for
    /// the objects of the scene, one for each, in their order.
    pub open spec fn probed<F: Fn(&O) -> Option<i64>>(
        &self,
        probe: F,
        keys: Seq<Option<i64>>,
    ) -> bool {
        &&& keys.len() == self.objects@.len()
        &&& forall|i: int|
            0 <= i < keys.len() ==> call_ensures(probe, (&self.objects@[i],), #[trigger] keys[i])
    }

    /// The closest hit of the scene: every object is probed once, in order,
    /// for its candidate distance, and the closest candidate strictly
    /// between `t_min` and `t_max` is returned with the place of its object.
    pub fn hit<F: Fn(&O) -> Option<i64>>(&self, t_min: i64, t_max: i64, probe: &F) -> (found:
        Option<(usize, i64)>)
        requires
            forall|i: int|
                0 <= i < self.objects@.len() ==> call_requires(*probe, (&self.objects@[i],)),
        ensures
            exists|keys: Seq<Option<i64>>|
                self.probed(*probe, keys) && is_nearest(keys, t_min, t_max, found),
    {
        let ghost mut keys: Seq<Option<i64>> = Seq::empty();
        let mut best: Option<(usize, i64)> = None;
        let mut k: usize = 0;
        while k < self.objects.len()
            invariant
                k <= self.objects@.len(),
                keys.len() == k,
                forall|i: int|
                    0 <= i < self.objects@.len() ==> call_requires(*probe, (&self.objects@[i],)),
                forall|i: int|
                    0 <= i < k ==> call_ensures(
                        *probe,
                        (&self.objects@[i],),
                        #[trigger] keys[i],
                    ),
                is_nearest(keys, t_min, t_max, best),
            decreases self.objects.len() - k,
        {
            let candidate: Option<i64> = probe(&self.objects[k]);
            proof {
                lemma_closer(keys, t_min, t_max, best, candidate);
                keys = keys.push(candidate);
            }
            best = closer(best, k, candidate, t_min, t_max);
            k = k + 1;
        }
        assert(self.probed(*probe, keys));
        best
    }
}

} // verus!
