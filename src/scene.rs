//! The scene's aggregate hit rule: of the per-object hits of one ray, the
//! closest valid one wins, and among equally close hits the first one.
//!
//! Hit distances are compared through an order-preserving integer key: for
//! non-negative IEEE-754 single-precision values (infinity included) the bit
//! pattern read as `u32` orders exactly as the value does, and every NaN
//! pattern lies above the key of positive infinity, so a window whose upper
//! end is at most that key never admits a NaN.
use vstd::prelude::*;

verus! {

/// Whether an object's hit (if any) lies in the window `(t_min, t_max]`.
pub open spec fn eligible(hit: Option<u32>, t_min: u32, t_max: u32) -> bool {
    match hit {
        Some(k) => t_min < k && k <= t_max,
        None => false,
    }
}

/// The distance key of a hit; meaningful only for `Some`.
pub open spec fn key_of(hit: Option<u32>) -> u32 {
    match hit {
        Some(k) => k,
        None => 0,
    }
}

/// Object `i` owns the aggregate hit: its hit is valid, no valid hit is
/// closer, and no earlier object has an equally close valid hit.
pub open spec fn is_closest(hits: Seq<Option<u32>>, t_min: u32, t_max: u32, i: int) -> bool {
    &&& 0 <= i < hits.len()
    &&& eligible(hits[i], t_min, t_max)
    &&& forall|j: int|
        0 <= j < hits.len() && eligible(#[trigger] hits[j], t_min, t_max) ==> key_of(hits[i])
            <= key_of(hits[j])
    &&& forall|j: int|
        0 <= j < i && eligible(#[trigger] hits[j], t_min, t_max) ==> key_of(hits[i]) < key_of(
            hits[j],
        )
}

/// The smallest valid key among `hits`, defined by scanning from the back.
pub open spec fn nearest(hits: Seq<Option<u32>>, t_min: u32, t_max: u32) -> Option<u32>
    decreases hits.len(),
{
    if hits.len() == 0 {
        None
    } else {
        let rest = nearest(hits.drop_last(), t_min, t_max);
        let h = hits.last();
        if !eligible(h, t_min, t_max) {
            rest
        } else {
            match rest {
                Some(k) => if key_of(h) < k {
                    h
                } else {
                    rest
                },
                None => h,
            }
        }
    }
}

/// Scans the per-object hits of one ray in scene order, starting from the
/// caller's `t_max` and keeping a new hit only when it is strictly closer.
/// Returns the index of the owning object, or `None` when no hit is valid.
pub fn closest_hit(hits: &Vec<Option<u32>>, t_min: u32, t_max: u32) -> (r: Option<usize>)
    ensures
        match r {
            Some(i) => is_closest(hits@, t_min, t_max, i as int),
            None => forall|j: int|
                0 <= j < hits@.len() ==> !eligible(#[trigger] hits@[j], t_min, t_max),
        },
{
    let mut best: Option<usize> = None;
    let mut closest_so_far: u32 = t_max;
    let mut i: usize = 0;
    while i < hits.len()
        invariant
            0 <= i <= hits@.len(),
            match best {
                Some(b) => {
                    &&& b < i
                    &&& eligible(hits@[b as int], t_min, t_max)
                    &&& closest_so_far == key_of(hits@[b as int])
                    &&& forall|j: int|
                        0 <= j < i && eligible(#[trigger] hits@[j], t_min, t_max)
                            ==> closest_so_far <= key_of(hits@[j])
                    &&& forall|j: int|
                        0 <= j < b && eligible(#[trigger] hits@[j], t_min, t_max)
                            ==> closest_so_far < key_of(hits@[j])
                },
                None => {
                    &&& closest_so_far == t_max
                    &&& forall|j: int| 0 <= j < i ==> !eligible(#[trigger] hits@[j], t_min, t_max)
                },
            },
        decreases hits@.len() - i,
    {
        if let Some(k) = hits[i] {
            let take = match best {
                Some(_) => t_min < k && k < closest_so_far,
                None => t_min < k && k <= closest_so_far,
            };
            if take {
                best = Some(i);
                closest_so_far = k;
            }
        }
        i = i + 1;
    }
    best
}

/// `nearest` is the minimum of the valid keys, and is `None` exactly when no
/// key is valid.
proof fn lemma_nearest_is_min(hits: Seq<Option<u32>>, t_min: u32, t_max: u32)
    ensures
        match nearest(hits, t_min, t_max) {
            Some(k) => {
                &&& exists|i: int|
                    0 <= i < hits.len() && eligible(#[trigger] hits[i], t_min, t_max) && key_of(
                        hits[i],
                    ) == k
                &&& forall|j: int|
                    0 <= j < hits.len() && eligible(#[trigger] hits[j], t_min, t_max) ==> k
                        <= key_of(hits[j])
            },
            None => forall|j: int|
                0 <= j < hits.len() ==> !eligible(#[trigger] hits[j], t_min, t_max),
        },
    decreases hits.len(),
{
    if hits.len() > 0 {
        let front = hits.drop_last();
        let last = hits.len() - 1;
        let h = hits[last];
        lemma_nearest_is_min(front, t_min, t_max);
        assert forall|j: int| 0 <= j < front.len() implies #[trigger] front[j] == hits[j] by {}
        assert(hits.last() == h);
        let n = nearest(hits, t_min, t_max);
        match nearest(front, t_min, t_max) {
            Some(k) => {
                let i0 = choose|i: int|
                    0 <= i < front.len() && eligible(#[trigger] front[i], t_min, t_max)
                        && key_of(front[i]) == k;
                assert(hits[i0] == front[i0]);
                if eligible(h, t_min, t_max) && key_of(h) < k {
                    assert(n == Some(key_of(h)));
                    assert(eligible(hits[last], t_min, t_max));
                } else {
                    assert(n == Some(k));
                    assert(eligible(hits[i0], t_min, t_max) && key_of(hits[i0]) == k);
                }
                assert forall|j: int|
                    0 <= j < hits.len() && eligible(#[trigger] hits[j], t_min, t_max) implies key_of(
                        n,
                    ) <= key_of(hits[j]) by {
                    if j < last {
                        assert(front[j] == hits[j]);
                    }
                }
            },
            None => {
                if eligible(h, t_min, t_max) {
                    assert(n == Some(key_of(h)));
                    assert(eligible(hits[last], t_min, t_max));
                    assert forall|j: int|
                        0 <= j < hits.len() && eligible(#[trigger] hits[j], t_min, t_max) implies key_of(
                            h,
                        ) <= key_of(hits[j]) by {
                        if j < last {
                            assert(front[j] == hits[j]);
                        }
                    }
                } else {
                    assert(n == None::<u32>);
                    assert forall|j: int| 0 <= j < hits.len() implies !eligible(
                        #[trigger] hits[j],
                        t_min,
                        t_max,
                    ) by {
                        if j < last {
                            assert(front[j] == hits[j]);
                        }
                    }
                }
            },
        }
    }
}

/// Closest hit wins globally: whichever object owns the aggregate hit, its
/// distance key is the minimum over the valid hits of every object in the
/// scene, whatever their order; and there is an owner exactly when some hit
/// is valid.
pub proof fn lemma_aggregate_hit_is_global_minimum(
    hits: Seq<Option<u32>>,
    t_min: u32,
    t_max: u32,
    i: int,
)
    requires
        is_closest(hits, t_min, t_max, i),
    ensures
        nearest(hits, t_min, t_max) == Some(key_of(hits[i])),
{
    lemma_nearest_is_min(hits, t_min, t_max);
    match nearest(hits, t_min, t_max) {
        Some(k) => {
            let w = choose|w: int|
                0 <= w < hits.len() && eligible(#[trigger] hits[w], t_min, t_max) && key_of(
                    hits[w],
                ) == k;
            assert(key_of(hits[i]) <= key_of(hits[w]));
        },
        None => {
            assert(eligible(hits[i], t_min, t_max));
        },
    }
}

/// Two objects along the same ray: the aggregate hit of a pair of valid hits
/// at keys `a` and `b` is owned by the first object when `a <= b`, else by
/// the second, so its key is `min(a, b)`.
pub proof fn lemma_two_objects_closest(a: u32, b: u32, t_min: u32, t_max: u32)
    requires
        t_min < a <= t_max,
        t_min < b <= t_max,
    ensures
        is_closest(seq![Some(a), Some(b)], t_min, t_max, if a <= b { 0 } else { 1 }),
        nearest(seq![Some(a), Some(b)], t_min, t_max) == Some(if a <= b { a } else { b }),
{
    let hits = seq![Some(a), Some(b)];
    let w: int = if a <= b { 0 } else { 1 };
    assert(hits[0] == Some(a) && hits[1] == Some(b));
    lemma_aggregate_hit_is_global_minimum(hits, t_min, t_max, w);
}

} // verus!
