use vstd::prelude::*;

use crate::bvh::select;

verus! {

/// Whether entry `k` holds the smallest key of `keys`, and no earlier entry
/// holds an equal one.
pub open spec fn is_nearest(keys: Seq<Option<u64>>, k: int) -> bool {
    &&& 0 <= k < keys.len()
    &&& keys[k] is Some
    &&& forall|j: int| 0 <= j < keys.len() && #[trigger] keys[j] is Some ==> keys[k].unwrap() <= keys[j].unwrap()
    &&& forall|j: int| 0 <= j < k && #[trigger] keys[j] is Some ==> keys[k].unwrap() < keys[j].unwrap()
}

/// The nearer of two optional keys; a missing key loses.
pub open spec fn combine_keys(a: Option<u64>, b: Option<u64>) -> Option<u64> {
    match (a, b) {
        (None, _) => b,
        (_, None) => a,
        (Some(x), Some(y)) => if x <= y { a } else { b },
    }
}

/// The smallest key present, if any.
pub open spec fn min_key(keys: Seq<Option<u64>>) -> Option<u64>
    decreases keys.len(),
{
    if keys.len() == 0 {
        None
    } else {
        combine_keys(min_key(keys.drop_last()), keys.last())
    }
}

proof fn lemma_min_key_bounds(keys: Seq<Option<u64>>)
    ensures
        min_key(keys) is None <==> forall|j: int| 0 <= j < keys.len() ==> #[trigger] keys[j] is None,
        min_key(keys) is Some ==> exists|j: int| 0 <= j < keys.len() && keys[j] == min_key(keys),
        forall|j: int|
            0 <= j < keys.len() && #[trigger] keys[j] is Some ==> min_key(keys) is Some && min_key(
                keys,
            ).unwrap() <= keys[j].unwrap(),
    decreases keys.len(),
{
    if keys.len() > 0 {
        let init = keys.drop_last();
        lemma_min_key_bounds(init);
        assert forall|j: int| 0 <= j < init.len() implies init[j] == #[trigger] keys[j] by {}
        if min_key(keys) is Some && min_key(keys) == min_key(init) {
            let j = choose|j: int| 0 <= j < init.len() && init[j] == min_key(init);
            assert(keys[j] == min_key(keys));
        }
    }
}

proof fn lemma_nearest_is_min(keys: Seq<Option<u64>>, k: int)
    requires
        is_nearest(keys, k),
    ensures
        keys[k] == min_key(keys),
{
    lemma_min_key_bounds(keys);
    let j = choose|j: int| 0 <= j < keys.len() && keys[j] == min_key(keys);
    assert(keys[j] is Some);
}

/// Which of two candidate hits is nearer: `true` for the first, also where
/// they are equally near; a missing hit loses.
pub fn first_is_nearer(a: Option<u64>, b: Option<u64>) -> (r: bool)
    ensures
        r == (b is None || (a is Some && a.unwrap() <= b.unwrap())),
        (if r { a } else { b }) == combine_keys(a, b),
{
    match (a, b) {
        (_, None) => true,
        (None, Some(_)) => false,
        (Some(x), Some(y)) => x <= y,
    }
}

/// Splitting the candidates in two and keeping the nearer of the two answers
/// gives the answer over all candidates.
pub proof fn lemma_min_key_concat(a: Seq<Option<u64>>, b: Seq<Option<u64>>)
    ensures
        min_key(a + b) == combine_keys(min_key(a), min_key(b)),
    decreases b.len(),
{
    if b.len() == 0 {
        assert(a + b =~= a);
    } else {
        lemma_min_key_concat(a, b.drop_last());
        assert((a + b).drop_last() =~= a + b.drop_last());
    }
}

/// Partitioning the candidates by any flags, as a tree split does, and keeping
/// the nearer of the two sides' answers gives the answer over all candidates.
pub proof fn lemma_min_key_partition(keys: Seq<Option<u64>>, flags: Seq<bool>)
    requires
        flags.len() == keys.len(),
    ensures
        min_key(keys) == combine_keys(
            min_key(select(keys, flags, true)),
            min_key(select(keys, flags, false)),
        ),
{
    lemma_min_key_partition_prefix(keys, flags);
}

proof fn lemma_min_key_partition_prefix(keys: Seq<Option<u64>>, flags: Seq<bool>)
    requires
        flags.len() >= keys.len(),
    ensures
        min_key(keys) == combine_keys(
            min_key(select(keys, flags, true)),
            min_key(select(keys, flags, false)),
        ),
    decreases keys.len(),
{
    if keys.len() > 0 {
        let init = keys.drop_last();
        lemma_min_key_partition_prefix(init, flags);
        let l0 = select(init, flags, true);
        let r0 = select(init, flags, false);
        let l = select(keys, flags, true);
        let r = select(keys, flags, false);
        if flags[keys.len() - 1] {
            assert(l.drop_last() == l0);
            assert(r == r0);
        } else {
            assert(r.drop_last() == r0);
            assert(l == l0);
        }
    }
}

/// Picks the nearest of a list of candidate hits, one entry per object in
/// scene order (`None` where the object was missed). Keys order as the hit
/// distances do; among equal keys the earliest entry wins.
pub fn nearest_hit(keys: &Vec<Option<u64>>) -> (r: Option<usize>)
    ensures
        r is None <==> forall|j: int| 0 <= j < keys@.len() ==> #[trigger] keys@[j] is None,
        r matches Some(k) ==> is_nearest(keys@, k as int),
        r matches Some(k) ==> keys@[k as int] == min_key(keys@),
{
    let mut best: Option<usize> = None;
    let mut best_key: u64 = 0;
    let mut i: usize = 0;
    while i < keys.len()
        invariant
            i <= keys@.len(),
            best is None <==> forall|j: int| 0 <= j < i ==> #[trigger] keys@[j] is None,
            best matches Some(k) ==> is_nearest(keys@.take(i as int), k as int) && keys@[k as int] == Some(
                best_key,
            ),
        decreases keys@.len() - i,
    {
        match keys[i] {
            Some(key) => {
                let better = match best {
                    None => true,
                    Some(_) => key < best_key,
                };
                if better {
                    best = Some(i);
                    best_key = key;
                }
            },
            None => {},
        }
        i = i + 1;
    }
    proof {
        assert(keys@.take(i as int) =~= keys@);
        if let Some(k) = best {
            lemma_nearest_is_min(keys@, k as int);
        }
    }
    best
}

} // verus!
