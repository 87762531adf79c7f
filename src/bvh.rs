use vstd::prelude::*;

verus! {

/// Largest number of triangles that a tree leaf holds by default.
pub const LEAF_THRESHOLD: usize = 250;

/// The items whose flag equals `side`, in the order they come.
pub open spec fn select<T>(items: Seq<T>, flags: Seq<bool>, side: bool) -> Seq<T>
    decreases items.len(),
{
    if items.len() == 0 {
        Seq::empty()
    } else {
        let rest = select(items.drop_last(), flags, side);
        if flags[items.len() - 1] == side {
            rest.push(items.last())
        } else {
            rest
        }
    }
}

proof fn lemma_select_lengths<T>(items: Seq<T>, flags: Seq<bool>)
    ensures
        select(items, flags, true).len() + select(items, flags, false).len() == items.len(),
    decreases items.len(),
{
    if items.len() > 0 {
        lemma_select_lengths(items.drop_last(), flags);
    }
}

proof fn lemma_select_multiset<T>(items: Seq<T>, flags: Seq<bool>)
    ensures
        select(items, flags, true).to_multiset().add(select(items, flags, false).to_multiset())
            == items.to_multiset(),
    decreases items.len(),
{
    let yes = select(items, flags, true);
    let no = select(items, flags, false);
    if items.len() == 0 {
        yes.to_multiset_ensures();
        no.to_multiset_ensures();
        items.to_multiset_ensures();
        assert(yes.to_multiset().add(no.to_multiset()) =~= items.to_multiset());
    } else {
        let init = items.drop_last();
        let last = items.last();
        lemma_select_multiset(init, flags);
        let yes0 = select(init, flags, true);
        let no0 = select(init, flags, false);
        assert(items =~= init.push(last));
        init.to_multiset_ensures();
        yes0.to_multiset_ensures();
        no0.to_multiset_ensures();
        assert(items.to_multiset() =~= init.to_multiset().insert(last));
        if flags[items.len() - 1] {
            assert(yes.to_multiset() =~= yes0.to_multiset().insert(last));
            assert(no == no0);
        } else {
            assert(no.to_multiset() =~= no0.to_multiset().insert(last));
            assert(yes == yes0);
        }
        assert(yes.to_multiset().add(no.to_multiset()) =~= items.to_multiset());
    }
}

/// Whether a node over `count` triangles is split further, rather than kept as a leaf.
pub fn needs_split(count: usize, threshold: usize) -> (r: bool)
    ensures
        r == (count > threshold),
{
    count > threshold
}

/// Whether a split made progress, both halves receiving triangles; where it
/// did not, the node stays a leaf, so that building always terminates.
pub fn split_reduces(left: usize, right: usize) -> (r: bool)
    ensures
        r == (left > 0 && right > 0),
{
    left > 0 && right > 0
}

/// Partitions `items` by their flags: those flagged `true` go left and the
/// others right, each side keeping the order of `items`.
pub fn split_by<T: Copy>(items: &Vec<T>, goes_left: &Vec<bool>) -> (r: (Vec<T>, Vec<T>))
    requires
        goes_left@.len() == items@.len(),
    ensures
        r.0@ == select(items@, goes_left@, true),
        r.1@ == select(items@, goes_left@, false),
        r.0@.len() + r.1@.len() == items@.len(),
        r.0@.to_multiset().add(r.1@.to_multiset()) == items@.to_multiset(),
{
    let mut left: Vec<T> = Vec::new();
    let mut right: Vec<T> = Vec::new();
    let mut i: usize = 0;
    while i < items.len()
        invariant
            i <= items@.len(),
            goes_left@.len() == items@.len(),
            left@ == select(items@.take(i as int), goes_left@, true),
            right@ == select(items@.take(i as int), goes_left@, false),
        decreases items@.len() - i,
    {
        let item = items[i];
        proof {
            let t = items@.take(i as int + 1);
            assert(t.drop_last() =~= items@.take(i as int));
        }
        if goes_left[i] {
            left.push(item);
        } else {
            right.push(item);
        }
        i = i + 1;
    }
    proof {
        assert(items@.take(i as int) =~= items@);
        lemma_select_lengths(items@, goes_left@);
        lemma_select_multiset(items@, goes_left@);
    }
    (left, right)
}

} // verus!
