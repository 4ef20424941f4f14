//! The grouping primitive.
//!
//! Given a batch of parents (in load order) and a batch of children each
//! carrying an optional foreign key, `group_by_parent` partitions the
//! children into one group per parent: the same order as the parents,
//! an empty group where nothing matched, and the children's own load
//! order kept within each group.  A key-to-indices multimap is built
//! once, so the work is linear in the two batch sizes rather than their
//! product.

use std::collections::HashMap;
use vstd::prelude::*;

verus! {

/// A sequence of positions, as mathematical integers.
pub open spec fn to_int_seq(s: Seq<usize>) -> Seq<int> {
    s.map_values(|u: usize| u as int)
}

/// The positions of the children whose key is `Some(k)`, ascending.
pub open spec fn matching_indices(k: i32, keys: Seq<Option<i32>>) -> Seq<int>
    decreases keys.len(),
{
    if keys.len() == 0 {
        Seq::empty()
    } else {
        let pre = matching_indices(k, keys.drop_last());
        if keys.last() == Some(k) {
            pre.push(keys.len() - 1)
        } else {
            pre
        }
    }
}

/// What `matching_indices` holds: positions in range that carry the key,
/// strictly ascending, and none missing.
pub proof fn lemma_matching_indices(k: i32, keys: Seq<Option<i32>>)
    ensures
        forall|q: int|
            0 <= q < matching_indices(k, keys).len() ==> {
                let j = #[trigger] matching_indices(k, keys)[q];
                0 <= j < keys.len() && keys[j] == Some(k)
            },
        forall|p: int, q: int|
            0 <= p < q < matching_indices(k, keys).len() ==> matching_indices(k, keys)[p]
                < matching_indices(k, keys)[q],
        forall|j: int|
            0 <= j < keys.len() && #[trigger] keys[j] == Some(k) ==> matching_indices(
                k,
                keys,
            ).contains(j),
    decreases keys.len(),
{
    if keys.len() > 0 {
        lemma_matching_indices(k, keys.drop_last());
        assert(forall|j: int| 0 <= j < keys.len() - 1 ==> keys[j] == #[trigger] keys.drop_last()[j]);
        let pre = matching_indices(k, keys.drop_last());
        assert forall|j: int|
            0 <= j < keys.len() && keys[j] == Some(k) implies matching_indices(k, keys).contains(
            j,
        ) by {
            if j < keys.len() - 1 {
                assert(keys.drop_last()[j] == Some(k));
                assert(pre.contains(j));
                let q = choose|q: int| 0 <= q < pre.len() && pre[q] == j;
                assert(matching_indices(k, keys)[q] == j);
            } else {
                assert(matching_indices(k, keys).last() == j);
            }
        }
    }
}

/// One step of `matching_indices`: extending the considered prefix by
/// one key appends its position exactly when the key matches.
proof fn lemma_matching_step(k: i32, keys: Seq<Option<i32>>, j: int)
    requires
        0 <= j < keys.len(),
    ensures
        matching_indices(k, keys.take(j + 1)) == if keys[j] == Some(k) {
            matching_indices(k, keys.take(j)).push(j)
        } else {
            matching_indices(k, keys.take(j))
        },
{
    assert(keys.take(j + 1).drop_last() =~= keys.take(j));
    assert(keys.take(j + 1).last() == keys[j]);
    assert(keys.take(j + 1).len() == j + 1);
}

/// Partitions child positions among the parents.
///
/// `groups` has exactly one entry per parent, in parent order.  Entry
/// `p` lists, ascending, the positions of the children whose key is
/// `Some(parent_keys[p])`; a parent that no child references gets an
/// empty group, never none.  A child whose key is absent, or matches no
/// parent, lands in no group.
pub fn group_by_parent(parent_keys: &Vec<i32>, child_keys: &Vec<Option<i32>>) -> (groups: Vec<
    Vec<usize>,
>)
    ensures
        groups@.len() == parent_keys@.len(),
        forall|p: int|
            0 <= p < parent_keys@.len() ==> #[trigger] to_int_seq(groups@[p]@)
                == matching_indices(parent_keys@[p], child_keys@),
{
    let ghost ck = child_keys@;
    let mut map: HashMap<i32, Vec<usize>> = HashMap::new();
    let mut j: usize = 0;
    while j < child_keys.len()
        invariant
            0 <= j <= ck.len(),
            child_keys@ == ck,
            forall|k: i32|
                #[trigger] map@.contains_key(k) == (matching_indices(k, ck.take(j as int)).len()
                    > 0),
            forall|k: i32|
                #[trigger] map@.contains_key(k) ==> to_int_seq(map@[k]@)
                    == matching_indices(k, ck.take(j as int)),
        decreases ck.len() - j,
    {
        proof {
            assert forall|k: i32| true implies matching_indices(k, ck.take(j + 1)) == (if ck[j as int]
                == Some(k) {
                matching_indices(k, ck.take(j as int)).push(j as int)
            } else {
                matching_indices(k, ck.take(j as int))
            }) by {
                lemma_matching_step(k, ck, j as int);
            }
        }
        match child_keys[j] {
            Some(k) => {
                let prev = map.remove(&k);
                let mut v: Vec<usize> = match prev {
                    Some(v) => v,
                    None => Vec::new(),
                };
                let ghost v0 = v@;
                v.push(j);
                proof {
                    assert(v@ =~= v0.push(j));
                    assert(to_int_seq(v@) =~= to_int_seq(v0).push(j as int));
                    assert(matching_indices(k, ck.take(j as int)).len() == 0 ==> matching_indices(
                        k,
                        ck.take(j as int),
                    ) =~= Seq::<int>::empty());
                }
                map.insert(k, v);
            },
            None => {
            },
        }
        j = j + 1;
    }
    proof {
        assert(ck.take(ck.len() as int) =~= ck);
    }
    let mut groups: Vec<Vec<usize>> = Vec::new();
    let mut p: usize = 0;
    while p < parent_keys.len()
        invariant
            0 <= p <= parent_keys@.len(),
            child_keys@ == ck,
            groups@.len() == p,
            forall|k: i32|
                #[trigger] map@.contains_key(k) == (matching_indices(k, ck).len() > 0),
            forall|k: i32|
                #[trigger] map@.contains_key(k) ==> to_int_seq(map@[k]@)
                    == matching_indices(k, ck),
            forall|q: int|
                0 <= q < p ==> #[trigger] to_int_seq(groups@[q]@)
                    == matching_indices(parent_keys@[q], ck),
        decreases parent_keys@.len() - p,
    {
        let key = parent_keys[p];
        let mut g: Vec<usize> = Vec::new();
        match map.get(&key) {
            Some(vr) => {
                let mut q: usize = 0;
                while q < vr.len()
                    invariant
                        0 <= q <= vr@.len(),
                        g@.len() == q,
                        forall|r: int| 0 <= r < q ==> g@[r] == vr@[r],
                    decreases vr@.len() - q,
                {
                    g.push(vr[q]);
                    q = q + 1;
                }
                proof {
                    assert(g@ =~= vr@);
                }
            },
            None => {
                proof {
                    assert(!map@.contains_key(key));
                    assert(matching_indices(key, ck).len() == 0);
                    assert(to_int_seq(g@) =~= matching_indices(key, ck));
                }
            },
        }
        groups.push(g);
        p = p + 1;
    }
    groups
}

/// Grouping completeness, seen from one parent: a parent that no child
/// references gets the empty group — present, not omitted.
pub proof fn lemma_unmatched_parent_empty(k: i32, keys: Seq<Option<i32>>)
    requires
        forall|j: int| 0 <= j < keys.len() ==> (#[trigger] keys[j]) != Some(k),
    ensures
        matching_indices(k, keys).len() == 0,
    decreases keys.len(),
{
    if keys.len() > 0 {
        assert(forall|j: int|
            0 <= j < keys.len() - 1 ==> (#[trigger] keys.drop_last()[j]) == keys[j]);
        lemma_unmatched_parent_empty(k, keys.drop_last());
    }
}

} // verus!
