//! The stacking order of a sequence of layers: what it means for a sequence to
//! be in order, where a new layer goes, and why putting layers in one at a time
//! sorts them stably.

use crate::layer::Layer;
use vstd::prelude::*;

verus! {

/// The sequence runs from the bottom of the stack to the top: no layer lies
/// above one with a greater z-index.
pub open spec fn sorted_by_z(s: Seq<Layer>) -> bool {
    forall|i: int, j: int| 0 <= i <= j < s.len() ==> s[i].z_index <= s[j].z_index
}

/// How many layers of `s` have a z-index of at most `z`.
pub open spec fn count_at_most(s: Seq<Layer>, z: i32) -> nat
    decreases s.len(),
{
    if s.len() == 0 {
        0
    } else {
        count_at_most(s.drop_last(), z) + if s.last().z_index <= z {
            1nat
        } else {
            0nat
        }
    }
}

/// `p` parts `s` at `z`: every layer below position `p` has a z-index of at most
/// `z`, every layer from `p` on a greater one.
pub open spec fn parts_at(s: Seq<Layer>, z: i32, p: int) -> bool {
    &&& 0 <= p <= s.len()
    &&& forall|i: int| 0 <= i < p ==> s[i].z_index <= z
    &&& forall|i: int| p <= i < s.len() ==> s[i].z_index > z
}

/// The stack with `layer` put in: above every layer whose z-index is not
/// greater than its own, so that among equals the newcomer is topmost.
pub open spec fn stacked(s: Seq<Layer>, layer: Layer) -> Seq<Layer> {
    s.insert(count_at_most(s, layer.z_index) as int, layer)
}

/// The stable sort of `s` by z-index: its layers put into an empty stack one
/// after the other, in the order in which `s` lists them.
pub open spec fn stable_sorted(s: Seq<Layer>) -> Seq<Layer>
    decreases s.len(),
{
    if s.len() == 0 {
        Seq::empty()
    } else {
        stacked(stable_sorted(s.drop_last()), s.last())
    }
}

/// No more layers are counted than there are.
pub proof fn lemma_count_bounded(s: Seq<Layer>, z: i32)
    ensures
        count_at_most(s, z) <= s.len(),
    decreases s.len(),
{
    if s.len() > 0 {
        lemma_count_bounded(s.drop_last(), z);
    }
}

/// A position that parts the sequence at `z` is the count of layers with a
/// z-index of at most `z`: there is one such position at most.
pub proof fn lemma_parting_is_count(s: Seq<Layer>, z: i32, p: int)
    requires
        parts_at(s, z, p),
    ensures
        p == count_at_most(s, z),
    decreases s.len(),
{
    if s.len() > 0 {
        let front = s.drop_last();
        if p == s.len() {
            assert(s.last().z_index <= z);
            assert(parts_at(front, z, p - 1));
            lemma_parting_is_count(front, z, p - 1);
        } else {
            assert(s.last().z_index > z);
            assert(parts_at(front, z, p));
            lemma_parting_is_count(front, z, p);
        }
    }
}

/// In a sequence that is in order, the count of layers with a z-index of at
/// most `z` parts the sequence at `z`.
pub proof fn lemma_count_parts_sorted(s: Seq<Layer>, z: i32)
    requires
        sorted_by_z(s),
    ensures
        parts_at(s, z, count_at_most(s, z) as int),
    decreases s.len(),
{
    if s.len() > 0 {
        let front = s.drop_last();
        assert(sorted_by_z(front));
        lemma_count_parts_sorted(front, z);
        let c = count_at_most(front, z) as int;
        if s.last().z_index <= z {
            if c < front.len() {
                assert(front[c].z_index > z);
                assert(s[c].z_index <= s[s.len() - 1].z_index);
            }
            assert forall|i: int| 0 <= i < s.len() implies s[i].z_index <= z by {
                assert(s[i].z_index <= s[s.len() - 1].z_index);
            }
        } else {
            assert forall|i: int| 0 <= i < c implies s[i].z_index <= z by {
                assert(front[i].z_index <= z);
            }
            assert forall|i: int| c <= i < s.len() implies s[i].z_index > z by {
                if i < front.len() {
                    assert(front[i].z_index > z);
                }
            }
        }
    }
}

/// Putting a layer into a stack that is in order leaves a stack that is in
/// order; the layers that were there keep their relative order, the newcomer
/// lies above every layer of the same or a smaller z-index and beneath every
/// layer of a greater one.
pub proof fn lemma_stacked_in_order(s: Seq<Layer>, layer: Layer)
    requires
        sorted_by_z(s),
    ensures
        sorted_by_z(stacked(s, layer)),
        parts_at(s, layer.z_index, count_at_most(s, layer.z_index) as int),
        stacked(s, layer).len() == s.len() + 1,
        stacked(s, layer)[count_at_most(s, layer.z_index) as int] == layer,
        forall|i: int|
            0 <= i < count_at_most(s, layer.z_index) ==> #[trigger] stacked(s, layer)[i] == s[i],
        forall|i: int|
            count_at_most(s, layer.z_index) <= i < s.len() ==> #[trigger] stacked(s, layer)[i + 1]
                == s[i],
{
    let p = count_at_most(s, layer.z_index) as int;
    lemma_count_parts_sorted(s, layer.z_index);
    s.insert_ensures(p, layer);
    let r = stacked(s, layer);
    assert forall|i: int, j: int| 0 <= i <= j < r.len() implies r[i].z_index <= r[j].z_index by {
        if i < p {
            assert(r[i] == s[i]);
        } else if i > p {
            assert(r[(i - 1) + 1] == s[i - 1]);
        }
        if j < p {
            assert(r[j] == s[j]);
        } else if j > p {
            assert(r[(j - 1) + 1] == s[j - 1]);
        }
    }
}

/// For each position of `stable_sorted(s)`, from the bottom up, the position in
/// `s` of the layer that ends up there.
pub open spec fn arrival_order(s: Seq<Layer>) -> Seq<int>
    decreases s.len(),
{
    if s.len() == 0 {
        Seq::empty()
    } else {
        let front = s.drop_last();
        arrival_order(front).insert(
            count_at_most(stable_sorted(front), s.last().z_index) as int,
            s.len() - 1,
        )
    }
}

/// Whatever layers are put into an empty stack, and in whatever order, the
/// stack ends up sorted by z-index, it holds each of them once, and layers
/// that share a z-index lie in the order in which they came.
pub proof fn lemma_stable_sorted_is_stable(s: Seq<Layer>)
    ensures
        stable_sorted(s).len() == s.len(),
        arrival_order(s).len() == s.len(),
        sorted_by_z(stable_sorted(s)),
        forall|k: int|
            0 <= k < s.len() ==> 0 <= #[trigger] arrival_order(s)[k] < s.len() && stable_sorted(
                s,
            )[k] == s[arrival_order(s)[k]],
        forall|a: int, b: int|
            0 <= a < b < s.len() ==> {
                let first = s[#[trigger] arrival_order(s)[a]];
                let second = s[#[trigger] arrival_order(s)[b]];
                first.z_index < second.z_index || (first.z_index == second.z_index
                    && arrival_order(s)[a] < arrival_order(s)[b])
            },
    decreases s.len(),
{
    if s.len() > 0 {
        let front = s.drop_last();
        let last = s.last();
        let n = s.len() as int;
        lemma_stable_sorted_is_stable(front);
        let r0 = stable_sorted(front);
        let o0 = arrival_order(front);
        let p = count_at_most(r0, last.z_index) as int;
        lemma_stacked_in_order(r0, last);
        r0.insert_ensures(p, last);
        o0.insert_ensures(p, n - 1);
        let r = stable_sorted(s);
        let o = arrival_order(s);
        assert(r == r0.insert(p, last));
        assert(o == o0.insert(p, n - 1));
        assert forall|k: int| 0 <= k < n implies 0 <= #[trigger] o[k] < n && r[k] == s[o[k]] by {
            if k < p {
                assert(o[k] == o0[k]);
                assert(r[k] == r0[k]);
                assert(front[o0[k]] == s[o0[k]]);
            } else if k > p {
                assert(o[(k - 1) + 1] == o0[k - 1]);
                assert(r[(k - 1) + 1] == r0[k - 1]);
                assert(front[o0[k - 1]] == s[o0[k - 1]]);
            }
        }
        assert forall|a: int, b: int| 0 <= a < b < n implies ({
            let first = s[#[trigger] o[a]];
            let second = s[#[trigger] o[b]];
            first.z_index < second.z_index || (first.z_index == second.z_index && o[a] < o[b])
        }) by {
            assert(r[a] == s[o[a]]);
            assert(r[b] == s[o[b]]);
            if a == p {
                assert(r[((b - 1) + 1)] == r0[b - 1]);
                assert(r0[b - 1].z_index > last.z_index);
            } else if b == p {
                assert(r[a] == r0[a]);
                assert(o[a] == o0[a]);
                assert(r0[a].z_index <= last.z_index);
            } else {
                let a0 = if a < p { a } else { a - 1 };
                let b0 = if b < p { b } else { b - 1 };
                assert(o[a] == o0[a0]) by {
                    if a > p {
                        assert(o[(a - 1) + 1] == o0[a - 1]);
                    }
                }
                assert(o[b] == o0[b0]) by {
                    if b > p {
                        assert(o[(b - 1) + 1] == o0[b - 1]);
                    }
                }
                assert(front[o0[a0]] == s[o0[a0]]);
                assert(front[o0[b0]] == s[o0[b0]]);
            }
        }
    }
}

/// Sorting a sequence that is in order changes nothing.
pub proof fn lemma_sorted_stays(s: Seq<Layer>)
    requires
        sorted_by_z(s),
    ensures
        stable_sorted(s) == s,
    decreases s.len(),
{
    if s.len() > 0 {
        let front = s.drop_last();
        assert(sorted_by_z(front));
        lemma_sorted_stays(front);
        assert(parts_at(front, s.last().z_index, front.len() as int)) by {
            assert forall|i: int| 0 <= i < front.len() implies front[i].z_index
                <= s.last().z_index by {
                assert(s[i].z_index <= s[s.len() - 1].z_index);
            }
        }
        lemma_parting_is_count(front, s.last().z_index, front.len() as int);
        assert(front.insert(front.len() as int, s.last()) =~= s);
    } else {
        assert(stable_sorted(s) =~= s);
    }
}

/// To append a layer to a stack that is in order and then sort the whole stably
/// is to put the layer in at its place.
pub proof fn lemma_append_then_sort(s: Seq<Layer>, layer: Layer)
    requires
        sorted_by_z(s),
    ensures
        stable_sorted(s.push(layer)) == stacked(s, layer),
{
    lemma_sorted_stays(s);
    assert(s.push(layer).drop_last() =~= s);
}

} // verus!
