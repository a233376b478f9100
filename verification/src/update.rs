//! What an update by id does to a sequence of layers.

use crate::layer::Layer;
use crate::order::{count_at_most, lemma_count_bounded, sorted_by_z, stacked};
use vello::kurbo::Affine;
use vstd::prelude::*;

verus! {

/// Position of the first layer of `s`, counted from the bottom, whose id is
/// `id`; `None` where no layer has that id.
pub open spec fn first_with_id(s: Seq<Layer>, id: u32) -> Option<int>
    decreases s.len(),
{
    if s.len() == 0 {
        None
    } else {
        match first_with_id(s.drop_last(), id) {
            Some(k) => Some(k),
            None => if s.last().id == id {
                Some(s.len() - 1)
            } else {
                None
            },
        }
    }
}

/// The sequence after an update of `id`: the first layer with that id is
/// retouched, every other layer stays as it is; without such a layer nothing
/// changes.
pub open spec fn updated(
    s: Seq<Layer>,
    id: u32,
    transform: Option<Affine>,
    opacity: Option<u32>,
) -> Seq<Layer> {
    match first_with_id(s, id) {
        Some(k) => s.update(k, s[k].retouched(transform, opacity)),
        None => s,
    }
}

/// `first_with_id` finds a layer with the id, and none with that id lies
/// beneath it; it finds none only where no layer has the id.
pub proof fn lemma_first_with_id(s: Seq<Layer>, id: u32)
    ensures
        match first_with_id(s, id) {
            Some(k) => 0 <= k < s.len() && s[k].id == id && forall|j: int|
                0 <= j < k ==> s[j].id != id,
            None => forall|j: int| 0 <= j < s.len() ==> s[j].id != id,
        },
    decreases s.len(),
{
    if s.len() > 0 {
        let front = s.drop_last();
        lemma_first_with_id(front, id);
        match first_with_id(front, id) {
            Some(k) => {
                assert(front[k] == s[k]);
                assert forall|j: int| 0 <= j < k implies s[j].id != id by {
                    assert(front[j] == s[j]);
                }
            },
            None => {
                assert forall|j: int| 0 <= j < s.len() - 1 implies s[j].id != id by {
                    assert(front[j] == s[j]);
                }
            },
        }
    }
}

/// A layer with the id that has none with that id beneath it is the one that
/// `first_with_id` finds.
pub proof fn lemma_first_match(s: Seq<Layer>, id: u32, k: int)
    requires
        0 <= k < s.len(),
        s[k].id == id,
        forall|j: int| 0 <= j < k ==> s[j].id != id,
    ensures
        first_with_id(s, id) == Some(k),
{
    lemma_first_with_id(s, id);
}

/// An update with a new transform and no new opacity changes the transform of
/// the first layer with the id and nothing else: not that layer's opacity, id,
/// content or z-index, and no other layer.
pub proof fn lemma_update_transform_only(s: Seq<Layer>, id: u32, t: Affine)
    ensures
        updated(s, id, Some(t), None).len() == s.len(),
        forall|i: int|
            0 <= i < s.len() ==> {
                let before = s[i];
                let after = #[trigger] updated(s, id, Some(t), None)[i];
                &&& after.id == before.id
                &&& after.content == before.content
                &&& after.opacity == before.opacity
                &&& after.z_index == before.z_index
                &&& after.transform == if first_with_id(s, id) == Some(i) {
                    t
                } else {
                    before.transform
                }
            },
{
    lemma_first_with_id(s, id);
}

/// An update with a new opacity and no new transform changes the opacity of
/// the first layer with the id and nothing else.
pub proof fn lemma_update_opacity_only(s: Seq<Layer>, id: u32, o: u32)
    ensures
        updated(s, id, None, Some(o)).len() == s.len(),
        forall|i: int|
            0 <= i < s.len() ==> {
                let before = s[i];
                let after = #[trigger] updated(s, id, None, Some(o))[i];
                &&& after.id == before.id
                &&& after.content == before.content
                &&& after.transform == before.transform
                &&& after.z_index == before.z_index
                &&& after.opacity == if first_with_id(s, id) == Some(i) {
                    o
                } else {
                    before.opacity
                }
            },
{
    lemma_first_with_id(s, id);
}

/// An update of an id that no layer has leaves the sequence as it is.
pub proof fn lemma_update_unknown_id(
    s: Seq<Layer>,
    id: u32,
    transform: Option<Affine>,
    opacity: Option<u32>,
)
    requires
        forall|j: int| 0 <= j < s.len() ==> s[j].id != id,
    ensures
        updated(s, id, transform, opacity) == s,
{
    lemma_first_with_id(s, id);
}

/// An update that gives neither a transform nor an opacity leaves every field
/// of every layer as it is, whether the id is known or not.
pub proof fn lemma_update_nothing(s: Seq<Layer>, id: u32)
    ensures
        updated(s, id, None, None) == s,
{
    lemma_first_with_id(s, id);
    match first_with_id(s, id) {
        Some(k) => {
            assert(s[k].retouched(None, None) == s[k]);
            assert(s.update(k, s[k]) =~= s);
        },
        None => {},
    }
}

/// An update never moves a layer: the z-indices stay, position by position.
pub proof fn lemma_update_keeps_order(
    s: Seq<Layer>,
    id: u32,
    transform: Option<Affine>,
    opacity: Option<u32>,
)
    ensures
        updated(s, id, transform, opacity).len() == s.len(),
        forall|i: int|
            0 <= i < s.len() ==> (#[trigger] updated(s, id, transform, opacity)[i]).z_index
                == s[i].z_index && updated(s, id, transform, opacity)[i].id == s[i].id,
        sorted_by_z(s) ==> sorted_by_z(
            updated(s, id, transform, opacity),
        ),
{
    lemma_first_with_id(s, id);
    let r = updated(s, id, transform, opacity);
    assert forall|i: int| 0 <= i < s.len() implies (#[trigger] r[i]).z_index == s[i].z_index
        && r[i].id == s[i].id by {}
    if sorted_by_z(s) {
        assert forall|i: int, j: int| 0 <= i <= j < r.len() implies r[i].z_index
            <= r[j].z_index by {
            assert(r[i].z_index == s[i].z_index);
            assert(r[j].z_index == s[j].z_index);
        }
    }
}

/// No two layers of `s` share an id.
pub open spec fn distinct_ids(s: Seq<Layer>) -> bool {
    forall|i: int, j: int| 0 <= i < j < s.len() ==> s[i].id != s[j].id
}

/// Where every layer has an id of its own, an update reaches the one layer
/// that has the id, wherever it lies.
pub proof fn lemma_update_reaches_the_layer(
    s: Seq<Layer>,
    k: int,
    transform: Option<Affine>,
    opacity: Option<u32>,
)
    requires
        distinct_ids(s),
        0 <= k < s.len(),
    ensures
        updated(s, s[k].id, transform, opacity) == s.update(
            k,
            s[k].retouched(transform, opacity),
        ),
{
    lemma_first_with_id(s, s[k].id);
}

/// Ids that are distinct stay distinct when a layer with an id that is not
/// yet in use is put in.
pub proof fn lemma_new_id_keeps_ids_distinct(s: Seq<Layer>, layer: Layer)
    requires
        distinct_ids(s),
        first_with_id(s, layer.id) is None,
    ensures
        distinct_ids(stacked(s, layer)),
{
    lemma_first_with_id(s, layer.id);
    lemma_count_bounded(s, layer.z_index);
    let p = count_at_most(s, layer.z_index) as int;
    let r = stacked(s, layer);
    s.insert_ensures(p, layer);
    assert forall|i: int, j: int| 0 <= i < j < r.len() implies r[i].id != r[j].id by {
        let i0 = if i < p { i } else { i - 1 };
        let j0 = if j < p { j } else { j - 1 };
        if i != p {
            assert(r[i] == s[i0]) by {
                if i > p {
                    assert(r[(i - 1) + 1] == s[i - 1]);
                }
            }
        }
        if j != p {
            assert(r[j] == s[j0]) by {
                if j > p {
                    assert(r[(j - 1) + 1] == s[j - 1]);
                }
            }
        }
    }
}

/// An update leaves every id where it is, so ids that are distinct stay
/// distinct.
pub proof fn lemma_update_keeps_ids_distinct(
    s: Seq<Layer>,
    id: u32,
    transform: Option<Affine>,
    opacity: Option<u32>,
)
    requires
        distinct_ids(s),
    ensures
        distinct_ids(updated(s, id, transform, opacity)),
{
    lemma_update_keeps_order(s, id, transform, opacity);
    let r = updated(s, id, transform, opacity);
    assert forall|i: int, j: int| 0 <= i < j < r.len() implies r[i].id != r[j].id by {
        assert(r[i].id == s[i].id);
        assert(r[j].id == s[j].id);
    }
}

} // verus!
