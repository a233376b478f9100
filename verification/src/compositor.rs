//! The compositor: a stack of layers kept in stacking order.

use crate::layer::Layer;
use crate::order::{
    count_at_most, lemma_append_then_sort, lemma_parting_is_count, lemma_stacked_in_order,
    sorted_by_z, stable_sorted, stacked,
};
use crate::scene::{layer_ops, stack_ops, Blend, ClipRect, SceneOp};
use crate::update::{
    first_with_id, lemma_first_match, lemma_first_with_id, lemma_update_keeps_order, updated,
};
use vello::kurbo::Affine;
use vstd::prelude::*;

verus! {

/// Owns the layers of a composition, from the bottom of the stack to the top.
///
/// The view of a compositor is the sequence of its layers. It is sorted by
/// z-index at all times, and layers of the same z-index lie in the order in
/// which they were added.
pub struct Compositor {
    layers: Vec<Layer>,
}

impl View for Compositor {
    type V = Seq<Layer>;

    closed spec fn view(&self) -> Seq<Layer> {
        self.layers@
    }
}

/// The position at which a layer of z-index `z` goes into `layers`.
fn slot_for(layers: &Vec<Layer>, z: i32) -> (slot: usize)
    requires
        sorted_by_z(layers@),
    ensures
        slot == count_at_most(layers@, z),
        slot <= layers@.len(),
{
    let mut slot: usize = layers.len();
    while slot > 0 && layers[slot - 1].z_index > z
        invariant
            slot <= layers@.len(),
            forall|i: int| slot <= i < layers@.len() ==> layers@[i].z_index > z,
        decreases slot,
    {
        slot -= 1;
    }
    proof {
        assert forall|i: int| 0 <= i < slot implies layers@[i].z_index <= z by {
            assert(layers@[i].z_index <= layers@[slot - 1].z_index);
        }
        lemma_parting_is_count(layers@, z, slot as int);
    }
    slot
}

/// The position of the first layer with the given id.
fn find_first(layers: &Vec<Layer>, id: u32) -> (found: Option<usize>)
    ensures
        match found {
            Some(k) => first_with_id(layers@, id) == Some(k as int) && k < layers@.len(),
            None => first_with_id(layers@, id) is None,
        },
{
    let mut k: usize = 0;
    while k < layers.len()
        invariant
            k <= layers@.len(),
            forall|j: int| 0 <= j < k ==> layers@[j].id != id,
        decreases layers@.len() - k,
    {
        if layers[k].id == id {
            proof {
                lemma_first_match(layers@, id, k as int);
            }
            return Some(k);
        }
        k += 1;
    }
    proof {
        lemma_first_with_id(layers@, id);
    }
    None
}

/// Overwrites, in the layer at position `k`, the fields for which a value is
/// given.
fn retouch(layers: &mut Vec<Layer>, k: usize, transform: Option<Affine>, opacity: Option<u32>)
    requires
        k < old(layers)@.len(),
    ensures
        final(layers)@ == old(layers)@.update(
            k as int,
            old(layers)@[k as int].retouched(transform, opacity),
        ),
    no_unwind
{
    if let Some(t) = transform {
        layers[k].transform = t;
    }
    if let Some(o) = opacity {
        layers[k].opacity = o;
    }
}

impl Compositor {
    #[verifier::type_invariant]
    spec fn in_order(&self) -> bool {
        sorted_by_z(self.layers@)
    }

    /// A compositor without layers.
    pub fn new() -> (compositor: Self)
        ensures
            compositor@ == Seq::<Layer>::empty(),
    {
        Self { layers: Vec::new() }
    }

    /// The layers, from the bottom of the stack to the top.
    pub fn layers(&self) -> (layers: &[Layer])
        ensures
            layers@ == self@,
            sorted_by_z(self@),
    {
        proof {
            use_type_invariant(self);
        }
        self.layers.as_slice()
    }

    /// Takes the layer into the stack, above every layer whose z-index is not
    /// greater than its own. That is what appending it and then sorting the
    /// whole stack stably by z-index comes to. A layer whose id is already in
    /// use is taken like any other.
    pub fn add_layer(&mut self, layer: Layer)
        ensures
            final(self)@ == stacked(old(self)@, layer),
            final(self)@ == stable_sorted(old(self)@.push(layer)),
            sorted_by_z(final(self)@),
    {
        proof {
            use_type_invariant(&*self);
            lemma_stacked_in_order(self@, layer);
            lemma_append_then_sort(self@, layer);
        }
        let slot: usize = slot_for(&self.layers, layer.z_index);
        let mut layers: Vec<Layer> = Vec::new();
        std::mem::swap(&mut self.layers, &mut layers);
        layers.insert(slot, layer);
        self.layers = layers;
    }

    /// Replaces the transform, the opacity or both of the first layer, from
    /// the bottom, whose id is `id`. A field for which `None` is given stays as
    /// it is. Where no layer has the id, nothing changes. No layer moves.
    pub fn update_layer(&mut self, id: u32, transform: Option<Affine>, opacity: Option<u32>)
        ensures
            final(self)@ == updated(old(self)@, id, transform, opacity),
            sorted_by_z(final(self)@),
    {
        proof {
            use_type_invariant(&*self);
            lemma_update_keeps_order(self@, id, transform, opacity);
        }
        match find_first(&self.layers, id) {
            Some(k) => {
                retouch(&mut self.layers, k, transform, opacity);
            },
            None => {},
        }
    }

    /// Records the composition of all layers behind what `scene` already
    /// holds: for each layer, from the bottom of the stack to the top, a
    /// group of its own, blended normally with the layer's opacity and clipped
    /// to the composition bound, with the layer's content drawn into it under
    /// the layer's transform.
    pub fn compose<'a>(&'a self, scene: &mut Vec<SceneOp<'a>>)
        ensures
            final(scene)@ == old(scene)@ + stack_ops(self@),
            sorted_by_z(self@),
    {
        proof {
            use_type_invariant(self);
            assert(self.layers@.take(0) =~= Seq::<Layer>::empty());
            assert(scene@ =~= old(scene)@ + stack_ops(self.layers@.take(0)));
        }
        let n: usize = self.layers.len();
        let mut i: usize = 0;
        while i < n
            invariant
                i <= n,
                n == self.layers@.len(),
                scene@ == old(scene)@ + stack_ops(self.layers@.take(i as int)),
            decreases n - i,
        {
            let layer = &self.layers[i];
            scene.push(
                SceneOp::PushLayer {
                    blend: Blend::Normal,
                    opacity: layer.opacity,
                    transform: None,
                    clip: ClipRect::for_composition(),
                },
            );
            scene.push(SceneOp::Append { content: &layer.content, transform: Some(layer.transform) });
            scene.push(SceneOp::PopLayer);
            proof {
                let upto = self.layers@.take(i as int + 1);
                assert(upto.drop_last() =~= self.layers@.take(i as int));
                assert(upto.last() == self.layers@[i as int]);
                assert(scene@ =~= old(scene)@ + (stack_ops(self.layers@.take(i as int))
                    + layer_ops(self.layers@[i as int])));
            }
            i += 1;
        }
        proof {
            assert(self.layers@.take(n as int) =~= self.layers@);
        }
    }
}

impl Default for Compositor {
    /// A compositor without layers.
    fn default() -> (compositor: Self)
        ensures
            compositor@ == Seq::<Layer>::empty(),
    {
        Compositor::new()
    }
}

} // verus!
