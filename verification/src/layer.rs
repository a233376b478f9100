use vello::kurbo::Affine;
use vello::Scene;
use vstd::prelude::*;

verus! {

/// One visual element of a composition.
///
/// The identity (`id`), the drawn content and the stacking order (`z_index`) are
/// fixed when the layer is made; the transform and the opacity may be replaced
/// later through the compositor that owns the layer.
pub struct Layer {
    /// Key by which the compositor finds the layer again.
    pub id: u32,
    /// What the layer draws, in its own coordinate space.
    pub content: Scene,
    /// Maps the layer's own space into the shared composition space.
    pub transform: Affine,
    /// Blending factor of the whole layer, held as the IEEE 754 bit pattern of a
    /// single-precision number (`0x3F80_0000` is fully opaque, `0` fully
    /// transparent). The value is stored and handed on as it is: no range is
    /// enforced.
    pub opacity: u32,
    /// Stacking order: lower values lie beneath higher ones.
    pub z_index: i32,
}

impl Layer {
    /// A layer with every field taken from the arguments.
    pub fn new(id: u32, content: Scene, transform: Affine, opacity: u32, z_index: i32) -> (layer:
        Self)
        ensures
            layer == (Layer { id, content, transform, opacity, z_index }),
    {
        Self { id, content, transform, opacity, z_index }
    }

    /// The layer as it is after an update: a field for which a new value is
    /// given takes that value, every other field stays.
    pub open spec fn retouched(self, transform: Option<Affine>, opacity: Option<u32>) -> Layer {
        Layer {
            transform: match transform {
                Some(t) => t,
                None => self.transform,
            },
            opacity: match opacity {
                Some(o) => o,
                None => self.opacity,
            },
            ..self
        }
    }
}

} // verus!
