//! The operations that a composition records, in the order in which a renderer
//! is to carry them out.

use crate::layer::Layer;
use crate::order::sorted_by_z;
use vello::kurbo::Affine;
use vello::Scene;
use vstd::prelude::*;

verus! {

/// Edge length of the square, anchored at the origin of the composition space,
/// to which every group is clipped.
pub const CLIP_EXTENT: i32 = 1000;

/// How a group is mixed into what lies beneath it.
#[derive(Clone, Copy, Debug, PartialEq, Eq, Structural)]
pub enum Blend {
    /// Plain source-over, not isolated: the group covers its backdrop in
    /// proportion to its opacity.
    Normal,
}

/// An axis-aligned rectangle in composition space, from `(x0, y0)` to
/// `(x1, y1)`.
#[derive(Clone, Copy, Debug, PartialEq, Eq, Structural)]
pub struct ClipRect {
    pub x0: i32,
    pub y0: i32,
    pub x1: i32,
    pub y1: i32,
}

impl ClipRect {
    /// The bound to which the compositor clips every group.
    pub open spec fn composition() -> ClipRect {
        ClipRect { x0: 0, y0: 0, x1: CLIP_EXTENT, y1: CLIP_EXTENT }
    }

    /// The bound to which the compositor clips every group: the square from
    /// the origin to `(CLIP_EXTENT, CLIP_EXTENT)`.
    pub fn for_composition() -> (clip: ClipRect)
        ensures
            clip == ClipRect::composition(),
    {
        ClipRect { x0: 0, y0: 0, x1: CLIP_EXTENT, y1: CLIP_EXTENT }
    }
}

/// One step of a recorded composition.
pub enum SceneOp<'a> {
    /// Open a blending group. What is drawn until the matching `PopLayer` is
    /// clipped to `clip` and then blended as a whole into what lies beneath.
    PushLayer {
        blend: Blend,
        /// Blending factor of the group, as the bit pattern of a
        /// single-precision number.
        opacity: u32,
        /// Transform of the clip shape; `None` leaves it where it is.
        transform: Option<Affine>,
        clip: ClipRect,
    },
    /// Draw `content` into the open group, every transform in it preceded by
    /// `transform`.
    Append { content: &'a Scene, transform: Option<Affine> },
    /// Close the group opened last.
    PopLayer,
}

/// The group of one layer: opened with the layer's opacity, the layer's
/// content drawn under the layer's transform, closed.
pub open spec fn layer_ops<'a>(layer: Layer) -> Seq<SceneOp<'a>> {
    seq![
        SceneOp::PushLayer {
            blend: Blend::Normal,
            opacity: layer.opacity,
            transform: None,
            clip: ClipRect::composition(),
        },
        SceneOp::Append { content: &layer.content, transform: Some(layer.transform) },
        SceneOp::PopLayer,
    ]
}

/// The groups of all layers of `s`, from the first to the last.
pub open spec fn stack_ops<'a>(s: Seq<Layer>) -> Seq<SceneOp<'a>>
    decreases s.len(),
{
    if s.len() == 0 {
        Seq::empty()
    } else {
        stack_ops(s.drop_last()) + layer_ops(s.last())
    }
}

/// A composition holds three operations for each layer, in the order of the
/// layers: the group of the layer at position `i` is opened at position
/// `3 * i` with that layer's opacity, the layer's content follows under the
/// layer's transform, and the group is closed at position `3 * i + 2`.
pub proof fn lemma_stack_ops_by_layer(s: Seq<Layer>)
    ensures
        stack_ops(s).len() == 3 * s.len(),
        forall|i: int|
            0 <= i < s.len() ==> {
                &&& #[trigger] stack_ops(s)[3 * i] == SceneOp::PushLayer {
                    blend: Blend::Normal,
                    opacity: s[i].opacity,
                    transform: None,
                    clip: ClipRect::composition(),
                }
                &&& stack_ops(s)[3 * i + 1] == SceneOp::Append {
                    content: &s[i].content,
                    transform: Some(s[i].transform),
                }
                &&& stack_ops(s)[3 * i + 2] == SceneOp::PopLayer
            },
    decreases s.len(),
{
    if s.len() > 0 {
        let front = s.drop_last();
        lemma_stack_ops_by_layer(front);
        let ops = stack_ops(s);
        assert forall|i: int| 0 <= i < s.len() implies {
            &&& #[trigger] ops[3 * i] == layer_ops(s[i])[0]
            &&& ops[3 * i + 1] == layer_ops(s[i])[1]
            &&& ops[3 * i + 2] == layer_ops(s[i])[2]
        } by {
            if i < front.len() {
                assert(front[i] == s[i]);
                assert(ops[3 * i] == stack_ops(front)[3 * i]);
            }
        }
    }
}

/// In a stack that is in order, the group of a layer is recorded whole before
/// the group of any layer with a greater z-index is begun: it is closed at
/// position `3 * i + 2`, the other is opened at position `3 * j`, further on.
pub proof fn lemma_lower_layer_first(s: Seq<Layer>, i: int, j: int)
    requires
        sorted_by_z(s),
        0 <= i < s.len(),
        0 <= j < s.len(),
        s[i].z_index < s[j].z_index,
    ensures
        i < j,
        3 * i + 2 < 3 * j < stack_ops(s).len(),
        stack_ops(s)[3 * i + 2] == SceneOp::PopLayer,
        stack_ops(s)[3 * j] == (SceneOp::PushLayer {
            blend: Blend::Normal,
            opacity: s[j].opacity,
            transform: None,
            clip: ClipRect::composition(),
        }),
{
    lemma_stack_ops_by_layer(s);
    if j <= i {
        assert(s[j].z_index <= s[i].z_index);
    }
    assert(stack_ops(s)[3 * i] == layer_ops(s[i])[0]);
    assert(stack_ops(s)[3 * j] == layer_ops(s[j])[0]);
}

/// Composing is a function of the layers alone. Two runs over the same
/// layers append the same operations, in the same order, whatever the two
/// accumulators held before; into accumulators that hold the same, they leave
/// the same.
pub proof fn lemma_compose_repeatable<'a>(
    s: Seq<Layer>,
    first: Seq<SceneOp<'a>>,
    second: Seq<SceneOp<'a>>,
)
    ensures
        (first + stack_ops(s)).len() == first.len() + 3 * s.len(),
        (second + stack_ops(s)).len() == second.len() + 3 * s.len(),
        (first + stack_ops(s)).skip(first.len() as int) == (second + stack_ops(s)).skip(
            second.len() as int,
        ),
        first == second ==> first + stack_ops(s) == second + stack_ops(s),
{
    lemma_stack_ops_by_layer(s);
    let ops: Seq<SceneOp<'a>> = stack_ops(s);
    assert((first + ops).skip(first.len() as int) =~= ops);
    assert((second + ops).skip(second.len() as int) =~= ops);
}

} // verus!
