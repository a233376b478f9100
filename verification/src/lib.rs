//! A small layer compositor for a vector-graphics renderer.
//!
//! A [`compositor::Compositor`] owns a stack of [`layer::Layer`]s. Each layer
//! has drawn content, a transform, an opacity and a z-index. Layers are added
//! one at a time and kept sorted by z-index, ties in order of arrival; the
//! transform and the opacity of a layer can be replaced by id; and once per
//! frame the stack is composed, from the bottom up, into a list of
//! [`scene::SceneOp`]s that a renderer carries out one by one.
//!
//! The library holds no floating-point number. A transform is carried as the
//! renderer's own `Affine`, unread; an opacity is carried as the bit pattern of
//! a single-precision number; the clip bound has integer corners.
//!
//! * [`layer`]: the layer and what an update does to one.
//! * [`order`]: the stacking order, where a new layer goes, and the proof
//!   that adding layers one by one sorts them stably.
//! * [`update`]: finding a layer by id and what an update does to the stack.
//! * [`scene`]: the recorded operations and what a composition consists of.
//! * [`compositor`]: the compositor itself.
//! * [`vello_types`]: the renderer's types that the library carries.

pub mod vello_types;
pub mod layer;
pub mod order;
pub mod update;
pub mod scene;
pub mod compositor;
