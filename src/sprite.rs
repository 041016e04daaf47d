use std::sync::Arc;

use vstd::prelude::*;

use crate::asset::{PrimitiveMesh, Primitives};
use crate::handle::Handle;

verus! {

/// A textured quad.
pub struct Sprite<T, M> {
    pub texture: Handle<T>,
    pub mesh: Arc<M>,
}

impl<T, M> Sprite<T, M> {
    /// A sprite showing `texture` on the procedural quad.
    pub fn new(texture: Handle<T>, primitives: &Primitives<M>) -> (s: Self)
        ensures
            s.texture@ == texture@,
            s.mesh == primitives.spec_meshes()[PrimitiveMesh::Quad.spec_id() as int],
    {
        let mesh = primitives.get_mesh(PrimitiveMesh::Quad);
        Sprite { texture, mesh }
    }
}

} // verus!
