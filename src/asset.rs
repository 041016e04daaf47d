use std::sync::Arc;

use vstd::prelude::*;

verus! {

/// The closed set of asset kinds that the manager can stream.
#[derive(PartialEq, Eq, Structural, Clone, Copy, Debug)]
pub enum AssetKind {
    Texture,
    Mesh,
}

/// A type of asset that can be requested by path.
///
/// Each asset type names the kind it belongs to, which routes a request to
/// the matching loader and pool.
pub trait Asset {
    fn kind() -> AssetKind;
}

/// The number of built-in procedural meshes, which take the lowest identities.
pub const PRIMITIVE_COUNT: usize = 1;

/// The built-in procedural meshes, available without any load step.
#[derive(PartialEq, Eq, Structural, Clone, Copy, Debug)]
pub enum PrimitiveMesh {
    Quad,
}

impl PrimitiveMesh {
    /// The reserved identity of this primitive.
    pub open spec fn spec_id(self) -> usize {
        match self {
            PrimitiveMesh::Quad => 0,
        }
    }

    /// The reserved identity of this primitive.
    pub fn id(self) -> (r: usize)
        ensures
            r == self.spec_id(),
            r < PRIMITIVE_COUNT,
    {
        match self {
            PrimitiveMesh::Quad => 0,
        }
    }
}

/// The procedural meshes, one per `PrimitiveMesh`, indexed by identity.
pub struct Primitives<M> {
    meshes: Vec<Arc<M>>,
}

impl<M> Primitives<M> {
    /// One mesh per primitive.
    #[verifier::type_invariant]
    spec fn one_per_primitive(&self) -> bool {
        self.meshes@.len() == PRIMITIVE_COUNT
    }

    /// The meshes, by identity.
    pub closed spec fn spec_meshes(&self) -> Seq<Arc<M>> {
        self.meshes@
    }

    /// The set made of the quad.
    pub fn new(quad: Arc<M>) -> (p: Self)
        ensures
            p.spec_meshes() == seq![quad],
            p.spec_meshes().len() == PRIMITIVE_COUNT,
    {
        let mut meshes: Vec<Arc<M>> = Vec::new();
        meshes.push(quad);
        Primitives { meshes }
    }

    /// The mesh of `primitive`.
    pub fn get_mesh(&self, primitive: PrimitiveMesh) -> (r: Arc<M>)
        ensures
            r == self.spec_meshes()[primitive.spec_id() as int],
    {
        proof {
            use_type_invariant(self);
        }
        self.meshes[primitive.id()].clone()
    }
}

/// What a loader delivers through a completion channel.
pub enum Loaded<M, T> {
    Mesh(Arc<M>),
    Texture(Arc<T>),
    /// The load did not produce an asset (missing file, decode error).
    Failed,
}

/// The outcome of one non-blocking poll of a completion channel.
pub enum Polled<X> {
    /// Nothing has arrived yet.
    Waiting,
    Ready(X),
    /// The sending side is gone without a value.
    Closed,
}

} // verus!
