use std::sync::Arc;

use vstd::prelude::*;

verus! {

/// The entities of a scene, with the context they were created in.
pub struct Scene<C, E> {
    context: Arc<C>,
    pub entities: Vec<E>,
}

impl<C, E> Scene<C, E> {
    /// The scene's entities, in order of creation.
    pub closed spec fn spec_entities(&self) -> Seq<E> {
        self.entities@
    }

    /// The context the scene's entities are created in.
    pub closed spec fn spec_context(&self) -> Arc<C> {
        self.context
    }

    /// An empty scene.
    pub fn new(context: Arc<C>) -> (s: Self)
        ensures
            s.spec_entities() == Seq::<E>::empty(),
            s.spec_context() == context,
    {
        Scene { context, entities: Vec::new() }
    }

    /// The context new entities are created in.
    pub fn context(&self) -> (r: Arc<C>)
        ensures
            r == self.spec_context(),
    {
        self.context.clone()
    }

    /// Adds an entity, made by the caller from its transform and handles,
    /// after the existing ones.
    pub fn create_entity(&mut self, entity: E)
        ensures
            final(self).spec_entities() == old(self).spec_entities().push(entity),
            final(self).spec_context() == old(self).spec_context(),
    {
        self.entities.push(entity);
    }
}

} // verus!
