use vstd::prelude::*;

verus! {

/// A typed, copyable reference to an asset slot.
///
/// A handle carries an integer identity and nothing else: the type
/// parameter only tells at compile time which pool the identity refers to.
pub struct Handle<K> {
    pub asset_id: usize,
    marker: core::marker::PhantomData<K>,
}

impl<K> View for Handle<K> {
    type V = usize;

    closed spec fn view(&self) -> usize {
        self.asset_id
    }
}

impl<K> Handle<K> {
    /// Builds the handle of the given identity.
    pub fn new(asset_id: usize) -> (h: Self)
        ensures
            h@ == asset_id,
    {
        Handle { asset_id, marker: core::marker::PhantomData }
    }

    /// The identity this handle refers to.
    pub fn id(&self) -> (r: usize)
        ensures
            r == self@,
    {
        self.asset_id
    }
}

impl<K> Clone for Handle<K> {
    fn clone(&self) -> (r: Self)
        ensures
            r@ == self@,
    {
        Handle::new(self.asset_id)
    }
}

impl<K> Copy for Handle<K> {
}

impl<K> PartialEq for Handle<K> {
    fn eq(&self, other: &Self) -> (r: bool) {
        self.asset_id == other.asset_id
    }
}

impl<K> vstd::std_specs::cmp::PartialEqSpecImpl for Handle<K> {
    open spec fn obeys_eq_spec() -> bool {
        true
    }

    open spec fn eq_spec(&self, other: &Self) -> bool {
        self@ == other@
    }
}

impl<K> Eq for Handle<K> {
}

} // verus!
