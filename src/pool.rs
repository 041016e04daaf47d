use std::collections::HashMap;
use std::sync::Arc;

use vstd::prelude::*;

verus! {

/// The abstract contents of a pool: realized assets by identity, and the
/// fallback served for every identity that has none.
pub struct PoolState<A> {
    pub entries: Map<usize, Arc<A>>,
    pub fallback: Arc<A>,
}

impl<A> PoolState<A> {
    /// What a lookup of `id` yields: the stored asset, else the fallback.
    pub open spec fn lookup(self, id: usize) -> Arc<A> {
        if self.entries.contains_key(id) {
            self.entries[id]
        } else {
            self.fallback
        }
    }
}

/// The map that sends each position of `s` to the element there.
pub open spec fn indexed<A>(s: Seq<Arc<A>>) -> Map<usize, Arc<A>> {
    Map::new(|i: usize| (i as int) < s.len(), |i: usize| s[i as int])
}

/// The realized assets of one kind, keyed by identity, with a fallback asset
/// that stands for every identity that has none.
pub struct AssetPool<A> {
    assets: HashMap<usize, Arc<A>>,
    default: Arc<A>,
}

impl<A> View for AssetPool<A> {
    type V = PoolState<A>;

    closed spec fn view(&self) -> PoolState<A> {
        PoolState { entries: self.assets@, fallback: self.default }
    }
}

impl<A> AssetPool<A> {
    /// An empty pool that serves `default` for every identity.
    pub fn new(default: Arc<A>) -> (p: Self)
        ensures
            p@.entries == Map::<usize, Arc<A>>::empty(),
            p@.fallback == default,
    {
        AssetPool { assets: HashMap::new(), default }
    }

    /// A pool that holds `primitives[i]` under identity `i`, and serves the
    /// first of them as its fallback.
    pub fn with_primitives(primitives: Vec<Arc<A>>) -> (p: Self)
        requires
            primitives@.len() >= 1,
        ensures
            p@.entries == indexed(primitives@),
            p@.fallback == primitives@[0],
    {
        let mut assets: HashMap<usize, Arc<A>> = HashMap::new();
        let mut i: usize = 0;
        while i < primitives.len()
            invariant
                i <= primitives@.len(),
                assets@ == indexed(primitives@.subrange(0, i as int)),
            decreases primitives@.len() - i,
        {
            assets.insert(i, primitives[i].clone());
            proof {
                assert(assets@ =~= indexed(primitives@.subrange(0, i + 1)));
            }
            i = i + 1;
        }
        proof {
            assert(primitives@.subrange(0, i as int) =~= primitives@);
        }
        AssetPool { assets, default: primitives[0].clone() }
    }

    /// The asset stored for `id`, or the fallback when there is none.
    pub fn get(&self, id: usize) -> (r: Arc<A>)
        ensures
            r == self@.lookup(id),
            !self@.entries.contains_key(id) ==> r == self@.fallback,
    {
        match self.assets.get(&id) {
            Some(asset) => asset.clone(),
            None => self.default.clone(),
        }
    }

    /// Records `asset` as the realized asset of `id`, replacing any earlier one.
    pub fn insert(&mut self, id: usize, asset: Arc<A>)
        ensures
            final(self)@.entries == old(self)@.entries.insert(id, asset),
            final(self)@.fallback == old(self)@.fallback,
    {
        self.assets.insert(id, asset);
    }

    /// The number of identities that have a realized asset.
    pub fn len(&self) -> (r: usize)
        ensures
            r == self@.entries.len(),
    {
        self.assets.len()
    }
}

} // verus!
