use std::sync::mpsc::{Receiver, Sender};
use std::sync::Arc;

use vstd::hash_map::StringHashMap;
use vstd::prelude::*;

use crate::asset::{Asset, AssetKind, Loaded, Polled, PrimitiveMesh, PRIMITIVE_COUNT};
use crate::channel::poll_channel;
use crate::handle::Handle;
use crate::pool::{indexed, AssetPool, PoolState};
use crate::state::{kept, ManagerState, Pending};

verus! {

/// An outstanding load: the identity reserved for it, its kind, and the
/// channel its result arrives through.
#[verifier::reject_recursive_types(M)]
#[verifier::reject_recursive_types(T)]
pub struct PendingEntry<M, T> {
    pub id: usize,
    pub kind: AssetKind,
    pub source: Receiver<Loaded<M, T>>,
}

impl<M, T> View for PendingEntry<M, T> {
    type V = Pending;

    open spec fn view(&self) -> Pending {
        Pending { id: self.id, kind: self.kind }
    }
}

/// A load to run: the loader of `kind` reads `path` with `context`, and sends
/// what it produced through `sender`.
#[verifier::reject_recursive_types(M)]
#[verifier::reject_recursive_types(T)]
pub struct LoadRequest<C, M, T> {
    pub id: usize,
    pub kind: AssetKind,
    pub path: String,
    pub context: Arc<C>,
    pub sender: Sender<Loaded<M, T>>,
}

/// Hands out handles by path, tracks the loads in flight, and serves the
/// realized assets, or each kind's fallback until an asset is realized.
#[verifier::reject_recursive_types(M)]
#[verifier::reject_recursive_types(T)]
pub struct AssetManager<C, M, T> {
    context: Arc<C>,
    meshes: AssetPool<M>,
    textures: AssetPool<T>,
    paths: StringHashMap<usize>,
    pending: Vec<PendingEntry<M, T>>,
    next_id: usize,
    primitives: Ghost<Seq<Arc<M>>>,
}

impl<C, M, T> View for AssetManager<C, M, T> {
    type V = ManagerState<M, T>;

    closed spec fn view(&self) -> ManagerState<M, T> {
        ManagerState {
            paths: self.paths@,
            next_id: self.next_id as nat,
            pending: self.pending@.map_values(|e: PendingEntry<M, T>| e@),
            meshes: self.meshes@,
            textures: self.textures@,
            primitives: self.primitives@,
        }
    }
}

impl<C, M, T> AssetManager<C, M, T> {
    /// The context handed to every load.
    pub closed spec fn spec_context(&self) -> Arc<C> {
        self.context
    }

    /// The manager's invariant.
    pub open spec fn wf(&self) -> bool {
        self@.wf()
    }

    /// A manager with no requests yet. `primitives[i]` is the procedural mesh
    /// of identity `i`, and the first one is the fallback mesh.
    pub fn new(context: Arc<C>, primitives: Vec<Arc<M>>, default_texture: Arc<T>) -> (m: Self)
        requires
            primitives@.len() >= PRIMITIVE_COUNT,
        ensures
            m.wf(),
            m.spec_context() == context,
            m@.paths == Map::<Seq<char>, usize>::empty(),
            m@.next_id == primitives@.len(),
            m@.pending == Seq::<Pending>::empty(),
            m@.meshes == (PoolState { entries: indexed(primitives@), fallback: primitives@[0] }),
            m@.textures == (PoolState {
                entries: Map::<usize, Arc<T>>::empty(),
                fallback: default_texture,
            }),
            m@.primitives == primitives@,
    {
        let ghost prims = primitives@;
        let count = primitives.len();
        let meshes = AssetPool::with_primitives(primitives);
        let textures = AssetPool::new(default_texture);
        let m = AssetManager {
            context,
            meshes,
            textures,
            paths: StringHashMap::new(),
            pending: Vec::new(),
            next_id: count,
            primitives: Ghost(prims),
        };
        proof {
            assert(m@.pending =~= Seq::<Pending>::empty());
        }
        m
    }

    fn get_new_id(&mut self) -> (id: usize)
        requires
            old(self).next_id < usize::MAX,
        ensures
            id == old(self).next_id,
            final(self).next_id == old(self).next_id + 1,
            final(self).context == old(self).context,
            final(self).meshes == old(self).meshes,
            final(self).textures == old(self).textures,
            final(self).paths == old(self).paths,
            final(self).pending == old(self).pending,
            final(self).primitives == old(self).primitives,
    {
        let id = self.next_id;
        self.next_id = self.next_id + 1;
        id
    }

    /// Requests the asset at `path` of the given kind. A path seen before
    /// yields its identity and nothing to load; a new path gets the next
    /// identity, a pending entry, and the load to run.
    pub fn request(&mut self, path: &str, kind: AssetKind) -> (r: (usize, Option<LoadRequest<C, M, T>>))
        requires
            old(self).wf(),
            old(self)@.dispatches(path@) ==> old(self)@.next_id < usize::MAX,
        ensures
            final(self).wf(),
            final(self)@ == old(self)@.after_request(path@, kind),
            final(self).spec_context() == old(self).spec_context(),
            r.0 == old(self)@.identity_for(path@),
            r.1 is Some <==> old(self)@.dispatches(path@),
            match r.1 {
                Some(job) => {
                    &&& job.id == r.0
                    &&& job.kind == kind
                    &&& job.path@ == path@
                    &&& job.context == old(self).spec_context()
                },
                None => true,
            },
    {
        let found: Option<usize> = match self.paths.get(path) {
            Some(id) => Some(*id),
            None => None,
        };
        match found {
            Some(id) => (id, None),
            None => {
                let ghost s0 = self@;
                let id = self.get_new_id();
                self.paths.insert(path.to_owned(), id);
                let (sender, source) = std::sync::mpsc::channel();
                self.pending.push(PendingEntry { id, kind, source });
                let job = LoadRequest {
                    id,
                    kind,
                    path: path.to_owned(),
                    context: self.context.clone(),
                    sender,
                };
                proof {
                    assert(self@.pending =~= s0.pending.push(Pending { id, kind }));
                    assert(self@ == s0.after_request(path@, kind));
                }
                (id, Some(job))
            },
        }
    }
    /// Requests the asset of type `K` at `path`: the handle is returned at
    /// once, with the load to run when the path is new.
    pub fn get_handle<K: Asset>(&mut self, path: &str) -> (r: (Handle<K>, Option<LoadRequest<C, M, T>>))
        requires
            old(self).wf(),
            old(self)@.dispatches(path@) ==> old(self)@.next_id < usize::MAX,
        ensures
            final(self).wf(),
            final(self).spec_context() == old(self).spec_context(),
            r.0@ == old(self)@.identity_for(path@),
            match r.1 {
                Some(job) => {
                    &&& old(self)@.dispatches(path@)
                    &&& final(self)@ == old(self)@.after_request(path@, job.kind)
                    &&& job.id == r.0@
                    &&& job.path@ == path@
                    &&& job.context == old(self).spec_context()
                },
                None => {
                    &&& !old(self)@.dispatches(path@)
                    &&& final(self)@ == old(self)@
                },
            },
    {
        let (id, job) = self.request(path, K::kind());
        (Handle::new(id), job)
    }

    /// Applies what the poll of the pending entry at `index` found: an entry
    /// whose result arrived, or whose channel closed, leaves the pending set,
    /// and a delivered asset of the entry's own kind is stored under its
    /// identity. Returns whether the entry left.
    pub fn resolve(&mut self, index: usize, outcome: Polled<Loaded<M, T>>) -> (consumed: bool)
        requires
            old(self).wf(),
            index < old(self)@.pending.len(),
        ensures
            final(self).wf(),
            final(self)@ == old(self)@.after_outcome(index as int, outcome),
            final(self).spec_context() == old(self).spec_context(),
            consumed == !(outcome is Waiting),
    {
        let ghost s0 = self@;
        let ghost out = outcome;
        proof {
            s0.lemma_outcome_keeps_wf(index as int, outcome);
        }
        match outcome {
            Polled::Waiting => false,
            Polled::Ready(loaded) => {
                let entry = self.pending.remove(index);
                match loaded {
                    Loaded::Mesh(m) => {
                        if entry.kind == AssetKind::Mesh {
                            self.meshes.insert(entry.id, m);
                        }
                    },
                    Loaded::Texture(t) => {
                        if entry.kind == AssetKind::Texture {
                            self.textures.insert(entry.id, t);
                        }
                    },
                    Loaded::Failed => {},
                }
                proof {
                    assert(self@.pending =~= s0.pending.remove(index as int));
                    assert(self@ == s0.after_outcome(index as int, out));
                }
                true
            },
            Polled::Closed => {
                let _closed = self.pending.remove(index);
                proof {
                    assert(self@.pending =~= s0.pending.remove(index as int));
                    assert(self@ == s0.after_outcome(index as int, out));
                }
                true
            },
        }
    }

    /// Polls every pending entry once without blocking, and applies what
    /// each poll found. Entries still waiting stay, in order, for the next
    /// call.
    pub fn process_pending(&mut self)
        requires
            old(self).wf(),
        ensures
            final(self).wf(),
            final(self).spec_context() == old(self).spec_context(),
            exists|outcomes: Seq<Polled<Loaded<M, T>>>|
                outcomes.len() == old(self)@.pending.len() && final(self)@ == old(self)@.after_drain(
                    outcomes,
                ),
    {
        let ghost s0 = self@;
        let ghost mut outs: Seq<Polled<Loaded<M, T>>> = Seq::empty();
        let mut i: usize = 0;
        proof {
            assert(s0.drain_prefix(outs, 0).pending =~= s0.pending);
            assert(s0.drain_prefix(outs, 0) == s0);
        }
        while i < self.pending.len()
            invariant
                s0.wf(),
                outs.len() <= s0.pending.len(),
                self@ == s0.drain_prefix(outs, outs.len()),
                self.wf(),
                self.spec_context() == old(self).spec_context(),
                s0 == old(self)@,
                i == kept(s0.pending, outs, outs.len()).len(),
                self@.pending.len() == i + (s0.pending.len() - outs.len()),
            decreases self@.pending.len() - i,
        {
            let outcome = poll_channel(&self.pending[i].source);
            let ghost o = outcome;
            let ghost j = outs.len();
            let ghost next = outs.push(o);
            proof {
                crate::state::lemma_kept_congruent(s0.pending, outs, next, j);
                s0.lemma_drain_prefix_congruent(outs, next, j);
                s0.lemma_drain_step(next, j);
                s0.lemma_drain_prefix_keeps_wf(next, j + 1);
            }
            let consumed = self.resolve(i, outcome);
            proof {
                outs = next;
            }
            if !consumed {
                i = i + 1;
            }
        }
        proof {
            assert(outs.len() == s0.pending.len());
        }
    }

    /// The texture of `handle`, or the fallback texture until it is realized.
    pub fn get_texture(&self, handle: &Handle<T>) -> (r: Arc<T>)
        ensures
            r == self@.textures.lookup(handle@),
    {
        self.textures.get(handle.id())
    }

    /// The mesh of `handle`, or the fallback mesh until it is realized.
    pub fn get_mesh(&self, handle: &Handle<M>) -> (r: Arc<M>)
        ensures
            r == self@.meshes.lookup(handle@),
    {
        self.meshes.get(handle.id())
    }

    /// The handle of a procedural mesh, realized from construction on.
    pub fn get_primitive_handle(&self, primitive: PrimitiveMesh) -> (h: Handle<M>)
        ensures
            h@ == primitive.spec_id(),
    {
        Handle::new(primitive.id())
    }

    /// The procedural mesh itself.
    pub fn get_primitive_mesh(&self, primitive: PrimitiveMesh) -> (r: Arc<M>)
        requires
            self.wf(),
        ensures
            r == self@.primitives[primitive.spec_id() as int],
            r == self@.meshes.lookup(primitive.spec_id()),
    {
        let id = primitive.id();
        proof {
            assert(self@.primitives[id as int] == self@.primitives[id as int]);
            assert(self@.meshes.entries.contains_key(id));
        }
        self.meshes.get(id)
    }

    /// Whether an identity is still free for a new path.
    pub fn can_reserve(&self) -> (r: bool)
        ensures
            r == (self@.next_id < usize::MAX),
    {
        self.next_id < usize::MAX
    }

    /// The number of loads dispatched and not yet consumed.
    pub fn pending_count(&self) -> (r: usize)
        ensures
            r == self@.pending.len(),
    {
        self.pending.len()
    }
}

} // verus!
