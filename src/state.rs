use std::sync::Arc;

use vstd::prelude::*;

use crate::asset::{AssetKind, Loaded, Polled, PRIMITIVE_COUNT};
use crate::pool::PoolState;

verus! {

/// The bookkeeping of one outstanding load.
pub struct Pending {
    pub id: usize,
    pub kind: AssetKind,
}

/// The abstract state of an asset manager.
pub struct ManagerState<M, T> {
    /// Request key to identity; at most one identity per key.
    pub paths: Map<Seq<char>, usize>,
    /// The identity the next new key will receive.
    pub next_id: nat,
    /// Loads dispatched and not yet consumed, in dispatch order.
    pub pending: Seq<Pending>,
    pub meshes: PoolState<M>,
    pub textures: PoolState<T>,
    /// The procedural meshes, held under the lowest identities.
    pub primitives: Seq<Arc<M>>,
}

/// The texture that `outcome` delivers for `entry`, if it delivers one of the
/// entry's own kind.
pub open spec fn delivered_texture<M, T>(entry: Pending, outcome: Polled<Loaded<M, T>>) -> Option<Arc<T>> {
    match outcome {
        Polled::Ready(Loaded::Texture(t)) => if entry.kind == AssetKind::Texture {
            Some(t)
        } else {
            None
        },
        _ => None,
    }
}

/// The mesh that `outcome` delivers for `entry`, if it delivers one of the
/// entry's own kind.
pub open spec fn delivered_mesh<M, T>(entry: Pending, outcome: Polled<Loaded<M, T>>) -> Option<Arc<M>> {
    match outcome {
        Polled::Ready(Loaded::Mesh(m)) => if entry.kind == AssetKind::Mesh {
            Some(m)
        } else {
            None
        },
        _ => None,
    }
}

/// `entries` after the arrivals at the first `n` positions were stored under
/// the identities at the same positions.
pub open spec fn settle<A>(
    entries: Map<usize, Arc<A>>,
    ids: Seq<usize>,
    arrived: Seq<Option<Arc<A>>>,
    n: nat,
) -> Map<usize, Arc<A>>
    decreases n,
{
    if n == 0 {
        entries
    } else {
        let prev = settle(entries, ids, arrived, (n - 1) as nat);
        match arrived[n - 1] {
            Some(a) => prev.insert(ids[n - 1], a),
            None => prev,
        }
    }
}

/// The entries among the first `n` whose poll found nothing yet, in order.
pub open spec fn kept<X>(pending: Seq<Pending>, outcomes: Seq<Polled<X>>, n: nat) -> Seq<Pending>
    decreases n,
{
    if n == 0 {
        Seq::empty()
    } else {
        let prev = kept(pending, outcomes, (n - 1) as nat);
        if outcomes[n - 1] is Waiting {
            prev.push(pending[n - 1])
        } else {
            prev
        }
    }
}

impl<M, T> ManagerState<M, T> {
    pub open spec fn pending_ids(self) -> Seq<usize> {
        self.pending.map_values(|p: Pending| p.id)
    }

    pub open spec fn is_pending(self, id: usize) -> bool {
        exists|i: int| 0 <= i < self.pending.len() && self.pending[i].id == id
    }

    /// The state's invariant.
    pub open spec fn wf(self) -> bool {
        &&& PRIMITIVE_COUNT <= self.primitives.len() <= self.next_id <= usize::MAX
        &&& forall|k: Seq<char>| #[trigger]
            self.paths.contains_key(k) ==> self.primitives.len() <= self.paths[k] < self.next_id
        &&& forall|i: int|
            0 <= i < self.pending.len() ==> {
                &&& self.primitives.len() <= #[trigger] self.pending[i].id < self.next_id
                &&& !self.meshes.entries.contains_key(self.pending[i].id)
                &&& !self.textures.entries.contains_key(self.pending[i].id)
            }
        &&& forall|i: int, j: int|
            0 <= i < j < self.pending.len() ==> #[trigger] self.pending[i].id
                != #[trigger] self.pending[j].id
        &&& forall|id: usize| #[trigger] self.meshes.entries.contains_key(id) ==> id < self.next_id
        &&& forall|id: usize| #[trigger] self.textures.entries.contains_key(id) ==> id < self.next_id
        &&& forall|id: usize| id < self.primitives.len() ==> #[trigger] self.meshes.entries.contains_key(id)
        &&& forall|i: int|
            0 <= i < self.primitives.len() ==> self.meshes.entries[i as usize] == #[trigger] self.primitives[i]
    }

    /// The identity that a request for `key` yields.
    pub open spec fn identity_for(self, key: Seq<char>) -> usize {
        if self.paths.contains_key(key) {
            self.paths[key]
        } else {
            self.next_id as usize
        }
    }

    /// Whether a request for `key` dispatches a load.
    pub open spec fn dispatches(self, key: Seq<char>) -> bool {
        !self.paths.contains_key(key)
    }

    /// The state after a request for `key` of the given kind.
    pub open spec fn after_request(self, key: Seq<char>, kind: AssetKind) -> Self {
        if self.paths.contains_key(key) {
            self
        } else {
            ManagerState {
                paths: self.paths.insert(key, self.next_id as usize),
                next_id: self.next_id + 1,
                pending: self.pending.push(Pending { id: self.next_id as usize, kind }),
                meshes: self.meshes,
                textures: self.textures,
                primitives: self.primitives,
            }
        }
    }

    /// The state after requests for each key in turn.
    pub open spec fn after_requests(self, keys: Seq<(Seq<char>, AssetKind)>) -> Self
        decreases keys.len(),
    {
        if keys.len() == 0 {
            self
        } else {
            self.after_requests(keys.drop_last()).after_request(keys.last().0, keys.last().1)
        }
    }

    pub open spec fn mesh_arrivals(self, outcomes: Seq<Polled<Loaded<M, T>>>) -> Seq<Option<Arc<M>>> {
        Seq::new(self.pending.len(), |i: int| delivered_mesh(self.pending[i], outcomes[i]))
    }

    pub open spec fn texture_arrivals(self, outcomes: Seq<Polled<Loaded<M, T>>>) -> Seq<Option<Arc<T>>> {
        Seq::new(self.pending.len(), |i: int| delivered_texture(self.pending[i], outcomes[i]))
    }

    /// The state once the outcomes of polling the first `n` pending entries
    /// (`outcomes[i]` for entry `i`) have been applied.
    pub open spec fn drain_prefix(self, outcomes: Seq<Polled<Loaded<M, T>>>, n: nat) -> Self {
        ManagerState {
            paths: self.paths,
            next_id: self.next_id,
            pending: kept(self.pending, outcomes, n) + self.pending.subrange(n as int, self.pending.len() as int),
            meshes: PoolState {
                entries: settle(self.meshes.entries, self.pending_ids(), self.mesh_arrivals(outcomes), n),
                fallback: self.meshes.fallback,
            },
            textures: PoolState {
                entries: settle(self.textures.entries, self.pending_ids(), self.texture_arrivals(outcomes), n),
                fallback: self.textures.fallback,
            },
            primitives: self.primitives,
        }
    }

    /// The state after the outcome of polling the entry at `index` was
    /// applied: an entry whose poll found something leaves the pending set,
    /// and a delivered asset of the entry's own kind is stored under its
    /// identity.
    pub open spec fn after_outcome(self, index: int, outcome: Polled<Loaded<M, T>>) -> Self {
        let entry = self.pending[index];
        ManagerState {
            paths: self.paths,
            next_id: self.next_id,
            pending: if outcome is Waiting {
                self.pending
            } else {
                self.pending.remove(index)
            },
            meshes: PoolState {
                entries: match delivered_mesh(entry, outcome) {
                    Some(m) => self.meshes.entries.insert(entry.id, m),
                    None => self.meshes.entries,
                },
                fallback: self.meshes.fallback,
            },
            textures: PoolState {
                entries: match delivered_texture(entry, outcome) {
                    Some(t) => self.textures.entries.insert(entry.id, t),
                    None => self.textures.entries,
                },
                fallback: self.textures.fallback,
            },
            primitives: self.primitives,
        }
    }

    /// The state after one drain of the pending set, where `outcomes[i]` is
    /// what the poll of entry `i` found.
    pub open spec fn after_drain(self, outcomes: Seq<Polled<Loaded<M, T>>>) -> Self {
        self.drain_prefix(outcomes, self.pending.len())
    }
}

/// Arrivals that agree on the first `n` positions settle alike.
pub proof fn lemma_settle_congruent<A>(
    entries: Map<usize, Arc<A>>,
    ids: Seq<usize>,
    a1: Seq<Option<Arc<A>>>,
    a2: Seq<Option<Arc<A>>>,
    n: nat,
)
    requires
        forall|i: int| 0 <= i < n ==> a1[i] == a2[i],
    ensures
        settle(entries, ids, a1, n) == settle(entries, ids, a2, n),
    decreases n,
{
    if n > 0 {
        lemma_settle_congruent(entries, ids, a1, a2, (n - 1) as nat);
    }
}

/// Outcomes that agree on the first `n` positions keep the same entries.
pub proof fn lemma_kept_congruent<X>(pending: Seq<Pending>, o1: Seq<Polled<X>>, o2: Seq<Polled<X>>, n: nat)
    requires
        forall|i: int| 0 <= i < n ==> o1[i] == o2[i],
    ensures
        kept(pending, o1, n) == kept(pending, o2, n),
    decreases n,
{
    if n > 0 {
        lemma_kept_congruent(pending, o1, o2, (n - 1) as nat);
    }
}

/// The kept entries are at most as many as the entries looked at.
pub proof fn lemma_kept_len<X>(pending: Seq<Pending>, outcomes: Seq<Polled<X>>, n: nat)
    ensures
        kept(pending, outcomes, n).len() <= n,
    decreases n,
{
    if n > 0 {
        lemma_kept_len(pending, outcomes, (n - 1) as nat);
    }
}

/// Each kept entry is an entry whose poll found nothing.
pub proof fn lemma_kept_from<X>(pending: Seq<Pending>, outcomes: Seq<Polled<X>>, n: nat)
    requires
        n <= pending.len(),
    ensures
        forall|k: int|
            0 <= k < kept(pending, outcomes, n).len() ==> exists|i: int|
                0 <= i < n && #[trigger] kept(pending, outcomes, n)[k] == pending[i]
                    && outcomes[i] is Waiting,
    decreases n,
{
    if n > 0 {
        lemma_kept_from(pending, outcomes, (n - 1) as nat);
        let prev = kept(pending, outcomes, (n - 1) as nat);
        let cur = kept(pending, outcomes, n);
        assert forall|k: int| 0 <= k < cur.len() implies exists|i: int|
            0 <= i < n && #[trigger] cur[k] == pending[i] && outcomes[i] is Waiting by {
            if k < prev.len() {
                assert(cur[k] == prev[k]);
                let i = choose|i: int| 0 <= i < n - 1 && prev[k] == pending[i] && outcomes[i] is Waiting;
                assert(0 <= i < n && cur[k] == pending[i] && outcomes[i] is Waiting);
            } else {
                assert(cur[k] == pending[n - 1]);
            }
        }
    }
}

/// An entry whose poll found nothing is kept.
pub proof fn lemma_kept_has<X>(pending: Seq<Pending>, outcomes: Seq<Polled<X>>, n: nat, i: int)
    requires
        0 <= i < n <= pending.len(),
        outcomes[i] is Waiting,
    ensures
        exists|k: int|
            0 <= k < kept(pending, outcomes, n).len() && #[trigger] kept(pending, outcomes, n)[k]
                == pending[i],
    decreases n,
{
    let cur = kept(pending, outcomes, n);
    if i == n - 1 {
        assert(cur[cur.len() - 1] == pending[i]);
    } else {
        lemma_kept_has(pending, outcomes, (n - 1) as nat, i);
        let prev = kept(pending, outcomes, (n - 1) as nat);
        let k = choose|k: int| 0 <= k < prev.len() && #[trigger] prev[k] == pending[i];
        assert(cur[k] == pending[i]);
    }
}

/// Settling the arrivals at distinct identities: an identity takes the asset
/// that arrived for it, and keeps its entry when none did.
pub proof fn lemma_settle_at<A>(
    entries: Map<usize, Arc<A>>,
    ids: Seq<usize>,
    arrived: Seq<Option<Arc<A>>>,
    n: nat,
    id: usize,
)
    requires
        forall|i: int, j: int| 0 <= i < j < n ==> ids[i] != ids[j],
    ensures
        forall|i: int|
            0 <= i < n && ids[i] == id && arrived[i] is Some ==> {
                &&& settle(entries, ids, arrived, n).contains_key(id)
                &&& settle(entries, ids, arrived, n)[id] == arrived[i]->0
            },
        (forall|i: int| 0 <= i < n && ids[i] == id ==> arrived[i] is None) ==> {
            &&& settle(entries, ids, arrived, n).contains_key(id) == entries.contains_key(id)
            &&& entries.contains_key(id) ==> settle(entries, ids, arrived, n)[id] == entries[id]
        },
    decreases n,
{
    if n > 0 {
        lemma_settle_at(entries, ids, arrived, (n - 1) as nat, id);
    }
}

impl<M, T> ManagerState<M, T> {
    /// One drain step: applying the outcome of the next unlooked-at entry
    /// extends the drained prefix by one.
    pub proof fn lemma_drain_step(self, outcomes: Seq<Polled<Loaded<M, T>>>, j: nat)
        requires
            j < self.pending.len(),
        ensures
            self.drain_prefix(outcomes, j).after_outcome(
                kept(self.pending, outcomes, j).len() as int,
                outcomes[j as int],
            ) == self.drain_prefix(outcomes, j + 1),
    {
        let d = self.drain_prefix(outcomes, j);
        let e = self.drain_prefix(outcomes, j + 1);
        let k = kept(self.pending, outcomes, j);
        let i = k.len() as int;
        let rest = self.pending.subrange(j as int, self.pending.len() as int);
        let next = self.pending.subrange((j + 1) as int, self.pending.len() as int);
        assert(d.pending[i] == self.pending[j as int]);
        let a = d.after_outcome(i, outcomes[j as int]);
        if outcomes[j as int] is Waiting {
            assert(a.pending =~= e.pending);
        } else {
            assert(a.pending =~= e.pending);
        }
        assert(a.meshes == e.meshes);
        assert(a.textures == e.textures);
    }

    /// Outcomes that agree on the first `n` positions drain that prefix alike.
    pub proof fn lemma_drain_prefix_congruent(
        self,
        o1: Seq<Polled<Loaded<M, T>>>,
        o2: Seq<Polled<Loaded<M, T>>>,
        n: nat,
    )
        requires
            n <= self.pending.len(),
            forall|i: int| 0 <= i < n ==> o1[i] == o2[i],
        ensures
            self.drain_prefix(o1, n) == self.drain_prefix(o2, n),
    {
        lemma_kept_congruent(self.pending, o1, o2, n);
        lemma_settle_congruent(self.meshes.entries, self.pending_ids(), self.mesh_arrivals(o1), self.mesh_arrivals(o2), n);
        lemma_settle_congruent(self.textures.entries, self.pending_ids(), self.texture_arrivals(o1), self.texture_arrivals(o2), n);
    }

    /// Applying one outcome keeps the invariant.
    pub proof fn lemma_outcome_keeps_wf(self, index: int, outcome: Polled<Loaded<M, T>>)
        requires
            self.wf(),
            0 <= index < self.pending.len(),
        ensures
            self.after_outcome(index, outcome).wf(),
    {
        let a = self.after_outcome(index, outcome);
        let entry = self.pending[index];
        if !(outcome is Waiting) {
            assert forall|i: int| 0 <= i < a.pending.len() implies {
                &&& a.primitives.len() <= #[trigger] a.pending[i].id < a.next_id
                &&& !a.meshes.entries.contains_key(a.pending[i].id)
                &&& !a.textures.entries.contains_key(a.pending[i].id)
            } by {
                if i < index {
                    assert(a.pending[i] == self.pending[i]);
                } else {
                    assert(a.pending[i] == self.pending[i + 1]);
                }
            }
            assert forall|i: int, j: int| 0 <= i < j < a.pending.len() implies #[trigger] a.pending[i].id
                != #[trigger] a.pending[j].id by {
                let si = if i < index { i } else { i + 1 };
                let sj = if j < index { j } else { j + 1 };
                assert(a.pending[i] == self.pending[si]);
                assert(a.pending[j] == self.pending[sj]);
            }
        }
        assert forall|i: int| 0 <= i < a.primitives.len() implies a.meshes.entries[i as usize]
            == #[trigger] a.primitives[i] by {
            assert(self.primitives[i] == a.primitives[i]);
            assert(entry.id != i as usize);
        }
        assert forall|id: usize| id < a.primitives.len() implies #[trigger] a.meshes.entries.contains_key(id) by {
            assert(self.meshes.entries.contains_key(id));
        }
    }

    /// Draining a prefix of the pending set keeps the invariant.
    pub proof fn lemma_drain_prefix_keeps_wf(self, outcomes: Seq<Polled<Loaded<M, T>>>, n: nat)
        requires
            self.wf(),
            n <= self.pending.len(),
        ensures
            self.drain_prefix(outcomes, n).wf(),
            self.drain_prefix(outcomes, n).pending.len() == kept(self.pending, outcomes, n).len()
                + (self.pending.len() - n),
        decreases n,
    {
        if n == 0 {
            let d = self.drain_prefix(outcomes, 0);
            assert(d.pending =~= self.pending);
            assert(d == self);
        } else {
            self.lemma_drain_prefix_keeps_wf(outcomes, (n - 1) as nat);
            lemma_kept_len(self.pending, outcomes, (n - 1) as nat);
            let d = self.drain_prefix(outcomes, (n - 1) as nat);
            let i = kept(self.pending, outcomes, (n - 1) as nat).len() as int;
            d.lemma_outcome_keeps_wf(i, outcomes[n - 1]);
            self.lemma_drain_step(outcomes, (n - 1) as nat);
        }
    }
}

} // verus!
