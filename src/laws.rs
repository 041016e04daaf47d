use std::sync::Arc;

use vstd::prelude::*;

use crate::asset::{AssetKind, Loaded, Polled};
use crate::state::{
    delivered_mesh, delivered_texture, kept, lemma_kept_from, lemma_kept_has, lemma_settle_at,
    settle, ManagerState,
};

verus! {

/// Later requests never change the identity of a key already in the table.
proof fn lemma_requests_keep_paths<M, T>(
    s: ManagerState<M, T>,
    keys: Seq<(Seq<char>, AssetKind)>,
    key: Seq<char>,
)
    requires
        s.paths.contains_key(key),
    ensures
        s.after_requests(keys).paths.contains_key(key),
        s.after_requests(keys).paths[key] == s.paths[key],
    decreases keys.len(),
{
    if keys.len() > 0 {
        lemma_requests_keep_paths(s, keys.drop_last(), key);
    }
}

/// A request keeps the invariant, given a free identity for a new key.
pub proof fn lemma_request_keeps_wf<M, T>(s: ManagerState<M, T>, key: Seq<char>, kind: AssetKind)
    requires
        s.wf(),
        s.dispatches(key) ==> s.next_id < usize::MAX,
    ensures
        s.after_request(key, kind).wf(),
{
    let a = s.after_request(key, kind);
    if s.dispatches(key) {
        assert forall|i: int| 0 <= i < a.pending.len() implies {
            &&& a.primitives.len() <= #[trigger] a.pending[i].id < a.next_id
            &&& !a.meshes.entries.contains_key(a.pending[i].id)
            &&& !a.textures.entries.contains_key(a.pending[i].id)
        } by {
            if i < s.pending.len() {
                assert(a.pending[i] == s.pending[i]);
            }
        }
        assert forall|i: int, j: int| 0 <= i < j < a.pending.len() implies #[trigger] a.pending[i].id
            != #[trigger] a.pending[j].id by {
            assert(a.pending[i] == s.pending[i]);
            if j < s.pending.len() {
                assert(a.pending[j] == s.pending[j]);
            }
        }
    }
}

/// Dedup: once `key` has been requested, later requests of any keys leave
/// its identity as it was, and a repeated request for it yields that same
/// identity, dispatches no second load and changes nothing.
pub proof fn lemma_request_dedup<M, T>(
    s: ManagerState<M, T>,
    key: Seq<char>,
    kind: AssetKind,
    later: Seq<(Seq<char>, AssetKind)>,
    again: AssetKind,
)
    ensures
        ({
            let s2 = s.after_request(key, kind).after_requests(later);
            &&& s2.identity_for(key) == s.identity_for(key)
            &&& !s2.dispatches(key)
            &&& s2.after_request(key, again) == s2
        }),
{
    let s1 = s.after_request(key, kind);
    assert(s1.paths.contains_key(key) && s1.paths[key] == s.identity_for(key));
    lemma_requests_keep_paths(s1, later, key);
}

/// A pending identity reads as the fallback of either pool.
pub proof fn lemma_pending_reads_fallback<M, T>(s: ManagerState<M, T>, id: usize)
    requires
        s.wf(),
        s.is_pending(id),
    ensures
        s.meshes.lookup(id) == s.meshes.fallback,
        s.textures.lookup(id) == s.textures.fallback,
{
    let i = choose|i: int| 0 <= i < s.pending.len() && s.pending[i].id == id;
    assert(!s.meshes.entries.contains_key(s.pending[i].id));
}

/// Default before ready: right after a new key is requested, its identity
/// is pending and reads as the fallback of either kind.
pub proof fn lemma_fresh_request_reads_fallback<M, T>(
    s: ManagerState<M, T>,
    key: Seq<char>,
    kind: AssetKind,
)
    requires
        s.wf(),
        s.dispatches(key),
        s.next_id < usize::MAX,
    ensures
        ({
            let s1 = s.after_request(key, kind);
            let id = s.identity_for(key);
            &&& s1.wf()
            &&& s1.is_pending(id)
            &&& s1.meshes.lookup(id) == s1.meshes.fallback
            &&& s1.textures.lookup(id) == s1.textures.fallback
        }),
{
    let s1 = s.after_request(key, kind);
    lemma_request_keeps_wf(s, key, kind);
    assert(s1.pending[s.pending.len() as int].id == s.identity_for(key));
    lemma_pending_reads_fallback(s1, s.identity_for(key));
}

/// Resolution: an entry whose poll found something leaves the pending set,
/// and an asset it delivered of its own kind is then what its identity reads.
pub proof fn lemma_drain_resolves<M, T>(
    s: ManagerState<M, T>,
    outcomes: Seq<Polled<Loaded<M, T>>>,
    i: int,
)
    requires
        s.wf(),
        outcomes.len() == s.pending.len(),
        0 <= i < s.pending.len(),
    ensures
        ({
            let d = s.after_drain(outcomes);
            let id = s.pending[i].id;
            &&& d.wf()
            &&& !(outcomes[i] is Waiting) ==> !d.is_pending(id)
            &&& delivered_texture(s.pending[i], outcomes[i]) is Some ==> {
                &&& d.textures.entries.contains_key(id)
                &&& d.textures.entries[id] == delivered_texture(s.pending[i], outcomes[i])->0
                &&& d.textures.lookup(id) == delivered_texture(s.pending[i], outcomes[i])->0
            }
            &&& delivered_mesh(s.pending[i], outcomes[i]) is Some ==> {
                &&& d.meshes.entries.contains_key(id)
                &&& d.meshes.entries[id] == delivered_mesh(s.pending[i], outcomes[i])->0
                &&& d.meshes.lookup(id) == delivered_mesh(s.pending[i], outcomes[i])->0
            }
        }),
{
    let n = s.pending.len();
    let d = s.after_drain(outcomes);
    let id = s.pending[i].id;
    s.lemma_drain_prefix_keeps_wf(outcomes, n);
    let ids = s.pending_ids();
    assert(ids[i] == id);
    assert forall|a: int, b: int| 0 <= a < b < n implies ids[a] != ids[b] by {
        assert(s.pending[a].id != s.pending[b].id);
    }
    lemma_settle_at(s.textures.entries, ids, s.texture_arrivals(outcomes), n, id);
    lemma_settle_at(s.meshes.entries, ids, s.mesh_arrivals(outcomes), n, id);
    assert(s.texture_arrivals(outcomes)[i] == delivered_texture(s.pending[i], outcomes[i]));
    assert(s.mesh_arrivals(outcomes)[i] == delivered_mesh(s.pending[i], outcomes[i]));
    if !(outcomes[i] is Waiting) {
        let k = kept(s.pending, outcomes, n);
        lemma_kept_from(s.pending, outcomes, n);
        assert(d.pending =~= k);
        if d.is_pending(id) {
            let x = choose|x: int| 0 <= x < d.pending.len() && d.pending[x].id == id;
            assert(k[x] == d.pending[x]);
            let y = choose|y: int| 0 <= y < n && #[trigger] k[x] == s.pending[y] && outcomes[y] is Waiting;
            assert(s.pending[y].id == s.pending[i].id);
            assert(y == i);
        }
    }
}

/// Realized assets stay: an identity with a realized asset keeps it through
/// any later drain and any later request.
pub proof fn lemma_realized_stays<M, T>(
    s: ManagerState<M, T>,
    id: usize,
    outcomes: Seq<Polled<Loaded<M, T>>>,
    key: Seq<char>,
    kind: AssetKind,
)
    requires
        s.wf(),
        outcomes.len() == s.pending.len(),
    ensures
        s.textures.entries.contains_key(id) ==> {
            &&& s.after_drain(outcomes).textures.entries.contains_key(id)
            &&& s.after_drain(outcomes).textures.entries[id] == s.textures.entries[id]
        },
        s.meshes.entries.contains_key(id) ==> {
            &&& s.after_drain(outcomes).meshes.entries.contains_key(id)
            &&& s.after_drain(outcomes).meshes.entries[id] == s.meshes.entries[id]
        },
        s.after_request(key, kind).textures == s.textures,
        s.after_request(key, kind).meshes == s.meshes,
{
    let n = s.pending.len();
    let ids = s.pending_ids();
    assert forall|a: int, b: int| 0 <= a < b < n implies ids[a] != ids[b] by {
        assert(s.pending[a].id != s.pending[b].id);
    }
    lemma_settle_at(s.textures.entries, ids, s.texture_arrivals(outcomes), n, id);
    lemma_settle_at(s.meshes.entries, ids, s.mesh_arrivals(outcomes), n, id);
    if s.textures.entries.contains_key(id) || s.meshes.entries.contains_key(id) {
        assert forall|i: int| 0 <= i < n && ids[i] == id implies s.texture_arrivals(outcomes)[i] is None
            && s.mesh_arrivals(outcomes)[i] is None by {
            assert(!s.textures.entries.contains_key(s.pending[i].id));
            assert(!s.meshes.entries.contains_key(s.pending[i].id));
        }
    }
}

/// Arrivals that are all empty settle nothing.
proof fn lemma_settle_none<A>(
    entries: Map<usize, Arc<A>>,
    ids: Seq<usize>,
    arrived: Seq<Option<Arc<A>>>,
    n: nat,
)
    requires
        forall|i: int| 0 <= i < n ==> arrived[i] is None,
    ensures
        settle(entries, ids, arrived, n) == entries,
    decreases n,
{
    if n > 0 {
        lemma_settle_none(entries, ids, arrived, (n - 1) as nat);
    }
}

/// Polls that all find nothing keep every entry, in order.
proof fn lemma_kept_all<M, T>(
    pending: Seq<crate::state::Pending>,
    outcomes: Seq<Polled<Loaded<M, T>>>,
    n: nat,
)
    requires
        n <= pending.len(),
        forall|i: int| 0 <= i < n ==> outcomes[i] is Waiting,
    ensures
        kept(pending, outcomes, n) == pending.subrange(0, n as int),
    decreases n,
{
    if n > 0 {
        lemma_kept_all(pending, outcomes, (n - 1) as nat);
        assert(kept(pending, outcomes, n) =~= pending.subrange(0, n as int));
    }
}

/// Idempotent draining: a drain in which no poll finds anything leaves the
/// pools, the pending set and everything else as they were.
pub proof fn lemma_quiet_drain<M, T>(s: ManagerState<M, T>, outcomes: Seq<Polled<Loaded<M, T>>>)
    requires
        outcomes.len() == s.pending.len(),
        forall|i: int| 0 <= i < outcomes.len() ==> #[trigger] outcomes[i] is Waiting,
    ensures
        s.after_drain(outcomes) == s,
{
    let n = s.pending.len();
    lemma_kept_all(s.pending, outcomes, n);
    lemma_settle_none(s.textures.entries, s.pending_ids(), s.texture_arrivals(outcomes), n);
    lemma_settle_none(s.meshes.entries, s.pending_ids(), s.mesh_arrivals(outcomes), n);
    assert(s.after_drain(outcomes).pending =~= s.pending);
}

/// Whether the texture `a` arrives for the entry of `id` within two drains:
/// in the first drain (`first`), or else in the second (`second`), the
/// entry having found nothing in the first.
pub open spec fn texture_arrives_within<M, T>(
    s: ManagerState<M, T>,
    id: usize,
    a: Arc<T>,
    first: Seq<Polled<Loaded<M, T>>>,
    second: Seq<Polled<Loaded<M, T>>>,
) -> bool {
    let s1 = s.after_drain(first);
    ||| forall|i: int|
        0 <= i < s.pending.len() && #[trigger] s.pending[i].id == id ==> first[i]
            == Polled::<Loaded<M, T>>::Ready(Loaded::Texture(a))
    ||| {
        &&& forall|i: int|
            0 <= i < s.pending.len() && #[trigger] s.pending[i].id == id ==> first[i] is Waiting
        &&& forall|k: int|
            0 <= k < s1.pending.len() && #[trigger] s1.pending[k].id == id ==> second[k]
                == Polled::<Loaded<M, T>>::Ready(Loaded::Texture(a))
    }
}

/// The texture delivered for the pending entry at `i` of `s` is what its
/// identity reads after two drains, whichever of the two delivered it.
proof fn lemma_arrival_within_two<M, T>(
    s: ManagerState<M, T>,
    i: int,
    a: Arc<T>,
    first: Seq<Polled<Loaded<M, T>>>,
    second: Seq<Polled<Loaded<M, T>>>,
)
    requires
        s.wf(),
        0 <= i < s.pending.len(),
        s.pending[i].kind == AssetKind::Texture,
        first.len() == s.pending.len(),
        second.len() == s.after_drain(first).pending.len(),
        texture_arrives_within(s, s.pending[i].id, a, first, second),
    ensures
        s.after_drain(first).after_drain(second).textures.lookup(s.pending[i].id) == a,
{
    let id = s.pending[i].id;
    let s1 = s.after_drain(first);
    lemma_drain_resolves(s, first, i);
    if first[i] == Polled::<Loaded<M, T>>::Ready(Loaded::Texture(a)) {
        lemma_realized_stays(s1, id, second, Seq::empty(), AssetKind::Texture);
    } else {
        assert(s.pending[i].id == id);
        let n = s.pending.len();
        lemma_kept_has(s.pending, first, n, i);
        let k = choose|k: int|
            0 <= k < kept(s.pending, first, n).len() && #[trigger] kept(s.pending, first, n)[k]
                == s.pending[i];
        assert(s1.pending[k] == kept(s.pending, first, n)[k]);
        assert(s1.pending[k].id == id);
        lemma_drain_resolves(s1, second, k);
    }
}

/// Independence: two distinct new keys requested as textures get distinct
/// identities, and each reads as its own delivered texture once both have
/// arrived, whichever arrived first.
pub proof fn lemma_independence<M, T>(
    s: ManagerState<M, T>,
    k1: Seq<char>,
    k2: Seq<char>,
    a1: Arc<T>,
    a2: Arc<T>,
    first: Seq<Polled<Loaded<M, T>>>,
    second: Seq<Polled<Loaded<M, T>>>,
)
    requires
        s.wf(),
        k1 != k2,
        s.dispatches(k1),
        s.dispatches(k2),
        s.next_id + 2 <= usize::MAX,
        ({
            let s1 = s.after_request(k1, AssetKind::Texture);
            let s2 = s1.after_request(k2, AssetKind::Texture);
            &&& first.len() == s2.pending.len()
            &&& second.len() == s2.after_drain(first).pending.len()
            &&& texture_arrives_within(s2, s.identity_for(k1), a1, first, second)
            &&& texture_arrives_within(s2, s1.identity_for(k2), a2, first, second)
        }),
    ensures
        ({
            let s1 = s.after_request(k1, AssetKind::Texture);
            let s2 = s1.after_request(k2, AssetKind::Texture);
            let done = s2.after_drain(first).after_drain(second);
            &&& s.identity_for(k1) != s1.identity_for(k2)
            &&& done.textures.lookup(s.identity_for(k1)) == a1
            &&& done.textures.lookup(s1.identity_for(k2)) == a2
        }),
{
    let s1 = s.after_request(k1, AssetKind::Texture);
    let s2 = s1.after_request(k2, AssetKind::Texture);
    lemma_request_keeps_wf(s, k1, AssetKind::Texture);
    lemma_request_keeps_wf(s1, k2, AssetKind::Texture);
    let p = s.pending.len() as int;
    assert(s2.pending[p].id == s.identity_for(k1));
    assert(s2.pending[p + 1].id == s1.identity_for(k2));
    lemma_arrival_within_two(s2, p, a1, first, second);
    lemma_arrival_within_two(s2, p + 1, a2, first, second);
}

} // verus!
