//! The orchestrator's authoritative state: the node registry, the backend
//! registry, the key lock table and the event log, together with the
//! well-formedness invariant every operation preserves. The invariant
//! carries the core exclusivity guarantee: one lock row per `(cluster, key)`,
//! and a lock row is present only while its backend is non-terminal.

use vstd::prelude::*;
use crate::events::Event;
use crate::types::{BackendStatus, ExecutorConfig, NodeStatus};

verus! {

/// A worker node. Identity is `(cluster, name)`; `id` is the unique handle
/// the rest of the state refers to it by.
#[derive(Clone, PartialEq, Eq, Debug)]
pub struct Drone {
    pub id: u64,
    pub cluster: String,
    pub name: String,
    pub controller: Option<String>,
    pub plane_version: String,
    pub plane_hash: String,
    pub status: NodeStatus,
    pub last_heartbeat: u64,
    pub drained: bool,
}

/// One scheduled or running instance of a client workload, owned by exactly
/// one drone for its whole life.
#[derive(Clone, PartialEq, Eq, Debug)]
pub struct Backend {
    pub id: u64,
    pub cluster: String,
    pub drone: u64,
    pub status: BackendStatus,
    pub last_status_time: u64,
    pub last_keepalive: u64,
    pub expiration_time: Option<u64>,
    pub allowed_idle_seconds: Option<u64>,
    pub executable: ExecutorConfig,
}

/// A row of the key lock table: `(cluster, key)` bound to the backend that
/// holds it, with the tag that disambiguates sessions.
#[derive(Clone, PartialEq, Eq, Debug)]
pub struct LockRow {
    pub cluster: String,
    pub key: String,
    pub backend: u64,
    pub tag: String,
}

/// The whole orchestrator state, mutated only through the operations of
/// this crate, each of which is one atomic transaction.
pub struct Controller {
    pub default_cluster: Option<String>,
    /// A drone whose last heartbeat is older than this many seconds is
    /// considered stale and not eligible for placement.
    pub heartbeat_timeout_seconds: u64,
    pub drones: Vec<Drone>,
    pub backends: Vec<Backend>,
    pub locks: Vec<LockRow>,
    pub events: Vec<Event>,
    pub next_backend_id: u64,
    pub next_drone_id: u64,
    pub next_event_id: u64,
}

/// No two backends share an id.
pub open spec fn unique_backend_ids(bs: Seq<Backend>) -> bool {
    forall|i: int, j: int|
        0 <= i < bs.len() && 0 <= j < bs.len() && i != j ==> (#[trigger] bs[i]).id != (
        #[trigger] bs[j]).id
}

/// No two drones share an id.
pub open spec fn unique_drone_ids(ds: Seq<Drone>) -> bool {
    forall|i: int, j: int|
        0 <= i < ds.len() && 0 <= j < ds.len() && i != j ==> (#[trigger] ds[i]).id != (
        #[trigger] ds[j]).id
}

/// Whether a lock row is for the pair `(c, k)`.
pub open spec fn lock_matches(l: LockRow, c: Seq<char>, k: Seq<char>) -> bool {
    l.cluster@ == c && l.key@ == k
}

/// At most one lock row per `(cluster, key)`.
pub open spec fn unique_lock_keys(ls: Seq<LockRow>) -> bool {
    forall|i: int, j: int|
        0 <= i < ls.len() && 0 <= j < ls.len() && i != j ==> !((#[trigger] ls[i]).cluster@ == (
        #[trigger] ls[j]).cluster@ && ls[i].key@ == ls[j].key@)
}

pub open spec fn has_backend(bs: Seq<Backend>, id: u64) -> bool {
    exists|i: int| 0 <= i < bs.len() && (#[trigger] bs[i]).id == id
}

pub open spec fn backend_ix(bs: Seq<Backend>, id: u64) -> int {
    choose|i: int| 0 <= i < bs.len() && (#[trigger] bs[i]).id == id
}

/// The backend with the given id (meaningful when `has_backend` holds and
/// ids are unique).
pub open spec fn backend_of(bs: Seq<Backend>, id: u64) -> Backend {
    bs[backend_ix(bs, id)]
}

pub open spec fn has_drone(ds: Seq<Drone>, id: u64) -> bool {
    exists|i: int| 0 <= i < ds.len() && (#[trigger] ds[i]).id == id
}

pub open spec fn drone_ix(ds: Seq<Drone>, id: u64) -> int {
    choose|i: int| 0 <= i < ds.len() && (#[trigger] ds[i]).id == id
}

/// The drone with the given id (meaningful when `has_drone` holds and ids
/// are unique).
pub open spec fn drone_of(ds: Seq<Drone>, id: u64) -> Drone {
    ds[drone_ix(ds, id)]
}

pub open spec fn has_lock(ls: Seq<LockRow>, c: Seq<char>, k: Seq<char>) -> bool {
    exists|i: int| 0 <= i < ls.len() && lock_matches(#[trigger] ls[i], c, k)
}

pub open spec fn lock_ix(ls: Seq<LockRow>, c: Seq<char>, k: Seq<char>) -> int {
    choose|i: int| 0 <= i < ls.len() && lock_matches(#[trigger] ls[i], c, k)
}

/// The lock row for `(c, k)` (meaningful when `has_lock` holds and keys are
/// unique).
pub open spec fn lock_of(ls: Seq<LockRow>, c: Seq<char>, k: Seq<char>) -> LockRow {
    ls[lock_ix(ls, c, k)]
}

impl Controller {
    /// The state invariant. Beyond id uniqueness and counter freshness it
    /// carries the protocol's heart: each lock row points at an existing,
    /// non-Terminated backend, there is at most one row per `(cluster, key)`,
    /// and each backend sits on an existing drone of its own cluster.
    pub open spec fn wf(self) -> bool {
        &&& unique_backend_ids(self.backends@)
        &&& unique_drone_ids(self.drones@)
        &&& unique_lock_keys(self.locks@)
        &&& forall|i: int|
            0 <= i < self.backends@.len() ==> (#[trigger] self.backends@[i]).id
                < self.next_backend_id
        &&& forall|i: int|
            0 <= i < self.drones@.len() ==> (#[trigger] self.drones@[i]).id < self.next_drone_id
        &&& forall|i: int|
            0 <= i < self.locks@.len() ==> has_backend(
                self.backends@,
                (#[trigger] self.locks@[i]).backend,
            ) && !(backend_of(self.backends@, self.locks@[i].backend).status
                is Terminated)
        &&& forall|i: int|
            0 <= i < self.backends@.len() ==> has_drone(
                self.drones@,
                (#[trigger] self.backends@[i]).drone,
            ) && drone_of(self.drones@, self.backends@[i].drone).cluster@
                == self.backends@[i].cluster@
    }

    /// A fresh, empty controller state.
    pub fn new(default_cluster: Option<String>, heartbeat_timeout_seconds: u64) -> (r: Self)
        ensures
            r.wf(),
            r.default_cluster == default_cluster,
            r.heartbeat_timeout_seconds == heartbeat_timeout_seconds,
            r.drones@ == Seq::<Drone>::empty(),
            r.backends@ == Seq::<Backend>::empty(),
            r.locks@ == Seq::<LockRow>::empty(),
            r.events@ == Seq::<Event>::empty(),
            r.next_backend_id == 1,
            r.next_drone_id == 1,
            r.next_event_id == 1,
    {
        let r = Controller {
            default_cluster,
            heartbeat_timeout_seconds,
            drones: Vec::new(),
            backends: Vec::new(),
            locks: Vec::new(),
            events: Vec::new(),
            next_backend_id: 1,
            next_drone_id: 1,
            next_event_id: 1,
        };
        proof {
            assert(r.drones@ =~= Seq::<Drone>::empty());
            assert(r.backends@ =~= Seq::<Backend>::empty());
            assert(r.locks@ =~= Seq::<LockRow>::empty());
            assert(r.events@ =~= Seq::<Event>::empty());
        }
        r
    }

    /// Index of the backend with the given id, if present.
    pub fn find_backend(&self, id: u64) -> (r: Option<usize>)
        ensures
            match r {
                Some(ix) => ix < self.backends@.len() && self.backends@[ix as int].id == id,
                None => !has_backend(self.backends@, id),
            },
            r is Some <==> has_backend(self.backends@, id),
    {
        let mut i: usize = 0;
        while i < self.backends.len()
            invariant
                i <= self.backends@.len(),
                forall|j: int| 0 <= j < i ==> (#[trigger] self.backends@[j]).id != id,
            decreases self.backends@.len() - i,
        {
            if self.backends[i].id == id {
                return Some(i);
            }
            i += 1;
        }
        None
    }

    /// Index of the drone with the given id, if present.
    pub fn find_drone(&self, id: u64) -> (r: Option<usize>)
        ensures
            match r {
                Some(ix) => ix < self.drones@.len() && self.drones@[ix as int].id == id,
                None => !has_drone(self.drones@, id),
            },
            r is Some <==> has_drone(self.drones@, id),
    {
        let mut i: usize = 0;
        while i < self.drones.len()
            invariant
                i <= self.drones@.len(),
                forall|j: int| 0 <= j < i ==> (#[trigger] self.drones@[j]).id != id,
            decreases self.drones@.len() - i,
        {
            if self.drones[i].id == id {
                return Some(i);
            }
            i += 1;
        }
        None
    }

    /// Index of the lock row for `(cluster, key)`, if present.
    pub fn find_lock(&self, cluster: &String, key: &String) -> (r: Option<usize>)
        ensures
            match r {
                Some(ix) => ix < self.locks@.len() && lock_matches(
                    self.locks@[ix as int],
                    cluster@,
                    key@,
                ),
                None => !has_lock(self.locks@, cluster@, key@),
            },
            r is Some <==> has_lock(self.locks@, cluster@, key@),
    {
        let mut i: usize = 0;
        while i < self.locks.len()
            invariant
                i <= self.locks@.len(),
                forall|j: int| 0 <= j < i ==> !lock_matches(#[trigger] self.locks@[j], cluster@, key@),
            decreases self.locks@.len() - i,
        {
            if self.locks[i].cluster == *cluster && self.locks[i].key == *key {
                return Some(i);
            }
            i += 1;
        }
        None
    }

    /// Events scoped to one backend, in log order: the entity-scoped
    /// subscription a "wait until Ready/Terminated" caller consumes.
    pub fn events_for(&self, backend: u64) -> (r: Vec<Event>)
        ensures
            r@ == scoped_events(self.events@, backend),
    {
        let mut out: Vec<Event> = Vec::new();
        let mut i: usize = 0;
        proof {
            assert(self.events@.take(0).filter(|e: Event| crate::events::event_scoped_to(e, backend))
                =~= Seq::<Event>::empty());
        }
        while i < self.events.len()
            invariant
                i <= self.events@.len(),
                out@ == scoped_events(self.events@.take(i as int), backend),
            decreases self.events@.len() - i,
        {
            proof {
                reveal_with_fuel(Seq::filter, 2);
                let pre = self.events@.take(i as int);
                let cur = self.events@.take(i + 1);
                assert(cur.drop_last() =~= pre);
                assert(cur.last() == self.events@[i as int]);
                assert(scoped_events(cur, backend) == if crate::events::event_scoped_to(
                    cur.last(),
                    backend,
                ) {
                    scoped_events(pre, backend).push(cur.last())
                } else {
                    scoped_events(pre, backend)
                });
            }
            let e = self.events[i];
            let scoped = match e.key {
                Some(b) => b == backend,
                None => false,
            };
            if scoped {
                out.push(e);
            }
            i += 1;
        }
        proof {
            assert(self.events@.take(self.events@.len() as int) =~= self.events@);
        }
        out
    }
}

/// The entity-scoped view of the log: the events that belong to one backend.
pub open spec fn scoped_events(es: Seq<Event>, backend: u64) -> Seq<Event> {
    es.filter(|e: Event| crate::events::event_scoped_to(e, backend))
}

/// Pins down `backend_of`/`backend_ix`: with unique ids, looking up the id
/// found at `ix` gives back exactly the element at `ix`.
pub proof fn lemma_backend_at(bs: Seq<Backend>, ix: int)
    requires
        unique_backend_ids(bs),
        0 <= ix < bs.len(),
    ensures
        has_backend(bs, bs[ix].id),
        backend_ix(bs, bs[ix].id) == ix,
        backend_of(bs, bs[ix].id) == bs[ix],
{
    assert(0 <= ix < bs.len() && bs[ix].id == bs[ix].id);
    let i = backend_ix(bs, bs[ix].id);
    assert(0 <= i < bs.len() && bs[i].id == bs[ix].id);
    if i != ix {
        assert(bs[i].id != bs[ix].id);
    }
}

/// Pins down `drone_of`/`drone_ix` in the same way.
pub proof fn lemma_drone_at(ds: Seq<Drone>, ix: int)
    requires
        unique_drone_ids(ds),
        0 <= ix < ds.len(),
    ensures
        has_drone(ds, ds[ix].id),
        drone_ix(ds, ds[ix].id) == ix,
        drone_of(ds, ds[ix].id) == ds[ix],
{
    assert(0 <= ix < ds.len() && ds[ix].id == ds[ix].id);
    let i = drone_ix(ds, ds[ix].id);
    assert(0 <= i < ds.len() && ds[i].id == ds[ix].id);
    if i != ix {
        assert(ds[i].id != ds[ix].id);
    }
}

/// Pins down `lock_of`/`lock_ix`: with unique keys, the row found for the
/// pair at `ix` is the row at `ix`.
pub proof fn lemma_lock_at(ls: Seq<LockRow>, ix: int)
    requires
        unique_lock_keys(ls),
        0 <= ix < ls.len(),
    ensures
        has_lock(ls, ls[ix].cluster@, ls[ix].key@),
        lock_ix(ls, ls[ix].cluster@, ls[ix].key@) == ix,
        lock_of(ls, ls[ix].cluster@, ls[ix].key@) == ls[ix],
{
    assert(0 <= ix < ls.len() && lock_matches(ls[ix], ls[ix].cluster@, ls[ix].key@));
    let i = lock_ix(ls, ls[ix].cluster@, ls[ix].key@);
    assert(0 <= i < ls.len() && lock_matches(ls[i], ls[ix].cluster@, ls[ix].key@));
    if i != ix {
        assert(!(ls[i].cluster@ == ls[ix].cluster@ && ls[i].key@ == ls[ix].key@));
    }
}

/// Looking up backends after appending one with a fresh id: presence and
/// resolution of old ids are unchanged, and the new id resolves to the new
/// row.
pub proof fn lemma_backend_lookup_push(bs: Seq<Backend>, b: Backend, id: u64)
    requires
        unique_backend_ids(bs),
        forall|i: int| 0 <= i < bs.len() ==> (#[trigger] bs[i]).id != b.id,
    ensures
        unique_backend_ids(bs.push(b)),
        id != b.id ==> has_backend(bs.push(b), id) == has_backend(bs, id),
        id != b.id && has_backend(bs, id) ==> backend_of(bs.push(b), id) == backend_of(bs, id),
        id == b.id ==> has_backend(bs.push(b), id) && backend_of(bs.push(b), id) == b,
{
    let bs2 = bs.push(b);
    assert(forall|i: int| 0 <= i < bs.len() ==> (#[trigger] bs2[i]) == bs[i]);
    assert(bs2[bs.len() as int] == b);
    assert(unique_backend_ids(bs2));
    if id != b.id {
        if has_backend(bs, id) {
            let i = backend_ix(bs, id);
            assert(bs2[i].id == id);
            assert(has_backend(bs2, id));
            let i2 = backend_ix(bs2, id);
            assert(bs2[i2].id == id);
            assert(i2 != bs.len());
            if i != i2 {
                assert(bs[i].id != bs[i2].id);
            }
            assert(bs2[i2] == bs[i]);
        }
        if has_backend(bs2, id) {
            let i2 = backend_ix(bs2, id);
            assert(i2 != bs.len());
            assert(bs[i2].id == id);
            assert(has_backend(bs, id));
        }
    } else {
        assert(bs2[bs.len() as int].id == id);
        assert(has_backend(bs2, id));
        let i2 = backend_ix(bs2, id);
        if i2 != bs.len() {
            assert(bs[i2].id == b.id);
        }
        assert(bs2[i2] == b);
    }
}

/// Looking up drones after replacing the row at `ix` by one with the same
/// id: presence is unchanged, other ids resolve to the same row, and the
/// replaced id resolves to the new row.
pub proof fn lemma_drone_lookup_update(ds: Seq<Drone>, ix: int, d: Drone, id: u64)
    requires
        unique_drone_ids(ds),
        0 <= ix < ds.len(),
        d.id == ds[ix].id,
    ensures
        unique_drone_ids(ds.update(ix, d)),
        has_drone(ds.update(ix, d), id) == has_drone(ds, id),
        id != ds[ix].id && has_drone(ds, id) ==> drone_of(ds.update(ix, d), id) == drone_of(
            ds,
            id,
        ),
        id == ds[ix].id ==> has_drone(ds.update(ix, d), id) && drone_of(ds.update(ix, d), id)
            == d,
{
    let ds2 = ds.update(ix, d);
    assert(forall|i: int| 0 <= i < ds.len() ==> (#[trigger] ds2[i]).id == ds[i].id);
    assert(unique_drone_ids(ds2));
    if has_drone(ds, id) {
        let i = drone_ix(ds, id);
        assert(ds2[i].id == id);
        assert(has_drone(ds2, id));
    }
    if has_drone(ds2, id) {
        let i = drone_ix(ds2, id);
        assert(ds[i].id == id);
        assert(has_drone(ds, id));
    }
    if id != ds[ix].id && has_drone(ds, id) {
        let i = drone_ix(ds, id);
        let i2 = drone_ix(ds2, id);
        assert(i != ix && i2 != ix);
        if i != i2 {
            assert(ds[i].id != ds[i2].id);
            assert(ds2[i2].id == ds[i2].id);
        }
        assert(ds2[i2] == ds[i]);
    }
    if id == ds[ix].id {
        assert(ds2[ix].id == id);
        assert(has_drone(ds2, id));
        let i2 = drone_ix(ds2, id);
        if i2 != ix {
            assert(ds2[i2].id != ds2[ix].id);
        }
        assert(ds2[i2] == d);
    }
}

/// Looking up drones after appending one with a fresh id.
pub proof fn lemma_drone_lookup_push(ds: Seq<Drone>, d: Drone, id: u64)
    requires
        unique_drone_ids(ds),
        forall|i: int| 0 <= i < ds.len() ==> (#[trigger] ds[i]).id != d.id,
    ensures
        unique_drone_ids(ds.push(d)),
        id != d.id ==> has_drone(ds.push(d), id) == has_drone(ds, id),
        id != d.id && has_drone(ds, id) ==> drone_of(ds.push(d), id) == drone_of(ds, id),
        id == d.id ==> has_drone(ds.push(d), id) && drone_of(ds.push(d), id) == d,
{
    let ds2 = ds.push(d);
    assert(forall|i: int| 0 <= i < ds.len() ==> (#[trigger] ds2[i]) == ds[i]);
    assert(ds2[ds.len() as int] == d);
    assert(unique_drone_ids(ds2));
    if id != d.id {
        if has_drone(ds, id) {
            let i = drone_ix(ds, id);
            assert(ds2[i].id == id);
            assert(has_drone(ds2, id));
            let i2 = drone_ix(ds2, id);
            assert(i2 != ds.len());
            if i != i2 {
                assert(ds[i].id != ds[i2].id);
            }
            assert(ds2[i2] == ds[i]);
        }
        if has_drone(ds2, id) {
            let i2 = drone_ix(ds2, id);
            assert(i2 != ds.len());
            assert(ds[i2].id == id);
            assert(has_drone(ds, id));
        }
    } else {
        assert(ds2[ds.len() as int].id == id);
        assert(has_drone(ds2, id));
        let i2 = drone_ix(ds2, id);
        if i2 != ds.len() {
            assert(ds[i2].id == d.id);
        }
        assert(ds2[i2] == d);
    }
}

/// Exclusivity: for any `(cluster, key)`, at most one lock row exists, and
/// its holder is never a Terminated backend. Two lock rows for the same
/// pair are the same row, so at most one non-Terminated backend holds any
/// key at any instant.
pub proof fn lemma_exclusivity(s: Controller, i: int, j: int)
    requires
        s.wf(),
        0 <= i < s.locks@.len(),
        0 <= j < s.locks@.len(),
        s.locks@[i].cluster@ == s.locks@[j].cluster@,
        s.locks@[i].key@ == s.locks@[j].key@,
    ensures
        i == j,
        s.locks@[i].backend == s.locks@[j].backend,
        !(backend_of(s.backends@, s.locks@[i].backend).status is Terminated),
{
    if i != j {
        assert(!(s.locks@[i].cluster@ == s.locks@[j].cluster@ && s.locks@[i].key@
            == s.locks@[j].key@));
    }
    assert(has_backend(s.backends@, s.locks@[i].backend) && !(backend_of(
        s.backends@,
        s.locks@[i].backend,
    ).status is Terminated));
}

} // verus!
