//! The connect protocol: one atomic decision against the key lock table,
//! the backend registry and the node registry. A client is routed to the
//! live backend already bound to its key, or a fresh backend is placed on
//! the least-loaded eligible drone — and any failure leaves the state
//! exactly as it was, so a failed placement never leaves a dangling lock.

use vstd::prelude::*;
use crate::events::{Event, EventKind};
use crate::state::{
    backend_of, drone_of, has_backend, has_drone, has_lock, lemma_backend_at,
    lemma_backend_lookup_push, lemma_drone_at, lemma_lock_at, lock_matches, lock_of, Backend,
    Controller, Drone, LockRow,
};
use crate::text::{connect_url, connect_url_spec};
use crate::types::{
    status_rank, BackendStatus, ConnectError, ConnectRequest, ConnectResponse, SpawnConfig,
};

verus! {

/// The view of an optional cluster argument.
pub open spec fn opt_str_view(s: Option<&String>) -> Option<Seq<char>> {
    match s {
        Some(c) => Some(c@),
        None => None,
    }
}

/// The cluster a request targets: the explicit one, or the controller's
/// default.
pub open spec fn resolved_cluster(s: Controller, cluster: Option<Seq<char>>) -> Option<
    Seq<char>,
> {
    match cluster {
        Some(c) => Some(c),
        None => match s.default_cluster {
            Some(d) => Some(d@),
            None => None,
        },
    }
}

/// Unwraps a resolved cluster (meaningful only when one exists).
pub open spec fn the_cluster(c: Option<Seq<char>>) -> Seq<char> {
    match c {
        Some(s) => s,
        None => Seq::empty(),
    }
}

/// A lock holder that is on its way down but not yet cleaned up: reusing
/// its key now would race the in-flight reclaim.
pub open spec fn holder_unhealthy(st: BackendStatus) -> bool {
    st is Terminating || st is HardTerminating
}

/// A request tag matches the stored tag, or was left unspecified.
pub open spec fn tag_accepts(req_tag: Seq<char>, stored: Seq<char>) -> bool {
    req_tag.len() == 0 || req_tag == stored
}

/// What the atomic decision procedure resolves a request to, before drone
/// selection: an error, an idempotent hit on the existing holder, or the
/// go-ahead to create a fresh backend.
pub enum ConnectDecision {
    Reject(ConnectError),
    Hit(u64),
    Fresh,
}

/// The decision the connect protocol takes against a given state, spelled
/// out case by case exactly as the protocol reads the lock table.
pub open spec fn connect_decision(
    s: Controller,
    cluster: Option<Seq<char>>,
    req: ConnectRequest,
) -> ConnectDecision {
    match resolved_cluster(s, cluster) {
        None => ConnectDecision::Reject(ConnectError::NoClusterProvided),
        Some(c) => match req.key {
            None => if req.spawn_config is Some {
                ConnectDecision::Fresh
            } else {
                ConnectDecision::Reject(ConnectError::KeyUnheldNoSpawnConfig)
            },
            Some(kc) => if !has_lock(s.locks@, c, kc.name@) {
                if req.spawn_config is Some {
                    ConnectDecision::Fresh
                } else {
                    ConnectDecision::Reject(ConnectError::KeyUnheldNoSpawnConfig)
                }
            } else {
                let l = lock_of(s.locks@, c, kc.name@);
                let b = backend_of(s.backends@, l.backend);
                if holder_unhealthy(b.status) {
                    ConnectDecision::Reject(ConnectError::KeyHeldUnhealthy)
                } else if tag_accepts(kc.tag@, l.tag@) {
                    ConnectDecision::Hit(l.backend)
                } else {
                    ConnectDecision::Reject(ConnectError::KeyHeld { tag: l.tag })
                }
            },
        },
    }
}

/// A drone that placement may choose: in the target cluster, Available,
/// not drained, and heard from within the staleness window.
pub open spec fn drone_eligible(d: Drone, c: Seq<char>, now: u64, timeout: u64) -> bool {
    &&& d.cluster@ == c
    &&& d.status is Available
    &&& !d.drained
    &&& now - d.last_heartbeat <= timeout
}

/// Whether any drone in the state is eligible for the cluster.
pub open spec fn any_eligible(ds: Seq<Drone>, c: Seq<char>, now: u64, timeout: u64) -> bool {
    exists|i: int| 0 <= i < ds.len() && drone_eligible(#[trigger] ds[i], c, now, timeout)
}

/// How many non-terminal backends a drone carries: its placement load.
pub open spec fn load_of(bs: Seq<Backend>, d: u64) -> int
    decreases bs.len(),
{
    if bs.len() == 0 {
        0
    } else {
        load_of(bs.drop_last(), d) + if bs.last().drone == d && !(bs.last().status
            is Terminated) {
            1int
        } else {
            0int
        }
    }
}

/// The placement order: fewer non-terminal backends wins; ties break by
/// drone id, so the choice is deterministic.
pub open spec fn prefers(bs: Seq<Backend>, a: Drone, b: Drone) -> bool {
    ||| load_of(bs, a.id) < load_of(bs, b.id)
    ||| (load_of(bs, a.id) == load_of(bs, b.id) && a.id <= b.id)
}

/// The fields of a backend row created by a fresh placement.
pub open spec fn fresh_backend_fields(
    b: Backend,
    id: u64,
    c: Seq<char>,
    spawn: SpawnConfig,
    drone: u64,
    now: u64,
) -> bool {
    &&& b.id == id
    &&& b.cluster@ == c
    &&& b.drone == drone
    &&& b.status is Scheduled
    &&& b.last_status_time == now
    &&& b.last_keepalive == now
    &&& b.expiration_time == (match spawn.lifetime_limit_seconds {
        Some(l) => Some((now + l) as u64),
        None => None::<u64>,
    })
    &&& b.allowed_idle_seconds == spawn.max_idle_seconds
    &&& b.executable == spawn.executable
}

/// The spawn configuration of a request that has one.
pub open spec fn spawn_of(req: ConnectRequest) -> SpawnConfig {
    match req.spawn_config {
        Some(s) => s,
        None => vstd::pervasive::arbitrary(),
    }
}

/// Everything a fresh placement does to the state and returns, pinned down
/// clause by clause: the new backend row, the lock row a keyed request
/// writes, the event appended, the counters, and the optimality of the
/// chosen drone.
pub open spec fn connect_spawned(
    pre: Controller,
    post: Controller,
    c: Seq<char>,
    req: ConnectRequest,
    now: u64,
    resp: ConnectResponse,
) -> bool {
    let id = pre.next_backend_id;
    let nb = post.backends@.last();
    &&& req.spawn_config is Some
    &&& resp.backend_id == id
    &&& resp.spawned
    &&& resp.drone == Some(nb.drone)
    &&& resp.url@ == connect_url_spec(c, id)
    &&& post.backends@ == pre.backends@.push(nb)
    &&& fresh_backend_fields(nb, id, c, spawn_of(req), nb.drone, now)
    &&& has_drone(pre.drones@, nb.drone)
    &&& drone_eligible(drone_of(pre.drones@, nb.drone), c, now, pre.heartbeat_timeout_seconds)
    &&& forall|j: int|
        0 <= j < pre.drones@.len() && drone_eligible(
            #[trigger] pre.drones@[j],
            c,
            now,
            pre.heartbeat_timeout_seconds,
        ) ==> prefers(pre.backends@, drone_of(pre.drones@, nb.drone), pre.drones@[j])
    &&& match req.key {
        Some(kc) => {
            let nl = post.locks@.last();
            &&& post.locks@ == pre.locks@.push(nl)
            &&& nl.cluster@ == c
            &&& nl.key@ == kc.name@
            &&& nl.tag@ == kc.tag@
            &&& nl.backend == id
        },
        None => post.locks@ == pre.locks@,
    }
    &&& post.events@ == pre.events@.push(
        Event {
            id: pre.next_event_id,
            timestamp: now,
            key: Some(id),
            kind: EventKind::BackendScheduled { backend: id, drone: nb.drone },
        },
    )
    &&& post.next_backend_id == pre.next_backend_id + 1
    &&& post.next_event_id == pre.next_event_id + 1
    &&& post.next_drone_id == pre.next_drone_id
    &&& post.drones@ == pre.drones@
    &&& post.default_cluster == pre.default_cluster
    &&& post.heartbeat_timeout_seconds == pre.heartbeat_timeout_seconds
}

impl Controller {
    /// The placement load of one drone.
    pub fn count_load(&self, d: u64) -> (n: usize)
        ensures
            n as int == load_of(self.backends@, d),
    {
        let mut n: usize = 0;
        let mut i: usize = 0;
        proof {
            assert(self.backends@.take(0) =~= Seq::<Backend>::empty());
        }
        while i < self.backends.len()
            invariant
                i <= self.backends@.len(),
                n <= i,
                n as int == load_of(self.backends@.take(i as int), d),
            decreases self.backends@.len() - i,
        {
            proof {
                let cur = self.backends@.take(i + 1);
                assert(cur.drop_last() =~= self.backends@.take(i as int));
                assert(cur.last() == self.backends@[i as int]);
            }
            let counted = self.backends[i].drone == d && !(self.backends[i].status
                == BackendStatus::Terminated);
            if counted {
                n += 1;
            }
            i += 1;
        }
        proof {
            assert(self.backends@.take(self.backends@.len() as int) =~= self.backends@);
        }
        n
    }

    /// Drone selection: the least-loaded eligible drone of the cluster,
    /// ties broken by drone id. Returns its index, or `None` exactly when
    /// no drone is eligible.
    pub fn select_drone(&self, cluster: &String, now: u64) -> (r: Option<usize>)
        ensures
            match r {
                None => !any_eligible(
                    self.drones@,
                    cluster@,
                    now,
                    self.heartbeat_timeout_seconds,
                ),
                Some(ix) => {
                    &&& ix < self.drones@.len()
                    &&& drone_eligible(
                        self.drones@[ix as int],
                        cluster@,
                        now,
                        self.heartbeat_timeout_seconds,
                    )
                    &&& forall|j: int|
                        0 <= j < self.drones@.len() && drone_eligible(
                            #[trigger] self.drones@[j],
                            cluster@,
                            now,
                            self.heartbeat_timeout_seconds,
                        ) ==> prefers(self.backends@, self.drones@[ix as int], self.drones@[j])
                },
            },
    {
        let mut best: Option<usize> = None;
        let mut best_load: usize = 0;
        let mut i: usize = 0;
        while i < self.drones.len()
            invariant
                i <= self.drones@.len(),
                match best {
                    None => forall|j: int|
                        0 <= j < i ==> !drone_eligible(
                            #[trigger] self.drones@[j],
                            cluster@,
                            now,
                            self.heartbeat_timeout_seconds,
                        ),
                    Some(bix) => {
                        &&& bix < i
                        &&& i <= self.drones@.len()
                        &&& drone_eligible(
                            self.drones@[bix as int],
                            cluster@,
                            now,
                            self.heartbeat_timeout_seconds,
                        )
                        &&& best_load as int == load_of(
                            self.backends@,
                            self.drones@[bix as int].id,
                        )
                        &&& forall|j: int|
                            0 <= j < i && drone_eligible(
                                #[trigger] self.drones@[j],
                                cluster@,
                                now,
                                self.heartbeat_timeout_seconds,
                            ) ==> prefers(
                                self.backends@,
                                self.drones@[bix as int],
                                self.drones@[j],
                            )
                    },
                },
            decreases self.drones@.len() - i,
        {
            let in_cluster = self.drones[i].cluster == *cluster;
            let available = self.drones[i].status == crate::types::NodeStatus::Available;
            let not_drained = !self.drones[i].drained;
            let hb = self.drones[i].last_heartbeat;
            let fresh = if now >= hb {
                now - hb <= self.heartbeat_timeout_seconds
            } else {
                true
            };
            if in_cluster && available && not_drained && fresh {
                let load = self.count_load(self.drones[i].id);
                let take_it = match best {
                    None => true,
                    Some(bix) => load < best_load || (load == best_load && self.drones[i].id
                        < self.drones[bix].id),
                };
                if take_it {
                    best = Some(i);
                    best_load = load;
                }
            }
            i += 1;
        }
        best
    }

    /// The connect protocol, as one atomic transaction. Routes to the live
    /// holder of the key when tags agree, creates and places a fresh
    /// backend when the key is unheld (or no key was given) and a spawn
    /// config came along, and fails — changing nothing at all — in every
    /// other case, `NoDroneAvailable` included: a failed placement rolls
    /// back the whole transaction, so no lock row is left dangling.
    #[verifier::rlimit(100)]
    #[verifier::spinoff_prover]
    pub fn connect(
        &mut self,
        cluster: Option<&String>,
        request: ConnectRequest,
        now: u64,
    ) -> (r: Result<ConnectResponse, ConnectError>)
        requires
            old(self).wf(),
            old(self).next_backend_id < u64::MAX,
            old(self).next_event_id < u64::MAX,
            match request.spawn_config {
                Some(s) => match s.lifetime_limit_seconds {
                    Some(l) => now + l <= u64::MAX,
                    None => true,
                },
                None => true,
            },
        ensures
            final(self).wf(),
            ({
                let pre = *old(self);
                let post = *final(self);
                let c = the_cluster(resolved_cluster(pre, opt_str_view(cluster)));
                match r {
                    Result::Ok(resp) => match connect_decision(pre, opt_str_view(cluster), request) {
                        ConnectDecision::Hit(b) => {
                            &&& post == pre
                            &&& resp.backend_id == b
                            &&& !resp.spawned
                            &&& resp.drone is None
                            &&& resp.url@ == connect_url_spec(c, b)
                        },
                        ConnectDecision::Fresh => connect_spawned(pre, post, c, request, now, resp),
                        ConnectDecision::Reject(_) => false,
                    },
                    Result::Err(e) => {
                        &&& post == pre
                        &&& match connect_decision(pre, opt_str_view(cluster), request) {
                            ConnectDecision::Reject(e2) => e == e2,
                            ConnectDecision::Fresh => e == ConnectError::NoDroneAvailable
                                && !any_eligible(pre.drones@, c, now, pre.heartbeat_timeout_seconds),
                            ConnectDecision::Hit(_) => false,
                        }
                    },
                }
            }),
    {
        let c: String = match cluster {
            Some(cl) => cl.clone(),
            None => match &self.default_cluster {
                Some(d) => d.clone(),
                None => {
                    return Err(ConnectError::NoClusterProvided);
                },
            },
        };
        proof {
            assert(resolved_cluster(*self, opt_str_view(cluster)) == Some(c@));
        }
        let ConnectRequest { key, spawn_config } = request;
        match &key {
            None => {
                if spawn_config.is_none() {
                    return Err(ConnectError::KeyUnheldNoSpawnConfig);
                }
            },
            Some(kc) => {
                match self.find_lock(&c, &kc.name) {
                    None => {
                        if spawn_config.is_none() {
                            return Err(ConnectError::KeyUnheldNoSpawnConfig);
                        }
                    },
                    Some(ix) => {
                        proof {
                            lemma_lock_at(self.locks@, ix as int);
                            assert(has_backend(
                                self.backends@,
                                self.locks@[ix as int].backend,
                            ));
                        }
                        let holder = self.locks[ix].backend;
                        let bix = match self.find_backend(holder) {
                            Some(b) => b,
                            None => {
                                return vstd::pervasive::unreached();
                            },
                        };
                        proof {
                            lemma_backend_at(self.backends@, bix as int);
                        }
                        let st = self.backends[bix].status;
                        let unhealthy = match st {
                            BackendStatus::Terminating => true,
                            BackendStatus::HardTerminating => true,
                            _ => false,
                        };
                        if unhealthy {
                            return Err(ConnectError::KeyHeldUnhealthy);
                        }
                        let accepts = kc.tag.as_str().is_empty() || kc.tag == self.locks[ix].tag;
                        if accepts {
                            let url = connect_url(&c, holder);
                            return Ok(
                                ConnectResponse {
                                    backend_id: holder,
                                    spawned: false,
                                    drone: None,
                                    url,
                                },
                            );
                        } else {
                            return Err(
                                ConnectError::KeyHeld { tag: self.locks[ix].tag.clone() },
                            );
                        }
                    },
                }
            },
        }
        // fresh placement: a spawn config is present, and for a keyed
        // request the key is unheld
        let spawn = match spawn_config {
            Some(s) => s,
            None => {
                return vstd::pervasive::unreached();
            },
        };
        let dix = match self.select_drone(&c, now) {
            Some(d) => d,
            None => {
                return Err(ConnectError::NoDroneAvailable);
            },
        };
        let drone_id = self.drones[dix].id;
        proof {
            lemma_drone_at(self.drones@, dix as int);
        }
        let id = self.next_backend_id;
        let expiration = match spawn.lifetime_limit_seconds {
            Some(l) => Some(now + l),
            None => None,
        };
        let nb = Backend {
            id,
            cluster: c.clone(),
            drone: drone_id,
            status: BackendStatus::Scheduled,
            last_status_time: now,
            last_keepalive: now,
            expiration_time: expiration,
            allowed_idle_seconds: spawn.max_idle_seconds,
            executable: spawn.executable,
        };
        self.backends.push(nb);
        let keyed = match &key {
            Some(_) => true,
            None => false,
        };
        if let Some(kc) = key {
            self.locks.push(LockRow { cluster: c.clone(), key: kc.name, backend: id, tag: kc.tag });
        }
        self.events.push(
            Event {
                id: self.next_event_id,
                timestamp: now,
                key: Some(id),
                kind: EventKind::BackendScheduled { backend: id, drone: drone_id },
            },
        );
        self.next_backend_id = self.next_backend_id + 1;
        self.next_event_id = self.next_event_id + 1;
        let url = connect_url(&c, id);
        proof {
            lemma_wf_after_spawn(*old(self), *self, c@, keyed);
        }
        Ok(ConnectResponse { backend_id: id, spawned: true, drone: Some(drone_id), url })
    }
}

impl Controller {
    /// Explicit lock release, used when a backend ends with no successor
    /// intended: removes the lock row for `(cluster, key)` and nothing
    /// else. Returns whether a row was removed.
    pub fn release_key(&mut self, cluster: &String, key: &String, now: u64) -> (removed: bool)
        requires
            old(self).wf(),
            old(self).next_event_id < u64::MAX,
        ensures
            final(self).wf(),
            removed == has_lock(old(self).locks@, cluster@, key@),
            !removed ==> *final(self) == *old(self),
            removed ==> ({
                let pre = *old(self);
                let post = *final(self);
                let ix = crate::state::lock_ix(pre.locks@, cluster@, key@);
                &&& post.locks@ == pre.locks@.remove(ix)
                &&& post.events@ == pre.events@.push(
                    Event {
                        id: pre.next_event_id,
                        timestamp: now,
                        key: Some(pre.locks@[ix].backend),
                        kind: EventKind::KeyReleased { backend: pre.locks@[ix].backend },
                    },
                )
                &&& post.next_event_id == pre.next_event_id + 1
                &&& post.backends@ == pre.backends@
                &&& post.drones@ == pre.drones@
                &&& post.next_backend_id == pre.next_backend_id
                &&& post.next_drone_id == pre.next_drone_id
                &&& post.default_cluster == pre.default_cluster
                &&& post.heartbeat_timeout_seconds == pre.heartbeat_timeout_seconds
            }),
    {
        let ix = match self.find_lock(cluster, key) {
            Some(ix) => ix,
            None => {
                return false;
            },
        };
        proof {
            lemma_lock_at(self.locks@, ix as int);
        }
        let row = self.locks.remove(ix);
        self.events.push(
            Event {
                id: self.next_event_id,
                timestamp: now,
                key: Some(row.backend),
                kind: EventKind::KeyReleased { backend: row.backend },
            },
        );
        self.next_event_id = self.next_event_id + 1;
        proof {
            let pre = *old(self);
            let ls = pre.locks@;
            let ls2 = self.locks@;
            assert(ls2 == ls.remove(ix as int));
            assert(forall|i: int|
                0 <= i < ls2.len() ==> #[trigger] ls2[i] == (if i < ix as int {
                    ls[i]
                } else {
                    ls[i + 1]
                }));
            assert forall|i: int, j: int|
                0 <= i < ls2.len() && 0 <= j < ls2.len() && i != j implies !((
            #[trigger] ls2[i]).cluster@ == (#[trigger] ls2[j]).cluster@ && ls2[i].key@
                == ls2[j].key@) by {
                let oi = if i < ix as int {
                    i
                } else {
                    i + 1
                };
                let oj = if j < ix as int {
                    j
                } else {
                    j + 1
                };
                assert(ls2[i] == ls[oi] && ls2[j] == ls[oj]);
                assert(!(ls[oi].cluster@ == ls[oj].cluster@ && ls[oi].key@ == ls[oj].key@));
            }
            assert forall|i: int| 0 <= i < ls2.len() implies has_backend(
                self.backends@,
                (#[trigger] ls2[i]).backend,
            ) && !(backend_of(self.backends@, ls2[i].backend).status is Terminated) by {
                let oi = if i < ix as int {
                    i
                } else {
                    i + 1
                };
                assert(ls2[i] == ls[oi]);
                assert(has_backend(pre.backends@, ls[oi].backend) && !(backend_of(
                    pre.backends@,
                    ls[oi].backend,
                ).status is Terminated));
            }
        }
        true
    }
}

/// Idempotency of connect: after a fresh keyed placement, an identical
/// request — same cluster, key and tag — decides `Hit` on the backend the
/// placement just created. Together with the connect contract (a `Hit`
/// returns that id and changes nothing) this gives exactly-once creation
/// for duplicate requests, however many arrive.
pub proof fn lemma_connect_idempotent(
    pre: Controller,
    post: Controller,
    cluster: Option<Seq<char>>,
    req: ConnectRequest,
    now: u64,
    resp: ConnectResponse,
)
    requires
        pre.wf(),
        post.wf(),
        req.key is Some,
        resolved_cluster(pre, cluster) is Some,
        connect_spawned(pre, post, the_cluster(resolved_cluster(pre, cluster)), req, now, resp),
    ensures
        resolved_cluster(post, cluster) == resolved_cluster(pre, cluster),
        connect_decision(post, cluster, req) == ConnectDecision::Hit(resp.backend_id),
{
    let c = the_cluster(resolved_cluster(pre, cluster));
    let kc = match req.key {
        Some(k) => k,
        None => vstd::pervasive::arbitrary(),
    };
    let n = post.locks@.len() - 1;
    assert(post.locks@[n] == post.locks@.last());
    assert(lock_matches(post.locks@[n], c, kc.name@));
    assert(has_lock(post.locks@, c, kc.name@));
    crate::state::lemma_lock_at(post.locks@, n);
    assert(lock_of(post.locks@, c, kc.name@) == post.locks@.last());
    let nb = post.backends@.last();
    let m = post.backends@.len() - 1;
    assert(post.backends@[m] == nb);
    lemma_backend_at(post.backends@, m);
    assert(backend_of(post.backends@, resp.backend_id) == nb);
    assert(!holder_unhealthy(nb.status));
    assert(tag_accepts(kc.tag@, post.locks@.last().tag@));
}

/// Drain exclusion: a fresh placement never lands on a drained drone, so
/// immediately after draining drone `d` no connect places a new backend
/// there — even though `d`'s existing backends stay untouched.
pub proof fn lemma_drain_exclusion(
    pre: Controller,
    post: Controller,
    c: Seq<char>,
    req: ConnectRequest,
    now: u64,
    resp: ConnectResponse,
    d: u64,
)
    requires
        pre.wf(),
        has_drone(pre.drones@, d),
        drone_of(pre.drones@, d).drained,
        connect_spawned(pre, post, c, req, now, resp),
    ensures
        resp.drone != Some(d),
        post.backends@.last().drone != d,
{
    let nb = post.backends@.last();
    if nb.drone == d {
        assert(drone_eligible(drone_of(pre.drones@, d), c, now, pre.heartbeat_timeout_seconds));
        assert(!drone_of(pre.drones@, d).drained);
    }
}

/// Well-formedness survives a fresh placement: the new backend has a fresh
/// id and sits on an existing drone of its cluster, and a new lock row can
/// only have been written for a previously unheld key.
proof fn lemma_wf_after_spawn(pre: Controller, post: Controller, c: Seq<char>, keyed: bool)
    requires
        pre.wf(),
        pre.next_backend_id < u64::MAX,
        post.backends@.len() == pre.backends@.len() + 1,
        post.backends@ == pre.backends@.push(post.backends@.last()),
        post.backends@.last().id == pre.next_backend_id,
        post.backends@.last().cluster@ == c,
        !(post.backends@.last().status is Terminated),
        has_drone(pre.drones@, post.backends@.last().drone),
        drone_of(pre.drones@, post.backends@.last().drone).cluster@ == c,
        post.drones@ == pre.drones@,
        post.next_drone_id == pre.next_drone_id,
        post.next_backend_id == pre.next_backend_id + 1,
        keyed ==> post.locks@.len() == pre.locks@.len() + 1 && post.locks@ == pre.locks@.push(
            post.locks@.last(),
        ) && post.locks@.last().backend == pre.next_backend_id && !has_lock(
            pre.locks@,
            post.locks@.last().cluster@,
            post.locks@.last().key@,
        ),
        !keyed ==> post.locks@ == pre.locks@,
    ensures
        post.wf(),
{
    let nb = post.backends@.last();
    assert(forall|i: int|
        0 <= i < pre.backends@.len() ==> (#[trigger] pre.backends@[i]).id != nb.id);
    lemma_backend_lookup_push(pre.backends@, nb, nb.id);
    assert(forall|i: int|
        0 <= i < pre.backends@.len() ==> (#[trigger] post.backends@[i]) == pre.backends@[i]);
    // lock rows: old rows still point at live backends; a new row points at
    // the fresh backend
    let n_locks = post.locks@.len();
    assert forall|i: int| 0 <= i < n_locks implies has_backend(
        post.backends@,
        (#[trigger] post.locks@[i]).backend,
    ) && !(backend_of(post.backends@, post.locks@[i].backend).status is Terminated) by {
        if keyed && i == n_locks - 1 {
            assert(post.locks@[i] == post.locks@.last());
            lemma_backend_lookup_push(pre.backends@, nb, nb.id);
            assert(backend_of(post.backends@, nb.id) == nb);
        } else {
            assert(post.locks@[i] == pre.locks@[i]);
            assert(has_backend(pre.backends@, pre.locks@[i].backend));
            lemma_backend_lookup_push(pre.backends@, nb, pre.locks@[i].backend);
            assert(pre.locks@[i].backend != nb.id) by {
                let j = crate::state::backend_ix(pre.backends@, pre.locks@[i].backend);
                assert(pre.backends@[j].id == pre.locks@[i].backend);
            }
            assert(backend_of(post.backends@, post.locks@[i].backend) == backend_of(
                pre.backends@,
                pre.locks@[i].backend,
            ));
        }
    }
    // lock keys stay unique: the new row's key was unheld
    assert forall|i: int, j: int|
        0 <= i < n_locks && 0 <= j < n_locks && i != j implies !((
    #[trigger] post.locks@[i]).cluster@ == (#[trigger] post.locks@[j]).cluster@
        && post.locks@[i].key@ == post.locks@[j].key@) by {
        if keyed {
            if i < n_locks - 1 && j < n_locks - 1 {
                assert(post.locks@[i] == pre.locks@[i] && post.locks@[j] == pre.locks@[j]);
            } else {
                let k = if i < n_locks - 1 {
                    i
                } else {
                    j
                };
                assert(post.locks@[k] == pre.locks@[k]);
                if pre.locks@[k].cluster@ == post.locks@.last().cluster@ && pre.locks@[k].key@
                    == post.locks@.last().key@ {
                    assert(has_lock(
                        pre.locks@,
                        post.locks@.last().cluster@,
                        post.locks@.last().key@,
                    ));
                }
            }
        } else {
            assert(post.locks@[i] == pre.locks@[i] && post.locks@[j] == pre.locks@[j]);
        }
    }
    // every backend still sits on an existing drone of its cluster
    assert forall|i: int| 0 <= i < post.backends@.len() implies has_drone(
        post.drones@,
        (#[trigger] post.backends@[i]).drone,
    ) && drone_of(post.drones@, post.backends@[i].drone).cluster@
        == post.backends@[i].cluster@ by {
        if i < pre.backends@.len() {
            assert(post.backends@[i] == pre.backends@[i]);
        } else {
            assert(post.backends@[i] == nb);
        }
    }
}

} // verus!
