//! The node registry: drone registration, heartbeats, staleness expiry and
//! drain. Drones are fail-stop: once Terminated they never come back, and
//! their backends are orphaned rather than migrated. Drain removes a drone
//! from the placement pool immediately and touches nothing else.

use vstd::prelude::*;
use crate::events::{Event, EventKind};
use crate::state::{
    drone_ix, drone_of, has_drone, lemma_drone_at, lemma_drone_lookup_push,
    lemma_drone_lookup_update, Controller, Drone,
};
use crate::types::NodeStatus;

verus! {

/// A drone counts as connected/active while it is Available.
pub open spec fn drone_active(d: Drone) -> bool {
    d.status is Available
}

/// A drone whose heartbeats stopped longer ago than the staleness window,
/// and which has not yet been marked Terminated.
pub open spec fn drone_stale(d: Drone, now: u64, timeout: u64) -> bool {
    &&& !(d.status is Terminated)
    &&& now - d.last_heartbeat > timeout
}

/// A drone row after a heartbeat: promoted to Available, heartbeat stamped,
/// everything else untouched.
pub open spec fn drone_beat(post: Drone, pre: Drone, now: u64) -> bool {
    &&& post.id == pre.id
    &&& post.cluster == pre.cluster
    &&& post.name == pre.name
    &&& post.controller == pre.controller
    &&& post.plane_version == pre.plane_version
    &&& post.plane_hash == pre.plane_hash
    &&& post.status is Available
    &&& post.last_heartbeat == now
    &&& post.drained == pre.drained
}

/// A drone row after expiry: Terminated, everything else untouched.
pub open spec fn drone_expired(post: Drone, pre: Drone) -> bool {
    &&& post.id == pre.id
    &&& post.cluster == pre.cluster
    &&& post.name == pre.name
    &&& post.controller == pre.controller
    &&& post.plane_version == pre.plane_version
    &&& post.plane_hash == pre.plane_hash
    &&& post.status is Terminated
    &&& post.last_heartbeat == pre.last_heartbeat
    &&& post.drained == pre.drained
}

/// A drone row after drain: out of the placement pool, everything else
/// untouched.
pub open spec fn drone_drained_row(post: Drone, pre: Drone) -> bool {
    &&& post.id == pre.id
    &&& post.cluster == pre.cluster
    &&& post.name == pre.name
    &&& post.controller == pre.controller
    &&& post.plane_version == pre.plane_version
    &&& post.plane_hash == pre.plane_hash
    &&& post.status == pre.status
    &&& post.last_heartbeat == pre.last_heartbeat
    &&& post.drained
}

/// Whether some drone is registered under `(cluster, name)`.
pub open spec fn named_drone(ds: Seq<Drone>, c: Seq<char>, n: Seq<char>) -> bool {
    exists|i: int| 0 <= i < ds.len() && (#[trigger] ds[i]).cluster@ == c && ds[i].name@ == n
}

/// The ids of the drones that are stale at `now`, in registry order.
pub open spec fn stale_ids(ds: Seq<Drone>, now: u64, timeout: u64) -> Seq<u64>
    decreases ds.len(),
{
    if ds.len() == 0 {
        Seq::empty()
    } else {
        stale_ids(ds.drop_last(), now, timeout) + if drone_stale(ds.last(), now, timeout) {
            seq![ds.last().id]
        } else {
            Seq::empty()
        }
    }
}

/// Everything except the drone table and the event log is unchanged.
pub open spec fn only_drones_and_events_touched(pre: Controller, post: Controller) -> bool {
    &&& post.backends@ == pre.backends@
    &&& post.locks@ == pre.locks@
    &&& post.next_backend_id == pre.next_backend_id
    &&& post.default_cluster == pre.default_cluster
    &&& post.heartbeat_timeout_seconds == pre.heartbeat_timeout_seconds
}

/// Well-formedness survives replacing one drone row by another with the
/// same id and cluster.
proof fn lemma_wf_after_drone_update(pre: Controller, post: Controller, ix: int)
    requires
        pre.wf(),
        0 <= ix < pre.drones@.len(),
        post.drones@ == pre.drones@.update(ix, post.drones@[ix]),
        post.drones@[ix].id == pre.drones@[ix].id,
        post.drones@[ix].cluster == pre.drones@[ix].cluster,
        post.backends@ == pre.backends@,
        post.locks@ == pre.locks@,
        post.next_backend_id == pre.next_backend_id,
        post.next_drone_id == pre.next_drone_id,
    ensures
        post.wf(),
{
    let nd = post.drones@[ix];
    lemma_drone_lookup_update(pre.drones@, ix, nd, nd.id);
    assert(forall|i: int|
        0 <= i < post.drones@.len() ==> (#[trigger] post.drones@[i]).id == pre.drones@[i].id);
    assert forall|i: int| 0 <= i < post.backends@.len() implies has_drone(
        post.drones@,
        (#[trigger] post.backends@[i]).drone,
    ) && drone_of(post.drones@, post.backends@[i].drone).cluster@
        == post.backends@[i].cluster@ by {
        assert(has_drone(pre.drones@, pre.backends@[i].drone));
        lemma_drone_lookup_update(pre.drones@, ix, nd, pre.backends@[i].drone);
        if pre.backends@[i].drone == pre.drones@[ix].id {
            assert(drone_of(post.drones@, pre.backends@[i].drone) == nd);
            assert(nd.cluster@ == pre.drones@[ix].cluster@);
            assert(drone_of(pre.drones@, pre.drones@[ix].id) == pre.drones@[ix]) by {
                lemma_drone_at(pre.drones@, ix);
            }
        } else {
            assert(drone_of(post.drones@, pre.backends@[i].drone) == drone_of(
                pre.drones@,
                pre.backends@[i].drone,
            ));
        }
    }
}

impl Controller {
    /// Index of the drone registered under `(cluster, name)`, if any.
    pub fn find_drone_by_name(&self, cluster: &String, name: &String) -> (r: Option<usize>)
        ensures
            match r {
                Some(ix) => ix < self.drones@.len() && self.drones@[ix as int].cluster@ == cluster@
                    && self.drones@[ix as int].name@ == name@,
                None => !named_drone(self.drones@, cluster@, name@),
            },
            r is Some <==> named_drone(self.drones@, cluster@, name@),
    {
        let mut i: usize = 0;
        while i < self.drones.len()
            invariant
                i <= self.drones@.len(),
                forall|j: int|
                    0 <= j < i ==> !((#[trigger] self.drones@[j]).cluster@ == cluster@
                        && self.drones@[j].name@ == name@),
            decreases self.drones@.len() - i,
        {
            if self.drones[i].cluster == *cluster && self.drones[i].name == *name {
                return Some(i);
            }
            i += 1;
        }
        None
    }

    /// First registration of a drone creates it in `Starting`; registering
    /// an existing `(cluster, name)` changes nothing and hands back the id
    /// it already has.
    pub fn register_drone(
        &mut self,
        cluster: String,
        name: String,
        controller: Option<String>,
        plane_version: String,
        plane_hash: String,
        now: u64,
    ) -> (r: u64)
        requires
            old(self).wf(),
            old(self).next_drone_id < u64::MAX,
            old(self).next_event_id < u64::MAX,
        ensures
            final(self).wf(),
            named_drone(old(self).drones@, cluster@, name@) ==> *final(self) == *old(self)
                && exists|i: int|
                0 <= i < old(self).drones@.len() && (#[trigger] old(self).drones@[i]).cluster@
                    == cluster@ && old(self).drones@[i].name@ == name@ && old(
                    self,
                ).drones@[i].id == r,
            !named_drone(old(self).drones@, cluster@, name@) ==> ({
                let pre = *old(self);
                let post = *final(self);
                let nd = post.drones@.last();
                &&& r == pre.next_drone_id
                &&& post.drones@ == pre.drones@.push(nd)
                &&& nd.id == pre.next_drone_id
                &&& nd.cluster == cluster
                &&& nd.name == name
                &&& nd.controller == controller
                &&& nd.plane_version == plane_version
                &&& nd.plane_hash == plane_hash
                &&& nd.status is Starting
                &&& nd.last_heartbeat == now
                &&& !nd.drained
                &&& post.events@ == pre.events@.push(
                    Event {
                        id: pre.next_event_id,
                        timestamp: now,
                        key: None,
                        kind: EventKind::DroneRegistered { drone: pre.next_drone_id },
                    },
                )
                &&& post.next_drone_id == pre.next_drone_id + 1
                &&& post.next_event_id == pre.next_event_id + 1
                &&& only_drones_and_events_touched(pre, post)
            }),
    {
        if let Some(ix) = self.find_drone_by_name(&cluster, &name) {
            proof {
                assert(self.drones@[ix as int].cluster@ == cluster@ && self.drones@[ix as int].name@
                    == name@ && self.drones@[ix as int].id == self.drones@[ix as int].id);
            }
            return self.drones[ix].id;
        }
        let id = self.next_drone_id;
        let nd = Drone {
            id,
            cluster,
            name,
            controller,
            plane_version,
            plane_hash,
            status: NodeStatus::Starting,
            last_heartbeat: now,
            drained: false,
        };
        self.drones.push(nd);
        self.events.push(
            Event {
                id: self.next_event_id,
                timestamp: now,
                key: None,
                kind: EventKind::DroneRegistered { drone: id },
            },
        );
        self.next_drone_id = self.next_drone_id + 1;
        self.next_event_id = self.next_event_id + 1;
        proof {
            let pre = *old(self);
            let nd2 = self.drones@.last();
            assert(forall|i: int|
                0 <= i < pre.drones@.len() ==> (#[trigger] pre.drones@[i]).id != nd2.id);
            lemma_drone_lookup_push(pre.drones@, nd2, nd2.id);
            assert forall|i: int| 0 <= i < self.backends@.len() implies has_drone(
                self.drones@,
                (#[trigger] self.backends@[i]).drone,
            ) && drone_of(self.drones@, self.backends@[i].drone).cluster@
                == self.backends@[i].cluster@ by {
                assert(has_drone(pre.drones@, pre.backends@[i].drone));
                lemma_drone_lookup_push(pre.drones@, nd2, pre.backends@[i].drone);
                assert(pre.backends@[i].drone != nd2.id) by {
                    let j = drone_ix(pre.drones@, pre.backends@[i].drone);
                    assert(pre.drones@[j].id == pre.backends@[i].drone);
                }
            }
        }
        id
    }

    /// A heartbeat promotes a drone to Available and stamps the time; a
    /// heartbeat from an unknown or Terminated drone is ignored — fail-stop
    /// means Terminated is forever. An event is logged on the first
    /// heartbeat, when the drone leaves `Starting`.
    pub fn heartbeat(&mut self, drone_id: u64, now: u64) -> (ok: bool)
        requires
            old(self).wf(),
            old(self).next_event_id < u64::MAX,
        ensures
            final(self).wf(),
            ok == (has_drone(old(self).drones@, drone_id) && !(drone_of(
                old(self).drones@,
                drone_id,
            ).status is Terminated)),
            !ok ==> *final(self) == *old(self),
            ok ==> ({
                let pre = *old(self);
                let post = *final(self);
                let ix = drone_ix(pre.drones@, drone_id);
                &&& drone_beat(post.drones@[ix], pre.drones@[ix], now)
                &&& post.drones@ == pre.drones@.update(ix, post.drones@[ix])
                &&& post.events@ == if pre.drones@[ix].status is Starting {
                    pre.events@.push(
                        Event {
                            id: pre.next_event_id,
                            timestamp: now,
                            key: None,
                            kind: EventKind::DroneStatusChanged {
                                drone: drone_id,
                                status: NodeStatus::Available,
                            },
                        },
                    )
                } else {
                    pre.events@
                }
                &&& post.next_event_id as int == if pre.drones@[ix].status is Starting {
                    pre.next_event_id + 1
                } else {
                    pre.next_event_id as int
                }
                &&& post.next_drone_id == pre.next_drone_id
                &&& only_drones_and_events_touched(pre, post)
            }),
    {
        let ix = match self.find_drone(drone_id) {
            Some(ix) => ix,
            None => {
                return false;
            },
        };
        proof {
            lemma_drone_at(self.drones@, ix as int);
        }
        let was_starting = match self.drones[ix].status {
            NodeStatus::Starting => true,
            NodeStatus::Available => false,
            NodeStatus::Terminated => {
                return false;
            },
        };
        let mut d = self.drones.remove(ix);
        d.status = NodeStatus::Available;
        d.last_heartbeat = now;
        self.drones.insert(ix, d);
        proof {
            assert(self.drones@ =~= old(self).drones@.update(
                ix as int,
                self.drones@[ix as int],
            ));
        }
        if was_starting {
            self.events.push(
                Event {
                    id: self.next_event_id,
                    timestamp: now,
                    key: None,
                    kind: EventKind::DroneStatusChanged {
                        drone: drone_id,
                        status: NodeStatus::Available,
                    },
                },
            );
            self.next_event_id = self.next_event_id + 1;
        }
        proof {
            lemma_wf_after_drone_update(*old(self), *self, ix as int);
        }
        true
    }

    /// Marks one stale drone Terminated. Its backends are left exactly as
    /// they are: orphaned for the operator, not migrated.
    pub fn expire_drone(&mut self, drone_id: u64, now: u64) -> (ok: bool)
        requires
            old(self).wf(),
            old(self).next_event_id < u64::MAX,
        ensures
            final(self).wf(),
            ok == (has_drone(old(self).drones@, drone_id) && drone_stale(
                drone_of(old(self).drones@, drone_id),
                now,
                old(self).heartbeat_timeout_seconds,
            )),
            !ok ==> *final(self) == *old(self),
            ok ==> ({
                let pre = *old(self);
                let post = *final(self);
                let ix = drone_ix(pre.drones@, drone_id);
                &&& drone_expired(post.drones@[ix], pre.drones@[ix])
                &&& post.drones@ == pre.drones@.update(ix, post.drones@[ix])
                &&& post.events@ == pre.events@.push(
                    Event {
                        id: pre.next_event_id,
                        timestamp: now,
                        key: None,
                        kind: EventKind::DroneStatusChanged {
                            drone: drone_id,
                            status: NodeStatus::Terminated,
                        },
                    },
                )
                &&& post.next_event_id == pre.next_event_id + 1
                &&& post.next_drone_id == pre.next_drone_id
                &&& only_drones_and_events_touched(pre, post)
            }),
    {
        let ix = match self.find_drone(drone_id) {
            Some(ix) => ix,
            None => {
                return false;
            },
        };
        proof {
            lemma_drone_at(self.drones@, ix as int);
        }
        let terminated = match self.drones[ix].status {
            NodeStatus::Terminated => true,
            _ => false,
        };
        if terminated {
            return false;
        }
        let hb = self.drones[ix].last_heartbeat;
        let fresh = if now >= hb {
            now - hb <= self.heartbeat_timeout_seconds
        } else {
            true
        };
        if fresh {
            return false;
        }
        let mut d = self.drones.remove(ix);
        d.status = NodeStatus::Terminated;
        self.drones.insert(ix, d);
        proof {
            assert(self.drones@ =~= old(self).drones@.update(
                ix as int,
                self.drones@[ix as int],
            ));
        }
        self.events.push(
            Event {
                id: self.next_event_id,
                timestamp: now,
                key: None,
                kind: EventKind::DroneStatusChanged {
                    drone: drone_id,
                    status: NodeStatus::Terminated,
                },
            },
        );
        self.next_event_id = self.next_event_id + 1;
        proof {
            lemma_wf_after_drone_update(*old(self), *self, ix as int);
        }
        true
    }

    /// The drones whose heartbeats have gone stale: the candidates for
    /// `expire_drone`, which the periodic sweep walks one by one.
    pub fn stale_drones(&self, now: u64) -> (r: Vec<u64>)
        ensures
            r@ == stale_ids(self.drones@, now, self.heartbeat_timeout_seconds),
    {
        let mut out: Vec<u64> = Vec::new();
        let mut i: usize = 0;
        proof {
            assert(self.drones@.take(0) =~= Seq::<Drone>::empty());
        }
        while i < self.drones.len()
            invariant
                i <= self.drones@.len(),
                out@ == stale_ids(self.drones@.take(i as int), now, self.heartbeat_timeout_seconds),
            decreases self.drones@.len() - i,
        {
            proof {
                let cur = self.drones@.take(i + 1);
                assert(cur.drop_last() =~= self.drones@.take(i as int));
                assert(cur.last() == self.drones@[i as int]);
            }
            let terminated = match self.drones[i].status {
                NodeStatus::Terminated => true,
                _ => false,
            };
            let hb = self.drones[i].last_heartbeat;
            let fresh = if now >= hb {
                now - hb <= self.heartbeat_timeout_seconds
            } else {
                true
            };
            if !terminated && !fresh {
                out.push(self.drones[i].id);
                proof {
                    assert(out@ =~= stale_ids(
                        self.drones@.take(i + 1),
                        now,
                        self.heartbeat_timeout_seconds,
                    ));
                }
            } else {
                proof {
                    assert(out@ =~= stale_ids(
                        self.drones@.take(i + 1),
                        now,
                        self.heartbeat_timeout_seconds,
                    ));
                }
            }
            i += 1;
        }
        proof {
            assert(self.drones@.take(self.drones@.len() as int) =~= self.drones@);
        }
        out
    }

    /// Drain: removes a drone from the placement pool immediately,
    /// fire-and-forget. Running backends are untouched; they are reclaimed
    /// individually or by the idle watchdog.
    pub fn drain_drone(&mut self, drone_id: u64, now: u64) -> (ok: bool)
        requires
            old(self).wf(),
            old(self).next_event_id < u64::MAX,
        ensures
            final(self).wf(),
            ok == has_drone(old(self).drones@, drone_id),
            !ok ==> *final(self) == *old(self),
            ok ==> ({
                let pre = *old(self);
                let post = *final(self);
                let ix = drone_ix(pre.drones@, drone_id);
                &&& drone_drained_row(post.drones@[ix], pre.drones@[ix])
                &&& post.drones@ == pre.drones@.update(ix, post.drones@[ix])
                &&& post.events@ == pre.events@.push(
                    Event {
                        id: pre.next_event_id,
                        timestamp: now,
                        key: None,
                        kind: EventKind::DroneDrained { drone: drone_id },
                    },
                )
                &&& post.next_event_id == pre.next_event_id + 1
                &&& post.next_drone_id == pre.next_drone_id
                &&& only_drones_and_events_touched(pre, post)
            }),
    {
        let ix = match self.find_drone(drone_id) {
            Some(ix) => ix,
            None => {
                return false;
            },
        };
        proof {
            lemma_drone_at(self.drones@, ix as int);
        }
        let mut d = self.drones.remove(ix);
        d.drained = true;
        self.drones.insert(ix, d);
        proof {
            assert(self.drones@ =~= old(self).drones@.update(
                ix as int,
                self.drones@[ix as int],
            ));
        }
        self.events.push(
            Event {
                id: self.next_event_id,
                timestamp: now,
                key: None,
                kind: EventKind::DroneDrained { drone: drone_id },
            },
        );
        self.next_event_id = self.next_event_id + 1;
        proof {
            lemma_wf_after_drone_update(*old(self), *self, ix as int);
        }
        true
    }
}

} // verus!
